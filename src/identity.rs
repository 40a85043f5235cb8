//! Stable identifiers for words and sentences.
use crate::text::chars_of;
use vstd::prelude::*;

verus! {

/// The standard, padded base64 text of the UTF-8 encoding of `s`.
pub uninterp spec fn base64_of(s: Seq<char>) -> Seq<char>;

/// Relies on `base64::encode` (standard alphabet with padding): the result is
/// a function of the input text alone.
#[verifier::external_body]
pub(crate) fn encode_id(s: &str) -> (r: String)
    ensures
        r@ == base64_of(s@),
{
    base64::encode(s)
}

/// The character that quotes a word inside a cleaned sentence. It is there
/// for display only and takes no part in a sentence's identity.
pub open spec fn is_marker(c: char) -> bool {
    c == '`'
}

/// `s` without its quoting marks.
pub open spec fn without_markers(s: Seq<char>) -> Seq<char> {
    s.filter(|c: char| !is_marker(c))
}

/// Dropping the quoting marks twice drops no more than once.
pub proof fn lemma_without_markers_idempotent(s: Seq<char>)
    ensures
        without_markers(without_markers(s)) == without_markers(s),
    decreases s.len(),
{
    let p = |c: char| !is_marker(c);
    if s.len() == 0 {
        assert(s.filter(p) =~= Seq::<char>::empty());
        assert(Seq::<char>::empty().filter(p) =~= Seq::<char>::empty());
    } else {
        let t = s.drop_last();
        let c = s.last();
        lemma_without_markers_idempotent(t);
        assert(s =~= t.push(c));
        t.lemma_filter_push(c, p);
        if p(c) {
            t.filter(p).lemma_filter_push(c, p);
        }
    }
}

/// `s` without its quoting marks.
pub fn strip_markers(s: &str) -> (r: String)
    ensures
        r@ == without_markers(s@),
{
    let cs = chars_of(s);
    let mut out = String::new();
    let mut i: usize = 0;
    assert(cs@.take(0) =~= Seq::<char>::empty());
    while i < cs.len()
        invariant
            i <= cs@.len(),
            out@ == cs@.take(i as int).filter(|c: char| !is_marker(c)),
        decreases cs.len() - i,
    {
        let c = cs[i];
        proof {
            assert(cs@.take(i + 1) =~= cs@.take(i as int).push(c));
            cs@.take(i as int).lemma_filter_push(c, |c: char| !is_marker(c));
        }
        if c != '`' {
            out.push(c);
        }
        i = i + 1;
    }
    assert(cs@.take(i as int) =~= cs@);
    out
}

/// A text from which an identifier is made, after an optional preparation
/// step.
pub struct IdSrc {
    value: String,
    key: String,
}

impl IdSrc {
    /// The text as it was given.
    pub closed spec fn source(&self) -> Seq<char> {
        self.value@
    }

    /// The prepared text that the identifier encodes.
    pub closed spec fn key(&self) -> Seq<char> {
        self.key@
    }

    /// A source whose text goes through `preprocessor` before it is encoded.
    pub fn from<F: Fn(String) -> String>(value: &str, preprocessor: F) -> (r: IdSrc)
        requires
            forall|s: String| preprocessor.requires((s,)),
        ensures
            r.source() == value@,
            exists|s: String, out: String|
                s@ == value@ && preprocessor.ensures((s,), out) && out@ == r.key(),
    {
        let input = value.to_owned();
        let key = preprocessor(input.clone());
        IdSrc { value: input, key }
    }

    /// A source that is encoded as it is.
    pub fn from_str(value: &str) -> (r: IdSrc)
        ensures
            r.source() == value@,
            r.key() == value@,
    {
        IdSrc { value: value.to_owned(), key: value.to_owned() }
    }

    /// The identifier: the base64 text of the prepared text.
    pub fn id(&self) -> (r: String)
        ensures
            r@ == base64_of(self.key()),
    {
        encode_id(self.key.as_str())
    }

    /// The text as it was given.
    pub fn value(&self) -> (r: &str)
        ensures
            r@ == self.source(),
    {
        self.value.as_str()
    }
}

} // verus!
