//! The article markup.
//!
//! An article is a run of sentences, each ended by the sentence delimiter
//! (`。` by default). Inside a sentence a tag `<<body>>` marks a vocabulary
//! entry; its body holds up to three fields separated by the field delimiter
//! (`・` by default): the word, its reading and an optional gloss. Only the
//! first two delimiters of a body separate fields: the gloss keeps the rest
//! verbatim.
use crate::text::{chars_of, lemma_concat_assoc, lemma_push_then_concat, matches_at, string_of};
use vstd::prelude::*;

verus! {

/// `[p]` when `p` is not empty, else nothing.
pub open spec fn keep(p: Seq<char>) -> Seq<Seq<char>> {
    if p.len() > 0 {
        seq![p]
    } else {
        seq![]
    }
}

/// The non-empty pieces of `s[i..]` between occurrences of `d`, where `cur`
/// is the piece read so far. An empty `d` cuts between every two characters.
pub open spec fn split_from(s: Seq<char>, d: Seq<char>, i: int, cur: Seq<char>) -> Seq<Seq<char>>
    decreases s.len() - i,
{
    if i >= s.len() {
        keep(cur)
    } else if d.len() == 0 {
        keep(cur) + split_from(s, d, i + 1, seq![s[i]])
    } else if i + d.len() <= s.len() && s.subrange(i, i + d.len()) == d {
        keep(cur) + split_from(s, d, i + d.len(), seq![])
    } else {
        split_from(s, d, i + 1, cur.push(s[i]))
    }
}

/// The non-empty pieces of `s` between occurrences of `d`, in order.
pub open spec fn split_nonempty(s: Seq<char>, d: Seq<char>) -> Seq<Seq<char>> {
    split_from(s, d, 0, seq![])
}

/// How many characters from `s[k]` on come before the first `c`.
pub open spec fn run_len(s: Seq<char>, k: int, c: char) -> nat
    decreases s.len() - k,
{
    if k < 0 || k >= s.len() || s[k] == c {
        0
    } else {
        1 + run_len(s, k + 1, c)
    }
}

/// When a tag `<<body>>` starts at `s[i]`: the length of its body. The body
/// runs up to the first `>`, which must be followed by a second one.
pub open spec fn tag_at(s: Seq<char>, i: int) -> Option<nat> {
    if 0 <= i && i + 1 < s.len() && s[i] == '<' && s[i + 1] == '<' {
        let n = run_len(s, i + 2, '>');
        if i + n + 3 < s.len() && s[i + n + 3] == '>' {
            Some(n)
        } else {
            None
        }
    } else {
        None
    }
}

/// The bodies of the tags in `s[i..]` as `(start, end)` positions, leftmost
/// first and without overlap.
pub open spec fn tag_spans_from(s: Seq<char>, i: int) -> Seq<(int, int)>
    decreases s.len() - i,
{
    if i < 0 || i >= s.len() {
        seq![]
    } else {
        match tag_at(s, i) {
            Some(n) => seq![(i + 2, i + 2 + n)] + tag_spans_from(s, i + n + 4),
            None => tag_spans_from(s, i + 1),
        }
    }
}

/// Whether `s[i..]` holds a `<<` that opens no tag.
pub open spec fn stray_open_from(s: Seq<char>, i: int) -> bool
    decreases s.len() - i,
{
    if i < 0 || i >= s.len() {
        false
    } else {
        match tag_at(s, i) {
            Some(n) => stray_open_from(s, i + n + 4),
            None => (i + 1 < s.len() && s[i] == '<' && s[i + 1] == '<') || stray_open_from(s, i + 1),
        }
    }
}

/// The tag bodies of a sentence, in order of appearance.
pub open spec fn tag_bodies(s: Seq<char>) -> Seq<Seq<char>> {
    tag_spans_from(s, 0).map_values(|p: (int, int)| s.subrange(p.0, p.1))
}

/// The whole tags of a text, brackets included, in order of appearance.
pub open spec fn whole_tags(s: Seq<char>) -> Seq<Seq<char>> {
    tag_spans_from(s, 0).map_values(|p: (int, int)| s.subrange(p.0 - 2, p.1 + 2))
}

/// The part of `s` before the first `c`.
pub open spec fn prefix_before(s: Seq<char>, c: char) -> Seq<char> {
    s.subrange(0, run_len(s, 0, c) as int)
}

/// `s[i..]` with each tag replaced by its word quoted in backticks.
pub open spec fn clean_from(s: Seq<char>, i: int, fd: char) -> Seq<char>
    decreases s.len() - i,
{
    if i < 0 || i >= s.len() {
        seq![]
    } else {
        match tag_at(s, i) {
            Some(n) => seq!['`'] + prefix_before(s.subrange(i + 2, i + 2 + n), fd) + seq!['`']
                + clean_from(s, i + n + 4, fd),
            None => seq![s[i]] + clean_from(s, i + 1, fd),
        }
    }
}

/// The sentence as it is shown: tags replaced by their quoted word, and the
/// sentence delimiter put back at the end.
pub open spec fn cleaned(s: Seq<char>, fd: char, sd: char) -> Seq<char> {
    clean_from(s, 0, fd).push(sd)
}

/// The non-empty fields of a tag body: the text before the first delimiter,
/// the text between the first and the second, and all the rest.
pub open spec fn fields_of(b: Seq<char>, d: char) -> Seq<Seq<char>> {
    let i = run_len(b, 0, d) as int;
    if i == b.len() {
        keep(b)
    } else {
        let j = i + 1 + run_len(b, i + 1, d);
        if j == b.len() {
            keep(b.subrange(0, i)) + keep(b.subrange(i + 1, b.len() as int))
        } else {
            keep(b.subrange(0, i)) + keep(b.subrange(i + 1, j)) + keep(
                b.subrange(j + 1, b.len() as int),
            )
        }
    }
}

/// The run length never reaches past the end of the sequence.
pub proof fn lemma_run_len_bound(s: Seq<char>, k: int, c: char)
    requires
        0 <= k <= s.len(),
    ensures
        k + run_len(s, k, c) <= s.len(),
        k + run_len(s, k, c) < s.len() ==> s[k + run_len(s, k, c)] == c,
        forall|m: int| k <= m < k + run_len(s, k, c) ==> s[m] != c,
    decreases s.len() - k,
{
    if k < s.len() && s[k] != c {
        lemma_run_len_bound(s, k + 1, c);
    }
}

/// How many characters from `cs[k]` on come before the first `c`, plus `k`.
fn scan_until(cs: &Vec<char>, k: usize, c: char) -> (r: usize)
    requires
        k <= cs.len(),
    ensures
        r == k + run_len(cs@, k as int, c),
        r <= cs.len(),
{
    let mut j: usize = k;
    while j < cs.len() && cs[j] != c
        invariant
            k <= j <= cs.len(),
            run_len(cs@, k as int, c) == (j - k) + run_len(cs@, j as int, c),
        decreases cs.len() - j,
    {
        j = j + 1;
    }
    j
}

/// When a tag starts at `cs[i]`: the length of its body.
fn tag_at_exec(cs: &Vec<char>, i: usize) -> (r: Option<usize>)
    requires
        i < cs.len(),
    ensures
        match tag_at(cs@, i as int) {
            Some(n) => r == Some(n as usize),
            None => r is None,
        },
{
    if i + 1 < cs.len() && cs[i] == '<' && cs[i + 1] == '<' {
        let e = scan_until(cs, i + 2, '>');
        if e < cs.len() && e + 1 < cs.len() && cs[e + 1] == '>' {
            Some(e - i - 2)
        } else {
            None
        }
    } else {
        None
    }
}

/// The `(start, end)` positions of the tag bodies of `cs`.
fn tag_spans(cs: &Vec<char>) -> (r: Vec<(usize, usize)>)
    ensures
        r@.map_values(|p: (usize, usize)| (p.0 as int, p.1 as int)) == tag_spans_from(cs@, 0),
        forall|k: int| 0 <= k < r@.len() ==> 2 <= #[trigger] r@[k].0 <= r@[k].1 && r@[k].1 + 2 <= cs@.len(),
{
    let mut out: Vec<(usize, usize)> = Vec::new();
    let mut i: usize = 0;
    assert(out@.map_values(|p: (usize, usize)| (p.0 as int, p.1 as int)) + tag_spans_from(cs@, 0)
        =~= tag_spans_from(cs@, 0));
    while i < cs.len()
        invariant
            i <= cs@.len(),
            out@.map_values(|p: (usize, usize)| (p.0 as int, p.1 as int)) + tag_spans_from(cs@, i as int)
                == tag_spans_from(cs@, 0),
            forall|k: int| 0 <= k < out@.len() ==> 2 <= #[trigger] out@[k].0 <= out@[k].1 && out@[k].1 + 2 <= cs@.len(),
        decreases cs.len() - i,
    {
        let ghost before = out@.map_values(|p: (usize, usize)| (p.0 as int, p.1 as int));
        match tag_at_exec(cs, i) {
            Some(n) => {
                let span = (i + 2, i + 2 + n);
                out.push(span);
                proof {
                    assert(out@.map_values(|p: (usize, usize)| (p.0 as int, p.1 as int)) =~= before.push(
                        (span.0 as int, span.1 as int),
                    ));
                    lemma_push_then_concat(
                        before,
                        (span.0 as int, span.1 as int),
                        tag_spans_from(cs@, i + n + 4),
                    );
                }
                i = i + n + 4;
            },
            None => {
                i = i + 1;
            },
        }
    }
    out
}

/// The non-empty pieces of `cs` between occurrences of `d`.
fn split_chars(cs: &Vec<char>, d: &Vec<char>) -> (r: Vec<String>)
    ensures
        r@.map_values(|p: String| p@) == split_nonempty(cs@, d@),
{
    let mut out: Vec<String> = Vec::new();
    let mut start: usize = 0;
    let mut i: usize = 0;
    assert(cs@.subrange(0, 0) =~= Seq::<char>::empty());
    assert(out@.map_values(|p: String| p@) + split_from(cs@, d@, 0, seq![]) =~= split_nonempty(
        cs@,
        d@,
    ));
    while i < cs.len()
        invariant
            start <= i <= cs@.len(),
            out@.map_values(|p: String| p@) + split_from(
                cs@,
                d@,
                i as int,
                cs@.subrange(start as int, i as int),
            ) == split_nonempty(cs@, d@),
        decreases cs.len() - i,
    {
        let ghost cur = cs@.subrange(start as int, i as int);
        let ghost before = out@.map_values(|p: String| p@);
        let at_delimiter = d.len() > 0 && matches_at(cs, i, d);
        if d.len() == 0 || at_delimiter {
            if start < i {
                let p = string_of(cs, start, i);
                out.push(p);
                proof {
                    assert(out@.map_values(|p: String| p@) =~= before.push(cur));
                }
            } else {
                assert(out@.map_values(|p: String| p@) =~= before);
            }
            let ghost emitted = out@.map_values(|p: String| p@);
            proof {
                assert(emitted =~= before + keep(cur));
            }
            if d.len() == 0 {
                start = i;
                i = i + 1;
                proof {
                    assert(cs@.subrange(start as int, i as int) =~= seq![cs@[start as int]]);
                    lemma_concat_assoc(before, keep(cur), split_from(cs@, d@, i as int, seq![cs@[start as int]]));
                }
            } else {
                i = i + d.len();
                start = i;
                proof {
                    assert(cs@.subrange(start as int, i as int) =~= Seq::<char>::empty());
                    lemma_concat_assoc(before, keep(cur), split_from(cs@, d@, i as int, seq![]));
                }
            }
        } else {
            i = i + 1;
            assert(cur.push(cs@[i - 1]) =~= cs@.subrange(start as int, i as int));
        }
    }
    if start < i {
        let p = string_of(cs, start, i);
        let ghost before = out@.map_values(|p: String| p@);
        out.push(p);
        assert(out@.map_values(|p: String| p@) =~= before + keep(cs@.subrange(start as int, i as int)));
    } else {
        assert(out@.map_values(|p: String| p@) =~= out@.map_values(|p: String| p@) + keep(
            cs@.subrange(start as int, i as int),
        ));
    }
    out
}

/// The non-empty pieces of `s` between occurrences of `d`, in order.
pub fn split_text(s: &str, d: &str) -> (r: Vec<String>)
    ensures
        r@.map_values(|p: String| p@) == split_nonempty(s@, d@),
{
    let cs = chars_of(s);
    let ds = chars_of(d);
    split_chars(&cs, &ds)
}

/// How many characters of `cs[from..to]` come before the first `c`, plus `from`.
fn scan_within(cs: &Vec<char>, from: usize, to: usize, c: char) -> (r: usize)
    requires
        from <= to <= cs.len(),
    ensures
        r == from + run_len(cs@.subrange(from as int, to as int), 0, c),
        from <= r <= to,
{
    let ghost sub = cs@.subrange(from as int, to as int);
    let mut j: usize = from;
    while j < to && cs[j] != c
        invariant
            from <= j <= to <= cs.len(),
            sub == cs@.subrange(from as int, to as int),
            run_len(sub, 0, c) == (j - from) + run_len(sub, j - from, c),
        decreases to - j,
    {
        j = j + 1;
    }
    j
}

/// Appends `cs[from..to]` to `out`.
fn append_range(out: &mut String, cs: &Vec<char>, from: usize, to: usize)
    requires
        from <= to <= cs.len(),
    ensures
        final(out)@ == old(out)@ + cs@.subrange(from as int, to as int),
{
    let mut i: usize = from;
    while i < to
        invariant
            from <= i <= to <= cs.len(),
            out@ == old(out)@ + cs@.subrange(from as int, i as int),
        decreases to - i,
    {
        out.push(cs[i]);
        i = i + 1;
        assert(out@ =~= old(out)@ + cs@.subrange(from as int, i as int));
    }
}

/// `cs` with each tag replaced by its word quoted in backticks.
fn clean_chars(cs: &Vec<char>, fd: char) -> (r: String)
    ensures
        r@ == clean_from(cs@, 0, fd),
{
    let mut out = String::new();
    let mut i: usize = 0;
    assert(out@ + clean_from(cs@, 0, fd) =~= clean_from(cs@, 0, fd));
    while i < cs.len()
        invariant
            i <= cs.len(),
            out@ + clean_from(cs@, i as int, fd) == clean_from(cs@, 0, fd),
        decreases cs.len() - i,
    {
        let ghost before = out@;
        match tag_at_exec(cs, i) {
            Some(n) => {
                proof {
                    lemma_run_len_bound(cs@, i + 2, '>');
                }
                let body_end = i + 2 + n;
                let word_end = scan_within(cs, i + 2, body_end, fd);
                out.push('`');
                append_range(&mut out, cs, i + 2, word_end);
                out.push('`');
                proof {
                    let body = cs@.subrange(i + 2, body_end as int);
                    assert(prefix_before(body, fd) =~= cs@.subrange(i + 2, word_end as int));
                    let x = seq!['`'] + prefix_before(body, fd) + seq!['`'];
                    assert(out@ =~= before + x);
                    lemma_concat_assoc(before, x, clean_from(cs@, i + n + 4, fd));
                }
                i = i + n + 4;
            },
            None => {
                out.push(cs[i]);
                proof {
                    lemma_push_then_concat(before, cs@[i as int], clean_from(cs@, i + 1, fd));
                }
                i = i + 1;
            },
        }
    }
    out
}

/// The texts `cs[s..e]` for the given positions, shifted outward by `pad`.
fn texts_of_spans(cs: &Vec<char>, spans: &Vec<(usize, usize)>, pad: usize) -> (r: Vec<String>)
    requires
        pad <= 2,
        forall|k: int|
            0 <= k < spans@.len() ==> 2 <= #[trigger] spans@[k].0 <= spans@[k].1 && spans@[k].1 + 2
                <= cs.len(),
    ensures
        r@.map_values(|p: String| p@) == spans@.map_values(
            |p: (usize, usize)| cs@.subrange(p.0 - pad, p.1 + pad),
        ),
{
    let ghost f = |p: (usize, usize)| cs@.subrange(p.0 - pad, p.1 + pad);
    let mut out: Vec<String> = Vec::new();
    let mut k: usize = 0;
    assert(out@.map_values(|p: String| p@) =~= spans@.take(0).map_values(f));
    while k < spans.len()
        invariant
            k <= spans@.len(),
            pad <= 2,
            f == (|p: (usize, usize)| cs@.subrange(p.0 - pad, p.1 + pad)),
            forall|m: int|
                0 <= m < spans@.len() ==> 2 <= #[trigger] spans@[m].0 <= spans@[m].1 && spans@[m].1
                    + 2 <= cs.len(),
            out@.map_values(|p: String| p@) == spans@.take(k as int).map_values(f),
        decreases spans.len() - k,
    {
        let (a, b) = spans[k];
        assert(spans@[k as int] == (a, b));
        let t = string_of(cs, a - pad, b + pad);
        let ghost prev = out@.map_values(|p: String| p@);
        out.push(t);
        proof {
            assert(spans@.take(k + 1) =~= spans@.take(k as int).push(spans@[k as int]));
            assert(out@.map_values(|p: String| p@) =~= prev.push(t@));
            assert(spans@.take(k + 1).map_values(f) =~= spans@.take(k as int).map_values(f).push(
                f(spans@[k as int]),
            ));
        }
        k = k + 1;
    }
    assert(spans@.take(k as int) =~= spans@);
    out
}

/// Pushes `cs[from..to]` when it is not empty.
fn push_kept(out: &mut Vec<String>, cs: &Vec<char>, from: usize, to: usize)
    requires
        from <= to <= cs.len(),
    ensures
        final(out)@.map_values(|p: String| p@) == old(out)@.map_values(|p: String| p@) + keep(
            cs@.subrange(from as int, to as int),
        ),
{
    let ghost before = out@.map_values(|p: String| p@);
    if from < to {
        let p = string_of(cs, from, to);
        out.push(p);
        assert(out@.map_values(|p: String| p@) =~= before + keep(
            cs@.subrange(from as int, to as int),
        ));
    } else {
        assert(before =~= before + keep(cs@.subrange(from as int, to as int)));
    }
}

/// The non-empty fields of the tag body `cs`.
fn fields_chars(cs: &Vec<char>, d: char) -> (r: Vec<String>)
    ensures
        r@.map_values(|p: String| p@) == fields_of(cs@, d),
{
    let mut out: Vec<String> = Vec::new();
    let i = scan_until(cs, 0, d);
    if i == cs.len() {
        push_kept(&mut out, cs, 0, i);
        assert(cs@.subrange(0, i as int) =~= cs@);
        assert(out@.map_values(|p: String| p@) =~= fields_of(cs@, d));
        return out;
    }
    let j = scan_until(cs, i + 1, d);
    push_kept(&mut out, cs, 0, i);
    if j == cs.len() {
        push_kept(&mut out, cs, i + 1, j);
        assert(out@.map_values(|p: String| p@) =~= fields_of(cs@, d));
    } else {
        push_kept(&mut out, cs, i + 1, j);
        push_kept(&mut out, cs, j + 1, cs.len());
        assert(out@.map_values(|p: String| p@) =~= fields_of(cs@, d));
    }
    out
}

/// Whether `text` holds a `<<` that opens no tag.
pub fn has_stray_open(text: &str) -> (r: bool)
    ensures
        r == stray_open_from(text@, 0),
{
    let cs = chars_of(text);
    let mut i: usize = 0;
    while i < cs.len()
        invariant
            i <= cs.len(),
            cs@ == text@,
            stray_open_from(cs@, 0) == stray_open_from(cs@, i as int),
        decreases cs.len() - i,
    {
        match tag_at_exec(&cs, i) {
            Some(n) => {
                i = i + n + 4;
            },
            None => {
                if i + 1 < cs.len() && cs[i] == '<' && cs[i + 1] == '<' {
                    assert(stray_open_from(cs@, i as int));
                    return true;
                }
                i = i + 1;
            },
        }
    }
    false
}

/// The parser of the article markup, with its two delimiters.
pub struct Parser {
    delimiter_field: char,
    delimiter_sentence: char,
}

impl Parser {
    /// The character between the fields of a tag.
    pub closed spec fn field_delimiter(&self) -> char {
        self.delimiter_field
    }

    /// The character that ends a sentence.
    pub closed spec fn sentence_delimiter(&self) -> char {
        self.delimiter_sentence
    }

    /// A parser with `・` between fields and `。` after sentences.
    pub fn new() -> (r: Parser)
        ensures
            r.field_delimiter() == '・',
            r.sentence_delimiter() == '。',
    {
        Parser { delimiter_field: '・', delimiter_sentence: '。' }
    }

    /// A parser with the given field and sentence delimiters.
    pub fn with_delimiters(field: char, sentence: char) -> (r: Parser)
        ensures
            r.field_delimiter() == field,
            r.sentence_delimiter() == sentence,
    {
        Parser { delimiter_field: field, delimiter_sentence: sentence }
    }

    /// The sentence with each tag replaced by its word in backticks, and the
    /// sentence delimiter appended.
    pub fn clean_sentence(&self, sentence: &str) -> (r: String)
        ensures
            r@ == cleaned(sentence@, self.field_delimiter(), self.sentence_delimiter()),
    {
        let cs = chars_of(sentence);
        let mut r = clean_chars(&cs, self.delimiter_field);
        r.push(self.delimiter_sentence);
        r
    }

    /// The bodies of the sentence's tags, in order of appearance.
    pub fn cap_entries_iter(&self, sentence: &str) -> (r: Vec<String>)
        ensures
            r@.map_values(|p: String| p@) == tag_bodies(sentence@),
    {
        let cs = chars_of(sentence);
        let spans = tag_spans(&cs);
        let r = texts_of_spans(&cs, &spans, 0);
        proof {
            let iv = spans@.map_values(|p: (usize, usize)| (p.0 as int, p.1 as int));
            assert(r@.map_values(|p: String| p@) =~= iv.map_values(
                |p: (int, int)| cs@.subrange(p.0, p.1),
            ));
        }
        r
    }

    /// The non-empty sentences of the article, without their delimiter.
    pub fn cap_sentences_iter(&self, article: &str) -> (r: Vec<String>)
        ensures
            r@.map_values(|p: String| p@) == split_nonempty(
                article@,
                seq![self.sentence_delimiter()],
            ),
    {
        let cs = chars_of(article);
        let mut d: Vec<char> = Vec::new();
        d.push(self.delimiter_sentence);
        assert(d@ =~= seq![self.sentence_delimiter()]);
        split_chars(&cs, &d)
    }

    /// The non-empty fields of a tag body: word, reading, and gloss.
    pub fn cap_fields_iter(&self, entry: &str) -> (r: Vec<String>)
        ensures
            r@.map_values(|p: String| p@) == fields_of(entry@, self.field_delimiter()),
    {
        let cs = chars_of(entry);
        fields_chars(&cs, self.delimiter_field)
    }
}

/// The whole tags of `text`, brackets included, in order of appearance.
pub fn whole_tags_of(text: &str) -> (r: Vec<String>)
    ensures
        r@.map_values(|p: String| p@) == whole_tags(text@),
{
    let cs = chars_of(text);
    let spans = tag_spans(&cs);
    let r = texts_of_spans(&cs, &spans, 2);
    proof {
        let iv = spans@.map_values(|p: (usize, usize)| (p.0 as int, p.1 as int));
        assert(r@.map_values(|p: String| p@) =~= iv.map_values(
            |p: (int, int)| cs@.subrange(p.0 - 2, p.1 + 2),
        ));
    }
    r
}

} // verus!
