use vstd::prelude::*;
use crate::escape::{
    escape_char, escaped, fully_escaped, has_delimiter, is_delimiter, lemma_escape_round_trip,
    lemma_escaped_front, push_escaped, push_escaped_char,
};
use crate::text::{chars_of, push_range, string_of};

verus! {

/// The kind of emphasis span a delimiter opens or closes.
#[derive(Clone, Copy, Debug, PartialEq, Eq, Structural)]
pub enum Emphasis {
    Bold,
    Italic,
    Code,
}

pub open spec fn emphasis_of(c: char) -> Emphasis {
    if c == '*' {
        Emphasis::Bold
    } else if c == '_' {
        Emphasis::Italic
    } else {
        Emphasis::Code
    }
}

/// The index just past the run of characters equal to `s[i]` that starts at `i`.
pub open spec fn run_end(s: Seq<char>, i: int) -> int
    recommends
        0 <= i < s.len(),
    decreases s.len() - i,
{
    if 0 <= i && i + 1 < s.len() && s[i + 1] == s[i] {
        run_end(s, i + 1)
    } else {
        i + 1
    }
}

/// The markup produced for `s[i..]` when `open` is the emphasis span open at `i`.
///
/// A delimiter run opens a span when none is open and closes the span of its own
/// kind; both are emitted as they are. A run of another kind while a span is open
/// is literal text, each of its characters escaped. Other characters are escaped
/// with the delimiters left out of the reserved set.
pub open spec fn tokenize_from(s: Seq<char>, i: int, open: Option<Emphasis>) -> Seq<char>
    decreases s.len() - i,
{
    if i < 0 || i >= s.len() {
        Seq::empty()
    } else if is_delimiter(s[i]) {
        let j = run_end(s, i);
        let run = s.subrange(i, j);
        let kind = emphasis_of(s[i]);
        if j <= i || j > s.len() {
            Seq::empty()
        } else if open is None {
            run + tokenize_from(s, j, Some(kind))
        } else if open == Some(kind) {
            run + tokenize_from(s, j, None)
        } else {
            escaped(run, true) + tokenize_from(s, j, open)
        }
    } else {
        escape_char(s[i], false) + tokenize_from(s, i + 1, open)
    }
}

/// The markup for one piece of text, starting with no span open.
pub open spec fn tokenized(s: Seq<char>) -> Seq<char> {
    tokenize_from(s, 0, None)
}

pub proof fn lemma_run_end_bounds(s: Seq<char>, i: int)
    requires
        0 <= i < s.len(),
    ensures
        i < run_end(s, i) <= s.len(),
        forall|k: int| i <= k < run_end(s, i) ==> s[k] == s[i],
    decreases s.len() - i,
{
    if i + 1 < s.len() && s[i + 1] == s[i] {
        lemma_run_end_bounds(s, i + 1);
    }
}

/// A stretch without delimiters comes out escaped, and leaves the open span as
/// it was.
pub proof fn lemma_plain_stretch(s: Seq<char>, i: int, j: int, open: Option<Emphasis>)
    requires
        0 <= i <= j <= s.len(),
        forall|k: int| i <= k < j ==> !is_delimiter(#[trigger] s[k]),
    ensures
        tokenize_from(s, i, open) == escaped(s.subrange(i, j), false) + tokenize_from(s, j, open),
    decreases j - i,
{
    if i < j {
        lemma_plain_stretch(s, i + 1, j, open);
        lemma_escaped_front(s.subrange(i, j), false);
        assert(s.subrange(i, j).drop_first() == s.subrange(i + 1, j));
        let a = escape_char(s[i], false);
        let b = escaped(s.subrange(i + 1, j), false);
        let c = tokenize_from(s, j, open);
        assert(tokenize_from(s, i, open) == a + tokenize_from(s, i + 1, open));
        assert((a + b) + c == a + (b + c));
    } else {
        assert(s.subrange(i, j).len() == 0);
        assert(escaped(s.subrange(i, j), false) == Seq::<char>::empty());
        assert(Seq::<char>::empty() + tokenize_from(s, j, open) == tokenize_from(s, j, open));
    }
}

proof fn lemma_emphasis_distinct(a: char, b: char)
    requires
        is_delimiter(a),
        is_delimiter(b),
        a != b,
    ensures
        emphasis_of(a) != emphasis_of(b),
{
}

/// A balanced pair of one delimiter around plain text keeps both delimiters as
/// they are, and between them the text comes out escaped, with no reserved
/// character left unescaped.
pub proof fn lemma_balanced_pair(d: char, p: Seq<char>)
    requires
        is_delimiter(d),
        p.len() > 0,
        !has_delimiter(p),
    ensures
        tokenized(seq![d] + p + seq![d]) == seq![d] + escaped(p, false) + seq![d],
        fully_escaped(escaped(p, false)),
{
    lemma_escape_round_trip(p, false);
    let s = seq![d] + p + seq![d];
    let n = p.len() as int;
    assert(s[1] == p[0]);
    assert(!is_delimiter(p[0]));
    assert(run_end(s, 0) == 1);
    assert(s.subrange(0, 1) == seq![d]);
    assert forall|k: int| 1 <= k < n + 1 implies !is_delimiter(#[trigger] s[k]) by {
        assert(s[k] == p[k - 1]);
    }
    let kind = emphasis_of(d);
    assert(tokenize_from(s, 0, None) == seq![d] + tokenize_from(s, 1, Some(kind)));
    lemma_plain_stretch(s, 1, n + 1, Some(kind));
    assert(s.subrange(1, n + 1) == p);
    assert(s[n + 1] == d);
    assert(run_end(s, n + 1) == n + 2);
    assert(s.subrange(n + 1, n + 2) == seq![d]);
    assert(tokenize_from(s, n + 2, None) == Seq::<char>::empty());
    assert(tokenize_from(s, n + 1, Some(kind)) == seq![d] + tokenize_from(s, n + 2, None));
    let e = escaped(p, false);
    assert(seq![d] + (e + (seq![d] + Seq::<char>::empty())) == seq![d] + e + seq![d]);
}

/// A delimiter met while a span of another kind is open is literal text: it
/// comes out escaped, and the delimiters of the open span are kept.
pub proof fn lemma_unmatched_inside_other_span(e: char, d: char, p: Seq<char>, q: Seq<char>)
    requires
        is_delimiter(e),
        is_delimiter(d),
        e != d,
        !has_delimiter(p),
        !has_delimiter(q),
    ensures
        tokenized(seq![e] + p + seq![d] + q + seq![e]) == seq![e] + escaped(p, false) + seq![
            '\\',
            d,
        ] + escaped(q, false) + seq![e],
{
    lemma_emphasis_distinct(e, d);
    let s = seq![e] + p + seq![d] + q + seq![e];
    let np = p.len() as int;
    let nq = q.len() as int;
    let ke = emphasis_of(e);
    assert(s[0] == e);
    if np > 0 {
        assert(s[1] == p[0]);
        assert(!is_delimiter(p[0]));
    } else {
        assert(s[1] == d);
    }
    assert(run_end(s, 0) == 1);
    assert(s.subrange(0, 1) == seq![e]);
    assert(tokenize_from(s, 0, None) == seq![e] + tokenize_from(s, 1, Some(ke)));
    assert forall|k: int| 1 <= k < np + 1 implies !is_delimiter(#[trigger] s[k]) by {
        assert(s[k] == p[k - 1]);
    }
    lemma_plain_stretch(s, 1, np + 1, Some(ke));
    assert(s.subrange(1, np + 1) == p);
    assert(s[np + 1] == d);
    if nq > 0 {
        assert(s[np + 2] == q[0]);
        assert(!is_delimiter(q[0]));
    } else {
        assert(s[np + 2] == e);
    }
    assert(run_end(s, np + 1) == np + 2);
    assert(s.subrange(np + 1, np + 2) == seq![d]);
    assert(escaped(seq![d], true) == seq!['\\', d]) by {
        assert(seq![d].drop_last() == Seq::<char>::empty());
        assert(escaped(Seq::<char>::empty(), true) == Seq::<char>::empty());
        assert(seq![d].last() == d);
        assert(escape_char(d, true) == seq!['\\', d]);
        assert(Seq::<char>::empty() + seq!['\\', d] == seq!['\\', d]);
    }
    assert(tokenize_from(s, np + 1, Some(ke)) == seq!['\\', d] + tokenize_from(
        s,
        np + 2,
        Some(ke),
    ));
    assert forall|k: int| np + 2 <= k < np + 2 + nq implies !is_delimiter(#[trigger] s[k]) by {
        assert(s[k] == q[k - np - 2]);
    }
    lemma_plain_stretch(s, np + 2, np + 2 + nq, Some(ke));
    assert(s.subrange(np + 2, np + 2 + nq) == q);
    let last = np + 2 + nq;
    assert(s[last] == e);
    assert(run_end(s, last) == last + 1);
    assert(s.subrange(last, last + 1) == seq![e]);
    assert(tokenize_from(s, last + 1, None) == Seq::<char>::empty());
    assert(tokenize_from(s, last, Some(ke)) == seq![e] + tokenize_from(s, last + 1, None));
    let ep = escaped(p, false);
    let eq = escaped(q, false);
    assert(seq![e] + (ep + (seq!['\\', d] + (eq + (seq![e] + Seq::<char>::empty()))))
        == seq![e] + ep + seq!['\\', d] + eq + seq![e]);
}

fn is_delimiter_char(c: char) -> (r: bool)
    ensures
        r == is_delimiter(c),
{
    c == '*' || c == '_' || c == '`'
}

fn emphasis_for(c: char) -> (r: Emphasis)
    ensures
        r == emphasis_of(c),
{
    if c == '*' {
        Emphasis::Bold
    } else if c == '_' {
        Emphasis::Italic
    } else {
        Emphasis::Code
    }
}

/// The index just past the run of equal characters starting at `i`.
fn find_run_end(s: &Vec<char>, i: usize) -> (j: usize)
    requires
        i < s.len(),
    ensures
        j == run_end(s@, i as int),
{
    let c = s[i];
    let mut j: usize = i + 1;
    while j < s.len() && s[j] == c
        invariant
            i < j <= s.len(),
            s@[j - 1] == c,
            run_end(s@, i as int) == run_end(s@, j - 1),
        decreases s.len() - j,
    {
        assert(run_end(s@, j - 1) == run_end(s@, j as int));
        j = j + 1;
    }
    j
}

/// Appends the markup for `s` to `out`.
pub(crate) fn push_tokenized(out: &mut Vec<char>, s: &Vec<char>)
    ensures
        final(out)@ == old(out)@ + tokenized(s@),
{
    let mut i: usize = 0;
    let mut open: Option<Emphasis> = None;
    while i < s.len()
        invariant
            i <= s.len(),
            out@ + tokenize_from(s@, i as int, open) == old(out)@ + tokenized(s@),
        decreases s.len() - i,
    {
        let c = s[i];
        let ghost before = out@;
        let ghost prev_open = open;
        if is_delimiter_char(c) {
            let j = find_run_end(s, i);
            proof {
                lemma_run_end_bounds(s@, i as int);
            }
            let kind = emphasis_for(c);
            match open {
                None => {
                    push_range(out, s, i, j);
                    open = Some(kind);
                },
                Some(current) => {
                    if current == kind {
                        push_range(out, s, i, j);
                        open = None;
                    } else {
                        push_escaped(out, s, i, j, true);
                    }
                },
            }
            assert(out@ + tokenize_from(s@, j as int, open) == before + tokenize_from(
                s@,
                i as int,
                prev_open,
            ));
            i = j;
        } else {
            push_escaped_char(out, c, false);
            i = i + 1;
        }
    }
}

/// Converts one piece of text into markup: emphasis delimiters that open or
/// close a span are kept, everything else is escaped.
pub fn process_markdown_formatting(text: &str) -> (r: String)
    ensures
        r@ == tokenized(text@),
{
    let s = chars_of(text);
    let mut out: Vec<char> = Vec::new();
    push_tokenized(&mut out, &s);
    string_of(&out)
}

} // verus!
