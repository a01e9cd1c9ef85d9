use vstd::prelude::*;
use crate::text::{chars_of, string_of};

verus! {

/// The emphasis delimiters: bold, italic and code markers.
pub open spec fn is_delimiter(c: char) -> bool {
    c == '*' || c == '_' || c == '`'
}

/// Reserved characters other than the emphasis delimiters.
pub open spec fn is_reserved_plain(c: char) -> bool {
    c == '[' || c == ']' || c == '(' || c == ')' || c == '~' || c == '>' || c == '#'
        || c == '+' || c == '-' || c == '=' || c == '|' || c == '{' || c == '}' || c == '.'
        || c == '!' || c == '\'' || c == '"' || c == '?' || c == '$' || c == '&' || c == ','
        || c == ':' || c == ';' || c == '\\'
}

/// Every character with a structural meaning in the markup.
pub open spec fn is_reserved(c: char) -> bool {
    is_delimiter(c) || is_reserved_plain(c)
}

/// Whether `c` is escaped: with `full` the whole reserved set applies, without
/// it the emphasis delimiters pass through.
pub open spec fn needs_escape(c: char, full: bool) -> bool {
    if full {
        is_reserved(c)
    } else {
        is_reserved_plain(c)
    }
}

pub open spec fn escape_char(c: char, full: bool) -> Seq<char> {
    if needs_escape(c, full) {
        seq!['\\', c]
    } else {
        seq![c]
    }
}

/// `s` with each character that needs escaping preceded by a backslash.
pub open spec fn escaped(s: Seq<char>, full: bool) -> Seq<char>
    decreases s.len(),
{
    if s.len() == 0 {
        Seq::empty()
    } else {
        escaped(s.drop_last(), full) + escape_char(s.last(), full)
    }
}

/// Markup in which every reserved character is escaped: a backslash escapes
/// the character after it.
pub open spec fn fully_escaped(t: Seq<char>) -> bool
    decreases t.len(),
{
    if t.len() == 0 {
        true
    } else if t[0] == '\\' && t.len() >= 2 {
        fully_escaped(t.subrange(2, t.len() as int))
    } else {
        !is_reserved(t[0]) && fully_escaped(t.drop_first())
    }
}

/// `t` with each escaping backslash removed.
pub open spec fn unescaped(t: Seq<char>) -> Seq<char>
    decreases t.len(),
{
    if t.len() == 0 {
        Seq::empty()
    } else if t[0] == '\\' && t.len() >= 2 {
        seq![t[1]] + unescaped(t.subrange(2, t.len() as int))
    } else {
        seq![t[0]] + unescaped(t.drop_first())
    }
}

pub open spec fn has_delimiter(s: Seq<char>) -> bool {
    exists|i: int| 0 <= i < s.len() && is_delimiter(#[trigger] s[i])
}

/// Escaping may be unfolded from the front as well as from the back.
pub proof fn lemma_escaped_front(s: Seq<char>, full: bool)
    requires
        s.len() > 0,
    ensures
        escaped(s, full) == escape_char(s[0], full) + escaped(s.drop_first(), full),
    decreases s.len(),
{
    if s.len() == 1 {
        assert(s.drop_last().len() == 0);
        assert(s.drop_first().len() == 0);
        assert(escaped(s.drop_last(), full) == Seq::<char>::empty());
        assert(escaped(s.drop_first(), full) == Seq::<char>::empty());
        assert(escaped(s, full) == escaped(s.drop_last(), full) + escape_char(s.last(), full));
        assert(escape_char(s[0], full) + Seq::<char>::empty() == escape_char(s[0], full));
        assert(Seq::<char>::empty() + escape_char(s[0], full) == escape_char(s[0], full));
    } else {
        lemma_escaped_front(s.drop_last(), full);
        assert(s.drop_last().drop_first() == s.drop_first().drop_last());
        assert(s.drop_first().last() == s.last());
        let a = escape_char(s[0], full);
        let b = escaped(s.drop_last().drop_first(), full);
        let c = escape_char(s.last(), full);
        assert(escaped(s.drop_first(), full) == b + c);
        assert(escaped(s, full) == (a + b) + c);
        assert((a + b) + c == a + (b + c));
    }
}

/// Text without emphasis delimiters, escaped with either reserved set, holds no
/// unescaped reserved character, and removing the escapes gives the text back.
pub proof fn lemma_escape_round_trip(s: Seq<char>, full: bool)
    requires
        !has_delimiter(s),
    ensures
        fully_escaped(escaped(s, full)),
        unescaped(escaped(s, full)) == s,
    decreases s.len(),
{
    if s.len() > 0 {
        let t = escaped(s, full);
        let rest = escaped(s.drop_first(), full);
        lemma_escaped_front(s, full);
        assert(!is_delimiter(s[0]));
        assert forall|i: int| 0 <= i < s.drop_first().len() implies !is_delimiter(
            #[trigger] s.drop_first()[i],
        ) by {
            assert(s.drop_first()[i] == s[i + 1]);
        }
        lemma_escape_round_trip(s.drop_first(), full);
        if needs_escape(s[0], full) {
            assert(t.subrange(2, t.len() as int) == rest);
        } else {
            assert(t.drop_first() == rest);
        }
        assert(seq![s[0]] + s.drop_first() == s);
    } else {
        assert(escaped(s, full).len() == 0);
    }
}

/// Escaping never shortens the text.
pub proof fn lemma_escaped_len(s: Seq<char>, full: bool)
    ensures
        escaped(s, full).len() >= s.len(),
    decreases s.len(),
{
    if s.len() > 0 {
        lemma_escaped_len(s.drop_last(), full);
    }
}

pub(crate) fn char_needs_escape(c: char, full: bool) -> (r: bool)
    ensures
        r == needs_escape(c, full),
{
    let plain = c == '[' || c == ']' || c == '(' || c == ')' || c == '~' || c == '>' || c == '#'
        || c == '+' || c == '-' || c == '=' || c == '|' || c == '{' || c == '}' || c == '.'
        || c == '!' || c == '\'' || c == '"' || c == '?' || c == '$' || c == '&' || c == ','
        || c == ':' || c == ';' || c == '\\';
    if full {
        plain || c == '*' || c == '_' || c == '`'
    } else {
        plain
    }
}

pub(crate) fn push_escaped_char(out: &mut Vec<char>, c: char, full: bool)
    ensures
        final(out)@ == old(out)@ + escape_char(c, full),
{
    if char_needs_escape(c, full) {
        out.push('\\');
    }
    out.push(c);
}

/// Appends the escaped form of `s[lo..hi]` to `out`.
pub(crate) fn push_escaped(out: &mut Vec<char>, s: &Vec<char>, lo: usize, hi: usize, full: bool)
    requires
        lo <= hi <= s.len(),
    ensures
        final(out)@ == old(out)@ + escaped(s@.subrange(lo as int, hi as int), full),
{
    let mut i: usize = lo;
    while i < hi
        invariant
            lo <= i <= hi <= s.len(),
            out@ == old(out)@ + escaped(s@.subrange(lo as int, i as int), full),
        decreases hi - i,
    {
        let ghost before = out@;
        push_escaped_char(out, s[i], full);
        proof {
            let next = s@.subrange(lo as int, i + 1);
            assert(next.drop_last() == s@.subrange(lo as int, i as int));
            assert(out@ == before + escape_char(next.last(), full));
        }
        i = i + 1;
    }
}

fn escape_with(text: &str, full: bool) -> (r: String)
    ensures
        r@ == escaped(text@, full),
        r@.len() >= text@.len(),
{
    proof {
        lemma_escaped_len(text@, full);
    }
    let s = chars_of(text);
    let mut out: Vec<char> = Vec::new();
    push_escaped(&mut out, &s, 0, s.len(), full);
    assert(s@.subrange(0, s@.len() as int) == s@);
    string_of(&out)
}

/// Escapes every reserved character of the markup, emphasis delimiters included.
pub fn escape_markdown_v2(text: &str) -> (r: String)
    ensures
        r@ == escaped(text@, true),
        r@.len() >= text@.len(),
{
    escape_with(text, true)
}

/// Escapes the reserved characters of the markup, leaving emphasis delimiters as
/// they are.
pub fn escape_non_formatting_chars(text: &str) -> (r: String)
    ensures
        r@ == escaped(text@, false),
        r@.len() >= text@.len(),
{
    escape_with(text, false)
}

} // verus!
