use vstd::prelude::*;
use crate::markup::{push_tokenized, tokenized};
use crate::text::{chars_of, copy_range, push_all, string_of};

verus! {

/// Unicode white space, the characters that `str::trim` removes.
pub open spec fn is_whitespace(c: char) -> bool {
    let u = c as u32;
    (0x9 <= u && u <= 0xd) || u == 0x20 || u == 0x85 || u == 0xa0 || u == 0x1680 || (0x2000 <= u
        && u <= 0x200a) || u == 0x2028 || u == 0x2029 || u == 0x202f || u == 0x205f || u == 0x3000
}

/// The characters that may begin a list item.
pub open spec fn is_list_marker(c: char) -> bool {
    c == '-' || c == '*'
}

pub open spec fn strippable(c: char, markers: bool) -> bool {
    if markers {
        is_list_marker(c)
    } else {
        is_whitespace(c)
    }
}

/// `s` without its leading white space (or, with `markers`, its leading list markers).
pub open spec fn strip_start(s: Seq<char>, markers: bool) -> Seq<char>
    decreases s.len(),
{
    if s.len() > 0 && strippable(s[0], markers) {
        strip_start(s.drop_first(), markers)
    } else {
        s
    }
}

/// `s` without its trailing white space.
pub open spec fn trim_end(s: Seq<char>) -> Seq<char>
    decreases s.len(),
{
    if s.len() > 0 && is_whitespace(s.last()) {
        trim_end(s.drop_last())
    } else {
        s
    }
}

pub open spec fn trim(s: Seq<char>) -> Seq<char> {
    trim_end(strip_start(s, false))
}

/// The parts of `s` between non-overlapping occurrences of a blank line
/// separator `"\n\n"`, matched left to right.
pub open spec fn split_paragraphs(s: Seq<char>) -> Seq<Seq<char>>
    decreases s.len(),
{
    if s.len() == 0 {
        seq![Seq::empty()]
    } else {
        let prev = split_paragraphs(s.drop_last());
        let cur = prev.last();
        if s.last() == '\n' && cur.len() > 0 && cur.last() == '\n' {
            prev.update(prev.len() - 1, cur.drop_last()).push(Seq::empty())
        } else {
            prev.update(prev.len() - 1, cur.push(s.last()))
        }
    }
}

/// The parts of `s` between its newline characters.
pub open spec fn split_newlines(s: Seq<char>) -> Seq<Seq<char>>
    decreases s.len(),
{
    if s.len() == 0 {
        seq![Seq::empty()]
    } else {
        let prev = split_newlines(s.drop_last());
        if s.last() == '\n' {
            prev.push(Seq::empty())
        } else {
            prev.update(prev.len() - 1, prev.last().push(s.last()))
        }
    }
}

pub open spec fn strip_cr(l: Seq<char>) -> Seq<char> {
    if l.len() > 0 && l.last() == '\r' {
        l.drop_last()
    } else {
        l
    }
}

/// The lines of `s` as `str::lines` gives them: a line ends at `"\n"` or
/// `"\r\n"`, and the last line ending is optional.
pub open spec fn lines_of(s: Seq<char>) -> Seq<Seq<char>> {
    let parts = split_newlines(s);
    let body = parts.drop_last().map_values(|l: Seq<char>| strip_cr(l));
    if parts.last().len() == 0 {
        body
    } else {
        body.push(parts.last())
    }
}

/// The parts of `parts` with `sep` between each two neighbours.
pub open spec fn join(parts: Seq<Seq<char>>, sep: Seq<char>) -> Seq<char>
    decreases parts.len(),
{
    if parts.len() == 0 {
        Seq::empty()
    } else if parts.len() == 1 {
        parts[0]
    } else {
        join(parts.drop_last(), sep) + sep + parts.last()
    }
}

/// The glyph put in front of each list item.
pub open spec fn bullet() -> Seq<char> {
    seq!['\u{201a}', '\u{c4}', '\u{a2}', ' ']
}

/// A line that, once trimmed, begins with a list marker.
pub open spec fn is_list_line(l: Seq<char>) -> bool {
    let t = trim(l);
    t.len() > 0 && is_list_marker(t[0])
}

/// The text of a list item: the trimmed line without its leading markers.
pub open spec fn list_item_text(l: Seq<char>) -> Seq<char> {
    trim(strip_start(trim(l), true))
}

pub open spec fn render_line(l: Seq<char>) -> Seq<char> {
    if is_list_line(l) {
        bullet() + tokenized(list_item_text(l))
    } else {
        tokenized(l)
    }
}

pub open spec fn has_list_line(ls: Seq<Seq<char>>) -> bool {
    exists|k: int| 0 <= k < ls.len() && is_list_line(#[trigger] ls[k])
}

/// A paragraph with a list line renders line by line; any other renders whole.
pub open spec fn reflow_paragraph(p: Seq<char>) -> Seq<char> {
    let ls = lines_of(p);
    if has_list_line(ls) {
        join(ls.map_values(|l: Seq<char>| render_line(l)), seq!['\n'])
    } else {
        tokenized(p)
    }
}

/// The markup for a multi-paragraph answer.
pub open spec fn reflowed(s: Seq<char>) -> Seq<char> {
    join(split_paragraphs(s).map_values(|p: Seq<char>| reflow_paragraph(p)), seq!['\n', '\n'])
}

pub open spec fn views(vs: Seq<Vec<char>>) -> Seq<Seq<char>> {
    vs.map_values(|v: Vec<char>| v@)
}

fn is_whitespace_char(c: char) -> (r: bool)
    ensures
        r == is_whitespace(c),
{
    let u = c as u32;
    (0x9 <= u && u <= 0xd) || u == 0x20 || u == 0x85 || u == 0xa0 || u == 0x1680 || (0x2000 <= u
        && u <= 0x200a) || u == 0x2028 || u == 0x2029 || u == 0x202f || u == 0x205f || u == 0x3000
}

fn is_strippable(c: char, markers: bool) -> (r: bool)
    ensures
        r == strippable(c, markers),
{
    if markers {
        c == '-' || c == '*'
    } else {
        is_whitespace_char(c)
    }
}

/// The start of `strip_start(s[lo..hi])` within `s`.
fn skip_start(s: &Vec<char>, lo: usize, hi: usize, markers: bool) -> (a: usize)
    requires
        lo <= hi <= s.len(),
    ensures
        lo <= a <= hi,
        s@.subrange(a as int, hi as int) == strip_start(s@.subrange(lo as int, hi as int), markers),
{
    let mut a: usize = lo;
    while a < hi && is_strippable(s[a], markers)
        invariant
            lo <= a <= hi <= s.len(),
            strip_start(s@.subrange(lo as int, hi as int), markers) == strip_start(
                s@.subrange(a as int, hi as int),
                markers,
            ),
        decreases hi - a,
    {
        assert(s@.subrange(a as int, hi as int).drop_first() == s@.subrange(a + 1, hi as int));
        a = a + 1;
    }
    a
}

/// The end of `trim_end(s[lo..hi])` within `s`.
fn skip_end(s: &Vec<char>, lo: usize, hi: usize) -> (b: usize)
    requires
        lo <= hi <= s.len(),
    ensures
        lo <= b <= hi,
        s@.subrange(lo as int, b as int) == trim_end(s@.subrange(lo as int, hi as int)),
{
    let mut b: usize = hi;
    while b > lo && is_whitespace_char(s[b - 1])
        invariant
            lo <= b <= hi <= s.len(),
            trim_end(s@.subrange(lo as int, hi as int)) == trim_end(
                s@.subrange(lo as int, b as int),
            ),
        decreases b - lo,
    {
        assert(s@.subrange(lo as int, b as int).drop_last() == s@.subrange(lo as int, b - 1));
        b = b - 1;
    }
    b
}

/// The bounds of `trim(s[lo..hi])` within `s`.
fn trim_range(s: &Vec<char>, lo: usize, hi: usize) -> (r: (usize, usize))
    requires
        lo <= hi <= s.len(),
    ensures
        lo <= r.0 <= r.1 <= hi,
        s@.subrange(r.0 as int, r.1 as int) == trim(s@.subrange(lo as int, hi as int)),
{
    let a = skip_start(s, lo, hi, false);
    let b = skip_end(s, a, hi);
    (a, b)
}

fn split_paragraphs_of(s: &Vec<char>) -> (r: Vec<Vec<char>>)
    ensures
        views(r@) == split_paragraphs(s@),
{
    let mut done: Vec<Vec<char>> = Vec::new();
    let mut cur: Vec<char> = Vec::new();
    let mut i: usize = 0;
    while i < s.len()
        invariant
            i <= s.len(),
            views(done@).push(cur@) == split_paragraphs(s@.take(i as int)),
        decreases s.len() - i,
    {
        let c = s[i];
        let ghost prev = views(done@).push(cur@);
        assert(s@.take(i + 1).drop_last() == s@.take(i as int));
        if c == '\n' && cur.len() > 0 && cur[cur.len() - 1] == '\n' {
            cur.pop();
            done.push(cur);
            cur = Vec::new();
            assert(views(done@).push(cur@) == prev.update(prev.len() - 1, prev.last().drop_last()).push(
                Seq::empty(),
            ));
        } else {
            cur.push(c);
            assert(views(done@).push(cur@) == prev.update(prev.len() - 1, prev.last().push(c)));
        }
        i = i + 1;
    }
    done.push(cur);
    assert(s@.take(i as int) == s@);
    done
}

fn split_newlines_of(s: &Vec<char>) -> (r: Vec<Vec<char>>)
    ensures
        views(r@) == split_newlines(s@),
{
    let mut done: Vec<Vec<char>> = Vec::new();
    let mut cur: Vec<char> = Vec::new();
    let mut i: usize = 0;
    while i < s.len()
        invariant
            i <= s.len(),
            views(done@).push(cur@) == split_newlines(s@.take(i as int)),
        decreases s.len() - i,
    {
        let c = s[i];
        let ghost prev = views(done@).push(cur@);
        assert(s@.take(i + 1).drop_last() == s@.take(i as int));
        if c == '\n' {
            done.push(cur);
            cur = Vec::new();
            assert(views(done@).push(cur@) == prev.push(Seq::empty()));
        } else {
            cur.push(c);
            assert(views(done@).push(cur@) == prev.update(prev.len() - 1, prev.last().push(c)));
        }
        i = i + 1;
    }
    done.push(cur);
    assert(s@.take(i as int) == s@);
    done
}

fn without_cr(l: Vec<char>) -> (r: Vec<char>)
    ensures
        r@ == strip_cr(l@),
{
    let mut l = l;
    if l.len() > 0 && l[l.len() - 1] == '\r' {
        l.pop();
    }
    l
}

proof fn lemma_split_newlines_nonempty(s: Seq<char>)
    ensures
        split_newlines(s).len() >= 1,
    decreases s.len(),
{
    if s.len() > 0 {
        lemma_split_newlines_nonempty(s.drop_last());
    }
}

fn copy_of(v: &Vec<char>) -> (r: Vec<char>)
    ensures
        r@ == v@,
{
    let mut r: Vec<char> = Vec::new();
    push_all(&mut r, v);
    r
}

fn lines_in(s: &Vec<char>) -> (r: Vec<Vec<char>>)
    ensures
        views(r@) == lines_of(s@),
{
    let parts = split_newlines_of(s);
    proof {
        lemma_split_newlines_nonempty(s@);
    }
    let ghost all = views(parts@);
    let ghost body = all.drop_last().map_values(|l: Seq<char>| strip_cr(l));
    let n = parts.len() - 1;
    let mut out: Vec<Vec<char>> = Vec::new();
    let mut k: usize = 0;
    while k < n
        invariant
            n + 1 == parts.len(),
            all == views(parts@),
            k <= n,
            body == all.drop_last().map_values(|l: Seq<char>| strip_cr(l)),
            views(out@) == body.take(k as int),
        decreases n - k,
    {
        let l = without_cr(copy_of(&parts[k]));
        let ghost before = views(out@);
        assert(body[k as int] == strip_cr(all[k as int]));
        out.push(l);
        assert(views(out@) == before.push(l@));
        assert(body.take(k + 1) == body.take(k as int).push(body[k as int]));
        k = k + 1;
    }
    assert(body.take(n as int) == body);
    let last = copy_of(&parts[n]);
    if last.len() > 0 {
        out.push(last);
    }
    out
}

proof fn lemma_join_step(parts: Seq<Seq<char>>, sep: Seq<char>, k: int)
    requires
        0 <= k < parts.len(),
    ensures
        join(parts.take(k + 1), sep) == if k == 0 {
            parts[0]
        } else {
            join(parts.take(k), sep) + sep + parts[k]
        },
{
    assert(parts.take(k + 1).drop_last() == parts.take(k));
}

fn is_list_line_of(l: &Vec<char>) -> (r: bool)
    ensures
        r == is_list_line(l@),
{
    let (a, b) = trim_range(l, 0, l.len());
    assert(l@.subrange(0, l@.len() as int) == l@);
    a < b && (l[a] == '-' || l[a] == '*')
}

fn push_bullet(out: &mut Vec<char>)
    ensures
        final(out)@ == old(out)@ + bullet(),
{
    out.push('\u{201a}');
    out.push('\u{c4}');
    out.push('\u{a2}');
    out.push(' ');
}

fn push_rendered_line(out: &mut Vec<char>, l: &Vec<char>)
    ensures
        final(out)@ == old(out)@ + render_line(l@),
{
    if is_list_line_of(l) {
        let (a, b) = trim_range(l, 0, l.len());
        assert(l@.subrange(0, l@.len() as int) == l@);
        let c = skip_start(l, a, b, true);
        let (d, e) = trim_range(l, c, b);
        let item = copy_range(l, d, e);
        let ghost before = out@;
        push_bullet(out);
        push_tokenized(out, &item);
        assert(out@ == before + (bullet() + tokenized(list_item_text(l@))));
    } else {
        push_tokenized(out, l);
    }
}

fn push_reflowed_paragraph(out: &mut Vec<char>, p: &Vec<char>)
    ensures
        final(out)@ == old(out)@ + reflow_paragraph(p@),
{
    let ls = lines_in(p);
    let ghost lv = views(ls@);
    let mut found = false;
    let mut k: usize = 0;
    while k < ls.len()
        invariant
            k <= ls.len(),
            lv == views(ls@),
            found == exists|j: int| 0 <= j < k && is_list_line(#[trigger] lv[j]),
        decreases ls.len() - k,
    {
        if is_list_line_of(&ls[k]) {
            found = true;
        }
        assert(lv[k as int] == ls@[k as int]@);
        k = k + 1;
    }
    if found {
        let ghost rendered = lv.map_values(|l: Seq<char>| render_line(l));
        let ghost start = out@;
        let mut k: usize = 0;
        while k < ls.len()
            invariant
                k <= ls.len(),
                lv == views(ls@),
                rendered == lv.map_values(|l: Seq<char>| render_line(l)),
                out@ == start + join(rendered.take(k as int), seq!['\n']),
            decreases ls.len() - k,
        {
            proof {
                lemma_join_step(rendered, seq!['\n'], k as int);
            }
            if k > 0 {
                out.push('\n');
            }
            assert(rendered[k as int] == render_line(ls@[k as int]@));
            push_rendered_line(out, &ls[k]);
            k = k + 1;
        }
        assert(rendered.take(ls.len() as int) == rendered);
    } else {
        push_tokenized(out, p);
    }
}

/// Converts an answer into markup paragraph by paragraph: a paragraph with list
/// lines becomes one bulleted line per item, any other is converted whole.
pub fn format_response_content(content: &str) -> (r: String)
    ensures
        r@ == reflowed(content@),
{
    let s = chars_of(content);
    let ps = split_paragraphs_of(&s);
    let ghost rendered = views(ps@).map_values(|p: Seq<char>| reflow_paragraph(p));
    let mut out: Vec<char> = Vec::new();
    let mut k: usize = 0;
    while k < ps.len()
        invariant
            k <= ps.len(),
            views(ps@) == split_paragraphs(s@),
            rendered == views(ps@).map_values(|p: Seq<char>| reflow_paragraph(p)),
            out@ == join(rendered.take(k as int), seq!['\n', '\n']),
        decreases ps.len() - k,
    {
        proof {
            lemma_join_step(rendered, seq!['\n', '\n'], k as int);
        }
        if k > 0 {
            out.push('\n');
            out.push('\n');
        }
        assert(rendered[k as int] == reflow_paragraph(ps@[k as int]@));
        push_reflowed_paragraph(&mut out, &ps[k]);
        k = k + 1;
    }
    assert(rendered.take(ps.len() as int) == rendered);
    string_of(&out)
}

pub open spec fn no_newline(l: Seq<char>) -> bool {
    forall|i: int| 0 <= i < l.len() ==> #[trigger] l[i] != '\n'
}

/// No two newlines in a row: the text is one paragraph.
pub open spec fn no_blank_line(s: Seq<char>) -> bool {
    forall|i: int| 0 <= i && i + 1 < s.len() ==> !(#[trigger] s[i] == '\n' && s[i + 1] == '\n')
}

/// A line as `lines` gives it that, once trimmed, begins with a list marker.
pub open spec fn is_marked_line(l: Seq<char>) -> bool {
    &&& l.len() > 0
    &&& is_list_line(l)
    &&& no_newline(l)
    &&& l.last() != '\r'
}

proof fn lemma_split_newlines_plain(l: Seq<char>)
    requires
        no_newline(l),
    ensures
        split_newlines(l) == seq![l],
    decreases l.len(),
{
    if l.len() > 0 {
        assert(l.last() == l[l.len() - 1]);
        lemma_split_newlines_plain(l.drop_last());
        assert(l.drop_last().push(l.last()) == l);
    } else {
        assert(l == Seq::<char>::empty());
    }
}

proof fn lemma_split_newlines_append(a: Seq<char>, b: Seq<char>)
    requires
        no_newline(b),
    ensures
        split_newlines(a + seq!['\n'] + b) == split_newlines(a).push(b),
    decreases b.len(),
{
    let s = a + seq!['\n'] + b;
    if b.len() == 0 {
        assert(s.drop_last() == a);
        assert(b == Seq::<char>::empty());
    } else {
        assert(b.last() == b[b.len() - 1]);
        lemma_split_newlines_append(a, b.drop_last());
        assert(s.drop_last() == a + seq!['\n'] + b.drop_last());
        assert(s.last() == b.last());
        assert(b.drop_last().push(b.last()) == b);
        let prev = split_newlines(a).push(b.drop_last());
        assert(prev.update(prev.len() - 1, prev.last().push(b.last())) == split_newlines(a).push(b));
    }
}

proof fn lemma_split_newlines_join(ls: Seq<Seq<char>>)
    requires
        ls.len() > 0,
        forall|k: int| 0 <= k < ls.len() ==> no_newline(#[trigger] ls[k]),
    ensures
        split_newlines(join(ls, seq!['\n'])) == ls,
    decreases ls.len(),
{
    if ls.len() == 1 {
        lemma_split_newlines_plain(ls[0]);
        assert(seq![ls[0]] == ls);
    } else {
        let init = ls.drop_last();
        assert forall|k: int| 0 <= k < init.len() implies no_newline(#[trigger] init[k]) by {
            assert(init[k] == ls[k]);
        }
        lemma_split_newlines_join(init);
        assert(no_newline(ls[ls.len() - 1]));
        lemma_split_newlines_append(join(init, seq!['\n']), ls.last());
        assert(init.push(ls.last()) == ls);
    }
}

proof fn lemma_join_one_paragraph(ls: Seq<Seq<char>>)
    requires
        ls.len() > 0,
        forall|k: int| 0 <= k < ls.len() ==> is_marked_line(#[trigger] ls[k]),
    ensures
        no_blank_line(join(ls, seq!['\n'])),
        join(ls, seq!['\n']).len() > 0,
        join(ls, seq!['\n']).last() == ls.last().last(),
        join(ls, seq!['\n'])[0] == ls[0][0],
    decreases ls.len(),
{
    assert(is_marked_line(ls[ls.len() - 1]));
    if ls.len() == 1 {
        let l = ls[0];
        assert(no_newline(l));
        assert forall|i: int| 0 <= i && i + 1 < l.len() implies !(#[trigger] l[i] == '\n' && l[i
            + 1] == '\n') by {
            assert(l[i] != '\n');
        }
    } else {
        let init = ls.drop_last();
        assert forall|k: int| 0 <= k < init.len() implies is_marked_line(#[trigger] init[k]) by {
            assert(init[k] == ls[k]);
        }
        lemma_join_one_paragraph(init);
        assert(init[0] == ls[0]);
        assert(is_marked_line(init[init.len() - 1]));
        let a = join(init, seq!['\n']);
        let b = ls.last();
        let s = a + seq!['\n'] + b;
        assert(a.last() != '\n');
        assert(no_newline(b));
        assert(b[0] != '\n');
        assert forall|i: int| 0 <= i && i + 1 < s.len() implies !(#[trigger] s[i] == '\n' && s[i
            + 1] == '\n') by {
            if i + 1 < a.len() {
                assert(s[i] == a[i] && s[i + 1] == a[i + 1]);
            } else if i + 1 == a.len() {
                assert(s[i] == a.last());
            } else if i == a.len() {
                assert(s[i + 1] == b[0]);
            } else {
                assert(s[i] == b[i - a.len() - 1]);
            }
        }
    }
}

proof fn lemma_split_paragraphs_single(s: Seq<char>)
    requires
        no_blank_line(s),
    ensures
        split_paragraphs(s) == seq![s],
    decreases s.len(),
{
    if s.len() > 0 {
        let init = s.drop_last();
        assert forall|i: int| 0 <= i && i + 1 < init.len() implies !(#[trigger] init[i] == '\n'
            && init[i + 1] == '\n') by {
            assert(init[i] == s[i] && init[i + 1] == s[i + 1]);
        }
        lemma_split_paragraphs_single(init);
        if init.len() > 0 {
            assert(init.last() == s[s.len() - 2]);
            assert(!(s[s.len() - 2] == '\n' && s[s.len() - 1] == '\n'));
        }
        assert(init.push(s.last()) == s);
    } else {
        assert(s == Seq::<char>::empty());
    }
}

/// The bulleted lines for the lines of a list.
pub open spec fn bullet_lines(ls: Seq<Seq<char>>) -> Seq<Seq<char>> {
    ls.map_values(|l: Seq<char>| bullet() + tokenized(list_item_text(l)))
}

proof fn lemma_list_paragraph(ls: Seq<Seq<char>>)
    requires
        ls.len() > 0,
        forall|k: int| 0 <= k < ls.len() ==> is_marked_line(#[trigger] ls[k]),
    ensures
        reflow_paragraph(join(ls, seq!['\n'])) == join(bullet_lines(ls), seq!['\n']),
{
    let s = join(ls, seq!['\n']);
    assert forall|k: int| 0 <= k < ls.len() implies no_newline(#[trigger] ls[k]) by {
        assert(is_marked_line(ls[k]));
    }
    lemma_split_newlines_join(ls);
    let parts = split_newlines(s);
    assert(parts.last() == ls.last());
    assert(is_marked_line(ls[ls.len() - 1]));
    assert(parts.drop_last().map_values(|l: Seq<char>| strip_cr(l)) == ls.drop_last()) by {
        assert forall|k: int| 0 <= k < ls.len() - 1 implies strip_cr(
            #[trigger] ls.drop_last()[k],
        ) == ls.drop_last()[k] by {
            assert(is_marked_line(ls[k]));
        }
    }
    assert(ls.drop_last().push(ls.last()) == ls);
    assert(lines_of(s) == ls);
    assert(is_marked_line(ls[0]));
    assert(has_list_line(ls));
    assert(ls.map_values(|l: Seq<char>| render_line(l)) == bullet_lines(ls)) by {
        assert forall|k: int| 0 <= k < ls.len() implies render_line(#[trigger] ls[k]) == bullet()
            + tokenized(list_item_text(ls[k])) by {
            assert(is_marked_line(ls[k]));
        }
    }
}

proof fn lemma_split_paragraphs_nonempty(s: Seq<char>)
    ensures
        split_paragraphs(s).len() >= 1,
    decreases s.len(),
{
    if s.len() > 0 {
        lemma_split_paragraphs_nonempty(s.drop_last());
    }
}

proof fn lemma_split_paragraphs_append(a: Seq<char>, b: Seq<char>)
    requires
        a.len() > 0,
        a.last() != '\n',
        no_blank_line(b),
        b.len() > 0 ==> b[0] != '\n',
    ensures
        split_paragraphs(a + seq!['\n', '\n'] + b) == split_paragraphs(a).push(b),
    decreases b.len(),
{
    let s = a + seq!['\n', '\n'] + b;
    if b.len() == 0 {
        lemma_split_paragraphs_nonempty(a);
        lemma_split_paragraphs_nonempty(a.drop_last());
        let pa = split_paragraphs(a);
        let s1 = a + seq!['\n'];
        assert(s1.drop_last() == a);
        assert(pa.last().len() > 0 ==> pa.last().last() == a.last());
        let p1 = pa.update(pa.len() - 1, pa.last().push('\n'));
        assert(split_paragraphs(s1) == p1);
        assert(s.drop_last() == s1);
        assert(p1.last() == pa.last().push('\n'));
        assert(pa.last().push('\n').drop_last() == pa.last());
        assert(p1.update(p1.len() - 1, pa.last()) == pa);
        assert(b == Seq::<char>::empty());
        assert(s == a + seq!['\n', '\n']);
    } else {
        let init = b.drop_last();
        assert forall|i: int| 0 <= i && i + 1 < init.len() implies !(#[trigger] init[i] == '\n'
            && init[i + 1] == '\n') by {
            assert(init[i] == b[i] && init[i + 1] == b[i + 1]);
        }
        if init.len() > 0 {
            assert(init[0] == b[0]);
        }
        lemma_split_paragraphs_append(a, init);
        assert(s.drop_last() == a + seq!['\n', '\n'] + init);
        assert(s.last() == b[b.len() - 1]);
        if init.len() > 0 {
            assert(init.last() == b[b.len() - 2]);
            assert(!(b[b.len() - 2] == '\n' && b[b.len() - 1] == '\n'));
        }
        assert(init.push(b.last()) == b);
        let prev = split_paragraphs(a).push(init);
        assert(prev.update(prev.len() - 1, init.push(b.last())) == split_paragraphs(a).push(b));
    }
}

/// Paragraph texts that each hold no blank line and neither begin nor end with a
/// newline.
pub open spec fn separable(t: Seq<char>) -> bool {
    &&& t.len() > 0
    &&& no_blank_line(t)
    &&& t[0] != '\n'
    &&& t.last() != '\n'
}

proof fn lemma_split_paragraphs_join(ts: Seq<Seq<char>>)
    requires
        ts.len() > 0,
        forall|k: int| 0 <= k < ts.len() ==> separable(#[trigger] ts[k]),
    ensures
        split_paragraphs(join(ts, seq!['\n', '\n'])) == ts,
        join(ts, seq!['\n', '\n']).len() > 0,
        join(ts, seq!['\n', '\n']).last() == ts.last().last(),
    decreases ts.len(),
{
    assert(separable(ts[ts.len() - 1]));
    if ts.len() == 1 {
        lemma_split_paragraphs_single(ts[0]);
        assert(seq![ts[0]] == ts);
    } else {
        let init = ts.drop_last();
        assert forall|k: int| 0 <= k < init.len() implies separable(#[trigger] init[k]) by {
            assert(init[k] == ts[k]);
        }
        lemma_split_paragraphs_join(init);
        assert(separable(init[init.len() - 1]));
        lemma_split_paragraphs_append(join(init, seq!['\n', '\n']), ts.last());
        assert(init.push(ts.last()) == ts);
    }
}

/// The text of a list: paragraphs separated by blank lines, each made of lines.
pub open spec fn list_text(ps: Seq<Seq<Seq<char>>>) -> Seq<char> {
    join(ps.map_values(|ls: Seq<Seq<char>>| join(ls, seq!['\n'])), seq!['\n', '\n'])
}

/// List input whose lines all begin with a list marker, after any white space,
/// in paragraphs separated by blank lines, renders as one bulleted line per input line, in the same
/// order and with the same blank lines, each holding its line's text with the
/// markers stripped.
pub proof fn lemma_list_input(ps: Seq<Seq<Seq<char>>>)
    requires
        ps.len() > 0,
        forall|k: int| 0 <= k < ps.len() ==> #[trigger] ps[k].len() > 0,
        forall|k: int, j: int| 0 <= k < ps.len() && 0 <= j < ps[k].len() ==> is_marked_line(
            #[trigger] ps[k][j],
        ),
    ensures
        reflowed(list_text(ps)) == join(
            ps.map_values(|ls: Seq<Seq<char>>| join(bullet_lines(ls), seq!['\n'])),
            seq!['\n', '\n'],
        ),
{
    let ts = ps.map_values(|ls: Seq<Seq<char>>| join(ls, seq!['\n']));
    assert forall|k: int| 0 <= k < ts.len() implies separable(#[trigger] ts[k]) by {
        let ls = ps[k];
        assert forall|j: int| 0 <= j < ls.len() implies is_marked_line(#[trigger] ls[j]) by {
            assert(is_marked_line(ps[k][j]));
        }
        lemma_join_one_paragraph(ls);
        assert(is_marked_line(ls[0]));
        assert(no_newline(ls[0]));
        assert(ls[0][0] != '\n');
        assert(is_marked_line(ls[ls.len() - 1]));
        assert(ls.last()[ls.last().len() - 1] != '\n');
    }
    lemma_split_paragraphs_join(ts);
    assert(ts.map_values(|p: Seq<char>| reflow_paragraph(p)) == ps.map_values(
        |ls: Seq<Seq<char>>| join(bullet_lines(ls), seq!['\n']),
    )) by {
        assert forall|k: int| 0 <= k < ts.len() implies reflow_paragraph(#[trigger] ts[k]) == join(
            bullet_lines(ps[k]),
            seq!['\n'],
        ) by {
            let ls = ps[k];
            assert forall|j: int| 0 <= j < ls.len() implies is_marked_line(#[trigger] ls[j]) by {
                assert(is_marked_line(ps[k][j]));
            }
            lemma_list_paragraph(ls);
        }
    }
}

} // verus!
