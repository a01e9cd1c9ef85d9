use vstd::prelude::*;
use crate::render::digits;
use crate::text::{chars_of, copy_range, string_of};

verus! {

/// The index of the first space in `s` at or after `i`, or `s.len()` if none.
pub open spec fn space_from(s: Seq<char>, i: int) -> int
    decreases s.len() - i,
{
    if i < 0 || i >= s.len() {
        s.len() as int
    } else if s[i] == ' ' {
        i
    } else {
        space_from(s, i + 1)
    }
}

pub open spec fn is_digit(c: char) -> bool {
    '0' as u32 <= c as u32 <= '9' as u32
}

pub open spec fn all_digits(d: Seq<char>) -> bool {
    forall|k: int| 0 <= k < d.len() ==> is_digit(#[trigger] d[k])
}

/// The number that a string of decimal digits denotes.
pub open spec fn decimal_value(d: Seq<char>) -> nat
    decreases d.len(),
{
    if d.len() == 0 {
        0
    } else {
        (decimal_value(d.drop_last()) * 10 + (d.last() as u32 - '0' as u32)) as nat
    }
}

/// The value of `t` read as an unsigned 64-bit integer, as `str::parse::<u64>`
/// reads it: an optional `+`, then one or more decimal digits, within range.
pub open spec fn parsed_u64(t: Seq<char>) -> Option<u64> {
    let d = if t.len() > 0 && t[0] == '+' {
        t.drop_first()
    } else {
        t
    };
    if d.len() > 0 && all_digits(d) && decimal_value(d) <= u64::MAX {
        Some(decimal_value(d) as u64)
    } else {
        None
    }
}

/// The arguments of a create command: a name up to the first space, an interval
/// up to the second space, and the question after it. The interval is a positive
/// number of minutes.
pub open spec fn create_command(s: Seq<char>) -> Option<(Seq<char>, u64, Seq<char>)> {
    let a = space_from(s, 0);
    let b = space_from(s, a + 1);
    if a >= s.len() || b >= s.len() {
        None
    } else {
        match parsed_u64(s.subrange(a + 1, b)) {
            Some(n) => if n >= 1 {
                Some((s.subrange(0, a), n, s.subrange(b + 1, s.len() as int)))
            } else {
                None
            },
            None => None,
        }
    }
}

proof fn lemma_decimal_prefix(d: Seq<char>, k: int)
    requires
        0 <= k <= d.len(),
        all_digits(d),
    ensures
        decimal_value(d.take(k)) <= decimal_value(d),
    decreases d.len() - k,
{
    if k < d.len() {
        lemma_decimal_prefix(d, k + 1);
        assert(d.take(k + 1).drop_last() == d.take(k));
    } else {
        assert(d.take(k) == d);
    }
}

pub open spec fn has_space(s: Seq<char>) -> bool {
    exists|i: int| 0 <= i < s.len() && #[trigger] s[i] == ' '
}

proof fn lemma_digits_read_back(n: nat)
    ensures
        digits(n).len() > 0,
        all_digits(digits(n)),
        decimal_value(digits(n)) == n,
        !has_space(digits(n)),
        digits(n)[0] != '+',
    decreases n,
{
    if n >= 10 {
        lemma_digits_read_back(n / 10);
        let d = digits(n);
        let c = ((n % 10 + 48) as u8) as char;
        assert(d.drop_last() == digits(n / 10));
        assert(d.last() == c);
        assert(c as u32 - '0' as u32 == n % 10);
        vstd::arithmetic::div_mod::lemma_fundamental_div_mod(n as int, 10);
        assert(decimal_value(d) == decimal_value(digits(n / 10)) * 10 + n % 10);
        assert forall|k: int| 0 <= k < d.len() implies is_digit(#[trigger] d[k]) by {
            if k < d.len() - 1 {
                assert(d[k] == digits(n / 10)[k]);
            }
        }
        assert forall|k: int| 0 <= k < d.len() implies #[trigger] d[k] != ' ' by {
            assert(is_digit(d[k]));
        }
        assert(d[0] == digits(n / 10)[0]);
    } else {
        let d = digits(n);
        assert(d == seq![((n + 48) as u8) as char]);
        assert(d.drop_last().len() == 0);
        assert(decimal_value(d.drop_last()) == 0);
        assert(d.last() as u32 - '0' as u32 == n);
        assert(is_digit(d[0]));
    }
}

proof fn lemma_space_at(s: Seq<char>, i: int, k: int)
    requires
        0 <= i <= k < s.len(),
        s[k] == ' ',
        forall|j: int| i <= j < k ==> s[j] != ' ',
    ensures
        space_from(s, i) == k,
    decreases k - i,
{
    if i < k {
        lemma_space_at(s, i + 1, k);
    }
}

/// A create command written from a name without spaces, a positive interval in
/// decimal and a question reads back as exactly those three.
pub proof fn lemma_create_command_round_trip(name: Seq<char>, interval: u64, question: Seq<char>)
    requires
        !has_space(name),
        interval >= 1,
    ensures
        create_command(name + seq![' '] + digits(interval as nat) + seq![' '] + question) == Some(
            (name, interval, question),
        ),
{
    lemma_digits_read_back(interval as nat);
    let d = digits(interval as nat);
    let s = name + seq![' '] + d + seq![' '] + question;
    let a = name.len() as int;
    let b = a + 1 + d.len();
    assert forall|j: int| 0 <= j < a implies s[j] != ' ' by {
        assert(s[j] == name[j]);
    }
    lemma_space_at(s, 0, a);
    assert forall|j: int| a + 1 <= j < b implies s[j] != ' ' by {
        assert(s[j] == d[j - a - 1]);
    }
    lemma_space_at(s, a + 1, b);
    assert(s.subrange(a + 1, b) == d);
    assert(s.subrange(0, a) == name);
    assert(s.subrange(b + 1, s.len() as int) == question);
}

fn find_space(s: &Vec<char>, i: usize) -> (r: usize)
    requires
        i <= s.len(),
    ensures
        r as int == space_from(s@, i as int),
        i <= r <= s.len(),
{
    let mut j: usize = i;
    while j < s.len() && s[j] != ' '
        invariant
            i <= j <= s.len(),
            space_from(s@, i as int) == space_from(s@, j as int),
        decreases s.len() - j,
    {
        j = j + 1;
    }
    j
}

/// Reads `s[lo..hi]` as an unsigned 64-bit integer.
fn parse_u64_range(s: &Vec<char>, lo: usize, hi: usize) -> (r: Option<u64>)
    requires
        lo <= hi <= s.len(),
    ensures
        r == parsed_u64(s@.subrange(lo as int, hi as int)),
{
    let ghost t = s@.subrange(lo as int, hi as int);
    let mut start = lo;
    if lo < hi && s[lo] == '+' {
        start = lo + 1;
    }
    let ghost d = s@.subrange(start as int, hi as int);
    assert(d == if t.len() > 0 && t[0] == '+' {
        t.drop_first()
    } else {
        t
    });
    if start >= hi {
        assert(d.len() == 0);
        assert(parsed_u64(t) is None);
        return None;
    }
    let mut k: usize = start;
    while k < hi
        invariant
            start <= k <= hi <= s.len(),
            d == s@.subrange(start as int, hi as int),
            t == s@.subrange(lo as int, hi as int),
            d == if t.len() > 0 && t[0] == '+' {
                t.drop_first()
            } else {
                t
            },
            forall|m: int| 0 <= m < k - start ==> is_digit(#[trigger] d[m]),
        decreases hi - k,
    {
        let c = s[k] as u32;
        assert(d[k - start] == s@[k as int]);
        if !('0' as u32 <= c && c <= '9' as u32) {
            assert(!all_digits(d));
            assert(parsed_u64(t) is None);
            return None;
        }
        k = k + 1;
    }
    assert(all_digits(d));
    let mut value: u64 = 0;
    let mut k: usize = start;
    while k < hi
        invariant
            start <= k <= hi <= s.len(),
            d == s@.subrange(start as int, hi as int),
            t == s@.subrange(lo as int, hi as int),
            d == if t.len() > 0 && t[0] == '+' {
                t.drop_first()
            } else {
                t
            },
            all_digits(d),
            value == decimal_value(d.take(k - start)),
        decreases hi - k,
    {
        assert(d[k - start] == s@[k as int]);
        assert(is_digit(d[k - start]));
        let digit = (s[k] as u32 - '0' as u32) as u64;
        assert(d.take(k - start + 1).drop_last() == d.take(k - start));
        if value > (u64::MAX - digit) / 10 {
            proof {
                lemma_decimal_prefix(d, k - start + 1);
                assert(decimal_value(d) > u64::MAX);
                assert(parsed_u64(t) is None);
            }
            return None;
        }
        value = value * 10 + digit;
        k = k + 1;
    }
    assert(d.take(hi - start) == d);
    Some(value)
}

/// Splits the arguments of a create command into name, interval in minutes and
/// question. Gives `None` when there are fewer than three space-separated parts
/// or the interval is not a positive integer.
pub fn parse_create_command(input: String) -> (r: Option<(String, u64, String)>)
    ensures
        create_command(input@) == match r {
            Some(t) => Some((t.0@, t.1, t.2@)),
            None => None,
        },
        r is Some ==> r->Some_0.1 >= 1,
{
    let s = chars_of(input.as_str());
    let a = find_space(&s, 0);
    if a >= s.len() {
        return None;
    }
    let b = find_space(&s, a + 1);
    if b >= s.len() {
        return None;
    }
    match parse_u64_range(&s, a + 1, b) {
        Some(0) => None,
        Some(n) => {
            let name = string_of(&copy_range(&s, 0, a));
            let question = string_of(&copy_range(&s, b + 1, s.len()));
            Some((name, n, question))
        },
        None => None,
    }
}

} // verus!
