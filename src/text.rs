//! Character-level helpers for reading tag values: decoding, integer and
//! decimal parsing, and splitting on a separator.

use vstd::prelude::*;
use vstd::std_specs::iter::IteratorSpec;

verus! {

/// The chars of `s`, in order.
pub fn chars_of(s: &str) -> (r: Vec<char>)
    ensures
        r@ == s@,
{
    let mut out: Vec<char> = Vec::new();
    let mut it = s.chars();
    let ghost n = s@.len();
    proof {
        broadcast use vstd::string::axiom_spec_iter;
    }
    loop
        invariant
            it.remaining() == s@.skip(out@.len() as int),
            out@ == s@.take(out@.len() as int),
            out@.len() <= n,
            n == s@.len(),
            it.obeys_prophetic_iter_laws(),
        ensures
            out@ == s@,
        decreases n - out@.len(),
    {
        let ghost before = it;
        match it.next() {
            Some(c) => {
                proof {
                    broadcast use vstd::string::next_postcondition;

                    assert(before.remaining().len() > 0);
                }
                out.push(c);
                proof {
                    assert(out@ =~= s@.take(out@.len() as int));
                    assert(it.remaining() =~= s@.skip(out@.len() as int));
                }
            },
            None => {
                proof {
                    broadcast use vstd::string::next_postcondition;

                    assert(before.remaining().len() == 0);
                    assert(out@ =~= s@);
                }
                break ;
            },
        }
    }
    out
}

pub open spec fn is_digit(c: char) -> bool {
    '0' <= c && c <= '9'
}

pub open spec fn digit_value(c: char) -> nat {
    (c as u32 - '0' as u32) as nat
}

pub open spec fn all_digits(s: Seq<char>) -> bool {
    forall|i: int| 0 <= i < s.len() ==> is_digit(#[trigger] s[i])
}

/// The number that a string of decimal digits spells.
pub open spec fn digits_value(s: Seq<char>) -> nat
    decreases s.len(),
{
    if s.len() == 0 {
        0
    } else {
        digits_value(s.drop_last()) * 10 + digit_value(s.last())
    }
}

/// The digits of an unsigned integer literal: the text after an optional
/// leading `+`.
pub open spec fn count_digits(s: Seq<char>) -> Seq<char> {
    if s.len() > 0 && s[0] == '+' {
        s.drop_first()
    } else {
        s
    }
}

/// What reading `s` as a `usize` gives: an optional `+` and at least one
/// decimal digit, with a value that fits in a `usize`.
pub open spec fn parse_count(s: Seq<char>) -> Option<nat> {
    let d = count_digits(s);
    if d.len() > 0 && all_digits(d) && digits_value(d) <= usize::MAX {
        Some(digits_value(d))
    } else {
        None
    }
}

proof fn lemma_digits_step(s: Seq<char>, i: int)
    requires
        0 <= i < s.len(),
    ensures
        digits_value(s.take(i + 1)) == digits_value(s.take(i)) * 10 + digit_value(s[i]),
{
    assert(s.take(i + 1).drop_last() =~= s.take(i));
}

proof fn lemma_prefix_bound(s: Seq<char>, i: int)
    requires
        0 <= i <= s.len(),
        all_digits(s),
    ensures
        digits_value(s.take(i)) <= digits_value(s),
    decreases s.len(),
{
    if i < s.len() {
        assert(s.drop_last().take(i) =~= s.take(i));
        lemma_prefix_bound(s.drop_last(), i);
    } else {
        assert(s.take(i) =~= s);
    }
}

/// Reads `cs[lo..hi]` as decimal digits, if they are all digits and their
/// value fits in a `u64`.
fn parse_digits(cs: &Vec<char>, lo: usize, hi: usize) -> (r: Option<u64>)
    requires
        lo <= hi <= cs@.len(),
    ensures
        ({
            let d = cs@.subrange(lo as int, hi as int);
            &&& r matches Some(n) ==> all_digits(d) && n as nat == digits_value(d)
            &&& r is None ==> !all_digits(d) || digits_value(d) > u64::MAX
        }),
{
    let ghost d = cs@.subrange(lo as int, hi as int);
    let mut value: u64 = 0;
    let mut i: usize = lo;
    while i < hi
        invariant
            lo <= i <= hi <= cs@.len(),
            d == cs@.subrange(lo as int, hi as int),
            all_digits(d.take(i - lo)),
            value as nat == digits_value(d.take(i - lo)),
        decreases hi - i,
    {
        let c = cs[i];
        assert(d[i - lo] == c);
        if !('0' <= c && c <= '9') {
            assert(!is_digit(d[i - lo]));
            return None;
        }
        proof {
            lemma_digits_step(d, i - lo);
            assert(d.take(i - lo + 1) =~= d.take(i - lo).push(c));
        }
        let dv: u64 = (c as u32 - '0' as u32) as u64;
        assert(dv as nat == digit_value(d[i - lo]));
        if value > (u64::MAX - dv) / 10 {
            proof {
                assert(value * 10 + dv > u64::MAX) by (nonlinear_arith)
                    requires
                        value > (u64::MAX - dv) / 10,
                        dv <= 9,
                ;
                if all_digits(d) {
                    lemma_prefix_bound(d, i - lo + 1);
                }
            }
            return None;
        }
        value = value * 10 + dv;
        i += 1;
    }
    assert(d.take(i - lo) =~= d);
    Some(value)
}

/// Reads `s` as an unsigned count, as `str::parse::<usize>` does.
pub fn parse_usize(s: &str) -> (r: Option<usize>)
    ensures
        r matches Some(n) ==> parse_count(s@) == Some(n as nat),
        r is None ==> parse_count(s@) is None,
{
    let cs = chars_of(s);
    let start: usize = if cs.len() > 0 && cs[0] == '+' { 1 } else { 0 };
    assert(count_digits(s@) =~= cs@.subrange(start as int, cs@.len() as int));
    if start >= cs.len() {
        return None;
    }
    match parse_digits(&cs, start, cs.len()) {
        Some(n) => {
            if n > usize::MAX as u64 {
                None
            } else {
                Some(n as usize)
            }
        },
        None => None,
    }
}

/// Where the integer part of a decimal literal ends: at its first `.`, or at
/// its end.
pub open spec fn point_index(d: Seq<char>) -> int
    decreases d.len(),
{
    if d.len() == 0 || d[0] == '.' {
        0
    } else {
        1 + point_index(d.drop_first())
    }
}

/// The digits of a decimal literal before the point.
pub open spec fn whole_part(d: Seq<char>) -> Seq<char> {
    d.take(point_index(d))
}

/// The digits of a decimal literal after the point; empty when there is none.
pub open spec fn fraction_part(d: Seq<char>) -> Seq<char> {
    if point_index(d) < d.len() {
        d.skip(point_index(d) + 1)
    } else {
        Seq::empty()
    }
}

/// Thousandths that the first three digits of a fraction give; further
/// digits are dropped.
pub open spec fn thousandths(f: Seq<char>) -> nat {
    (if f.len() > 0 { digit_value(f[0]) * 100 } else { 0 }) + (if f.len() > 1 {
        digit_value(f[1]) * 10
    } else {
        0
    }) + (if f.len() > 2 { digit_value(f[2]) } else { 0 })
}

/// What reading `s` as a decimal number of meters gives, in millimeters: an
/// optional `+`, digits, and optionally a `.` and more digits, with at least
/// one digit in all. Digits past the third after the point are dropped.
pub open spec fn parse_millis(s: Seq<char>) -> Option<nat> {
    let d = count_digits(s);
    let w = whole_part(d);
    let f = fraction_part(d);
    if all_digits(w) && all_digits(f) && w.len() + f.len() > 0 && digits_value(w) * 1000
        + thousandths(f) <= u64::MAX {
        Some(digits_value(w) * 1000 + thousandths(f))
    } else {
        None
    }
}

proof fn lemma_point_index(d: Seq<char>, i: int)
    requires
        0 <= i <= d.len(),
        forall|j: int| 0 <= j < i ==> d[j] != '.',
        i == d.len() || d[i] == '.',
    ensures
        point_index(d) == i,
    decreases d.len(),
{
    if d.len() > 0 && i > 0 {
        assert(d[0] != '.');
        assert forall|j: int| 0 <= j < i - 1 implies d.drop_first()[j] != '.' by {
            assert(d.drop_first()[j] == d[j + 1]);
        }
        lemma_point_index(d.drop_first(), i - 1);
    }
}

/// Whether `cs[lo..hi]` holds decimal digits only.
fn all_digit_chars(cs: &Vec<char>, lo: usize, hi: usize) -> (r: bool)
    requires
        lo <= hi <= cs@.len(),
    ensures
        r == all_digits(cs@.subrange(lo as int, hi as int)),
{
    let mut i: usize = lo;
    while i < hi
        invariant
            lo <= i <= hi <= cs@.len(),
            forall|j: int| lo <= j < i ==> is_digit(#[trigger] cs@[j]),
        decreases hi - i,
    {
        if !('0' <= cs[i] && cs[i] <= '9') {
            assert(cs@.subrange(lo as int, hi as int)[i - lo] == cs@[i as int]);
            return false;
        }
        i += 1;
    }
    assert forall|j: int| 0 <= j < hi - lo implies is_digit(
        #[trigger] cs@.subrange(lo as int, hi as int)[j],
    ) by {
        assert(cs@.subrange(lo as int, hi as int)[j] == cs@[lo + j]);
    }
    true
}

fn digit_of(c: char) -> (r: u64)
    requires
        is_digit(c),
    ensures
        r as nat == digit_value(c),
        r <= 9,
{
    (c as u32 - '0' as u32) as u64
}

/// Reads `s` as a decimal number of meters and gives it in millimeters.
pub fn parse_millimeters(s: &str) -> (r: Option<u64>)
    ensures
        r matches Some(n) ==> parse_millis(s@) == Some(n as nat),
        r is None ==> parse_millis(s@) is None,
{
    let cs = chars_of(s);
    let len = cs.len();
    let start: usize = if len > 0 && cs[0] == '+' { 1 } else { 0 };
    let ghost d = count_digits(s@);
    assert(d =~= cs@.subrange(start as int, len as int));
    let mut p: usize = start;
    while p < len && cs[p] != '.'
        invariant
            start <= p <= len == cs@.len(),
            forall|j: int| start <= j < p ==> cs@[j] != '.',
        decreases len - p,
    {
        p += 1;
    }
    proof {
        assert forall|j: int| 0 <= j < p - start implies d[j] != '.' by {
            assert(d[j] == cs@[start + j]);
        }
        if p < len {
            assert(d[p - start] == cs@[p as int]);
        }
        lemma_point_index(d, p - start);
        assert(whole_part(d) =~= cs@.subrange(start as int, p as int));
    }
    let lo: usize = if p < len { p + 1 } else { len };
    assert(fraction_part(d) =~= cs@.subrange(lo as int, len as int));
    if p - start + (len - lo) == 0 {
        return None;
    }
    if !all_digit_chars(&cs, lo, len) {
        return None;
    }
    let ghost f = fraction_part(d);
    let mut th: u64 = 0;
    if len - lo > 0 {
        assert(f[0] == cs@[lo as int]);
        th = th + digit_of(cs[lo]) * 100;
    }
    if len - lo > 1 {
        assert(f[1] == cs@[lo + 1]);
        th = th + digit_of(cs[lo + 1]) * 10;
    }
    if len - lo > 2 {
        assert(f[2] == cs@[lo + 2]);
        th = th + digit_of(cs[lo + 2]);
    }
    assert(th as nat == thousandths(f));
    match parse_digits(&cs, start, p) {
        Some(w) => {
            if w > (u64::MAX - th) / 1000 {
                assert(w * 1000 + th > u64::MAX) by (nonlinear_arith)
                    requires
                        w > (u64::MAX - th) / 1000,
                        th <= 999,
                ;
                None
            } else {
                assert(w * 1000 + th <= u64::MAX) by (nonlinear_arith)
                    requires
                        w <= (u64::MAX - th) / 1000,
                        th <= 999,
                ;
                Some(w * 1000 + th)
            }
        },
        None => {
            proof {
                if all_digits(whole_part(d)) {
                    assert(digits_value(whole_part(d)) * 1000 + thousandths(f) > u64::MAX)
                        by (nonlinear_arith)
                        requires
                            digits_value(whole_part(d)) > u64::MAX,
                    ;
                }
            }
            None
        },
    }
}

/// Whether `s` holds exactly the text `lit`.
pub fn text_is(s: &String, lit: &str) -> (r: bool)
    ensures
        r == (s@ == lit@),
{
    let other = lit.to_owned();
    *s == other
}

/// Whether `s` begins with the text `prefix`.
pub fn text_starts_with(s: &String, prefix: &str) -> (r: bool)
    ensures
        r == prefix@.is_prefix_of(s@),
{
    let cs = chars_of(s.as_str());
    let ps = chars_of(prefix);
    if ps.len() > cs.len() {
        return false;
    }
    let mut i: usize = 0;
    while i < ps.len()
        invariant
            i <= ps@.len() <= cs@.len(),
            cs@ == s@,
            ps@ == prefix@,
            forall|j: int| 0 <= j < i ==> ps@[j] == cs@[j],
        decreases ps@.len() - i,
    {
        if ps[i] != cs[i] {
            assert(cs@.subrange(0, ps@.len() as int)[i as int] == cs@[i as int]);
            return false;
        }
        i += 1;
    }
    assert(ps@ =~= cs@.take(ps@.len() as int));
    true
}

} // verus!
