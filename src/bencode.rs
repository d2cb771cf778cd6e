//! Bencode: locating values in encoded bytes, and encoding strings and
//! non-negative integers.

use vstd::prelude::*;
use crate::bytes_util::{bytes_equal, copy_range, push_all};

verus! {

/// A found position, as an integer.
pub open spec fn as_pos(r: Option<usize>) -> Option<int> {
    match r {
        Some(e) => Some(e as int),
        None => None,
    }
}

pub open spec fn is_digit(c: u8) -> bool {
    48 <= c <= 57
}

/// The first position at or after `pos` that does not hold a digit.
pub open spec fn digits_end(s: Seq<u8>, pos: int) -> int
    decreases s.len() - pos,
{
    if 0 <= pos < s.len() && is_digit(s[pos]) {
        digits_end(s, pos + 1)
    } else {
        pos
    }
}

/// The number that the digits `s[lo..hi]` spell in decimal.
pub open spec fn digits_value(s: Seq<u8>, lo: int, hi: int) -> nat
    decreases hi - lo,
{
    if hi <= lo {
        0
    } else {
        digits_value(s, lo, hi - 1) * 10 + (s[hi - 1] - 48) as nat
    }
}

/// Where the digits of the string at `pos` end (the colon follows).
pub open spec fn string_colon(s: Seq<u8>, pos: int) -> int {
    digits_end(s, pos)
}

/// The end of the byte string `<length>:<bytes>` at `pos`, if one is there.
pub open spec fn string_end(s: Seq<u8>, pos: int) -> Option<int> {
    let d = digits_end(s, pos);
    if 0 <= pos && d > pos && d < s.len() && s[d] == 58 && d + 1 + digits_value(s, pos, d) <= s.len() {
        Some(d + 1 + digits_value(s, pos, d))
    } else {
        None
    }
}

/// The bytes of the byte string at `pos`.
pub open spec fn string_content(s: Seq<u8>, pos: int) -> Seq<u8> {
    s.subrange(digits_end(s, pos) + 1, string_end(s, pos)->Some_0)
}

/// Where the digits of the integer `i[-]<digits>e` at `pos` start.
pub open spec fn int_digits_start(s: Seq<u8>, pos: int) -> int {
    if pos + 1 < s.len() && s[pos + 1] == 45 { pos + 2 } else { pos + 1 }
}

/// The end of the integer at `pos`, if one is there.
pub open spec fn int_end(s: Seq<u8>, pos: int) -> Option<int> {
    let p = int_digits_start(s, pos);
    let d = digits_end(s, p);
    if 0 <= pos < s.len() && s[pos] == 105 && d > p && d < s.len() && s[d] == 101 {
        Some(d + 1)
    } else {
        None
    }
}

/// The end of the bencoded value at `pos`, if one is there.
pub open spec fn value_end(s: Seq<u8>, pos: int) -> Option<int>
    decreases s.len() - pos, 0int,
{
    if !(0 <= pos < s.len()) {
        None
    } else if s[pos] == 105 {
        int_end(s, pos)
    } else if s[pos] == 108 {
        items_end(s, pos + 1, false)
    } else if s[pos] == 100 {
        items_end(s, pos + 1, true)
    } else {
        string_end(s, pos)
    }
}

/// The end of the list items (or, with `dict`, key and value pairs) that
/// start at `pos`, closing `e` included.
pub open spec fn items_end(s: Seq<u8>, pos: int, dict: bool) -> Option<int>
    decreases s.len() - pos, 1int,
{
    if !(0 <= pos < s.len()) {
        None
    } else if s[pos] == 101 {
        Some(pos + 1)
    } else {
        let k = if dict { string_end(s, pos) } else { Some(pos) };
        match k {
            None => None,
            Some(k) => if k < pos {
                None
            } else {
                match value_end(s, k) {
                    Some(e) => if pos < e <= s.len() { items_end(s, e, dict) } else { None },
                    None => None,
                }
            },
        }
    }
}

/// Where the value under `key` starts, among the dictionary entries that
/// start at `pos`: the first entry with that key wins.
pub open spec fn entry_value(s: Seq<u8>, pos: int, key: Seq<u8>) -> Option<int>
    decreases s.len() - pos,
{
    if !(0 <= pos < s.len()) || s[pos] == 101 {
        None
    } else {
        match string_end(s, pos) {
            None => None,
            Some(k) => if string_content(s, pos) == key {
                Some(k)
            } else {
                match value_end(s, k) {
                    Some(e) => if pos < e <= s.len() { entry_value(s, e, key) } else { None },
                    None => None,
                }
            },
        }
    }
}

proof fn lemma_digits_end_bounds(s: Seq<u8>, pos: int)
    requires
        0 <= pos,
    ensures
        pos <= digits_end(s, pos),
        digits_end(s, pos) <= s.len() || digits_end(s, pos) == pos,
        forall|j: int| pos <= j < digits_end(s, pos) ==> is_digit(#[trigger] s[j]),
        digits_end(s, pos) < s.len() ==> !is_digit(s[digits_end(s, pos)]),
    decreases s.len() - pos,
{
    if 0 <= pos < s.len() && is_digit(s[pos]) {
        lemma_digits_end_bounds(s, pos + 1);
    }
}

proof fn lemma_digits_value_grows(s: Seq<u8>, lo: int, k: int, hi: int)
    requires
        lo <= k <= hi,
        forall|j: int| lo <= j < hi ==> is_digit(#[trigger] s[j]),
    ensures
        digits_value(s, lo, k) <= digits_value(s, lo, hi),
    decreases hi - k,
{
    if k < hi {
        lemma_digits_value_grows(s, lo, k, hi - 1);
    }
}

/// The end of the run of digits at `pos`.
fn scan_digits(s: &[u8], pos: usize) -> (r: usize)
    requires
        pos <= s@.len(),
    ensures
        r == digits_end(s@, pos as int),
        pos <= r <= s@.len(),
{
    let mut i: usize = pos;
    while i < s.len() && s[i] >= 48 && s[i] <= 57
        invariant
            pos <= i <= s@.len(),
            digits_end(s@, i as int) == digits_end(s@, pos as int),
        decreases s@.len() - i,
    {
        i = i + 1;
    }
    i
}

/// The value of the digits `s[lo..hi]` when it is at most `cap`.
pub(crate) fn read_number(s: &[u8], lo: usize, hi: usize, cap: u64) -> (r: Option<u64>)
    requires
        lo <= hi <= s@.len(),
        forall|j: int| lo <= j < hi ==> is_digit(#[trigger] s@[j]),
    ensures
        match r {
            Some(v) => v == digits_value(s@, lo as int, hi as int) && v <= cap,
            None => digits_value(s@, lo as int, hi as int) > cap,
        },
{
    let mut acc: u64 = 0;
    let mut i: usize = lo;
    while i < hi
        invariant
            lo <= i <= hi <= s@.len(),
            forall|j: int| lo <= j < hi ==> is_digit(#[trigger] s@[j]),
            acc == digits_value(s@, lo as int, i as int),
            acc <= cap,
        decreases hi - i,
    {
        let d = (s[i] - 48) as u64;
        assert(is_digit(s@[i as int]));
        if d > cap || acc > (cap - d) / 10 {
            proof {
                assert(digits_value(s@, lo as int, i + 1) == acc * 10 + d);
                assert(acc * 10 + d > cap) by (nonlinear_arith)
                    requires d > cap || acc > (cap - d) / 10, acc >= 0, d >= 0;
                lemma_digits_value_grows(s@, lo as int, i + 1, hi as int);
            }
            return None;
        }
        assert(acc * 10 + d <= cap) by (nonlinear_arith)
            requires d <= cap, acc <= (cap - d) / 10, acc >= 0;
        acc = acc * 10 + d;
        i = i + 1;
    }
    Some(acc)
}

/// The end of the byte string at `pos` and its bytes, if one is there.
pub fn _decode_string(s: &[u8], pos: usize) -> (r: Option<(usize, Vec<u8>)>)
    requires
        pos <= s@.len(),
    ensures
        match r {
            Some((end, b)) => string_end(s@, pos as int) == Some(end as int) && b@ == string_content(
                s@,
                pos as int,
            ),
            None => string_end(s@, pos as int) is None,
        },
{
    match string_span(s, pos) {
        None => None,
        Some((start, end)) => Some((end, copy_range(s, start, end))),
    }
}

/// The span of the bytes of the byte string at `pos`, if one is there.
fn string_span(s: &[u8], pos: usize) -> (r: Option<(usize, usize)>)
    requires
        pos <= s@.len(),
    ensures
        match r {
            Some((start, end)) => string_end(s@, pos as int) == Some(end as int) && start
                == digits_end(s@, pos as int) + 1 && start <= end <= s@.len(),
            None => string_end(s@, pos as int) is None,
        },
{
    let d = scan_digits(s, pos);
    proof {
        lemma_digits_end_bounds(s@, pos as int);
    }
    if d == pos || d >= s.len() || s[d] != 58 {
        return None;
    }
    match read_number(s, pos, d, s.len() as u64) {
        None => None,
        Some(n) => {
            if n as usize > s.len() - (d + 1) {
                None
            } else {
                Some((d + 1, d + 1 + n as usize))
            }
        },
    }
}

/// The end of the integer at `pos`, if one is there.
fn scan_int(s: &[u8], pos: usize) -> (r: Option<usize>)
    requires
        pos < s@.len(),
    ensures
        as_pos(r) == int_end(s@, pos as int),
{
    if s[pos] != 105 {
        return None;
    }
    let p = if pos + 1 < s.len() && s[pos + 1] == 45 { pos + 2 } else { pos + 1 };
    let d = scan_digits(s, p);
    if d > p && d < s.len() && s[d] == 101 {
        Some(d + 1)
    } else {
        None
    }
}

/// The end of the bencoded value at `pos`, if one is there.
pub fn value_end_at(s: &[u8], pos: usize) -> (r: Option<usize>)
    requires
        pos <= s@.len(),
    ensures
        as_pos(r) == value_end(s@, pos as int),
        r is Some ==> pos < r->Some_0 <= s@.len(),
    decreases s@.len() - pos, 0int,
{
    if pos >= s.len() {
        return None;
    }
    if s[pos] == 105 {
        let r = scan_int(s, pos);
        proof { lemma_digits_end_bounds(s@, int_digits_start(s@, pos as int)); }
        r
    } else if s[pos] == 108 {
        items_end_at(s, pos + 1, false)
    } else if s[pos] == 100 {
        items_end_at(s, pos + 1, true)
    } else {
        match string_span(s, pos) {
            None => None,
            Some((_, end)) => Some(end),
        }
    }
}

/// The end of the items that start at `pos`, closing `e` included.
pub fn items_end_at(s: &[u8], pos: usize, dict: bool) -> (r: Option<usize>)
    requires
        pos <= s@.len(),
    ensures
        as_pos(r) == items_end(s@, pos as int, dict),
        r is Some ==> pos < r->Some_0 <= s@.len(),
    decreases s@.len() - pos, 1int,
{
    if pos >= s.len() {
        return None;
    }
    if s[pos] == 101 {
        return Some(pos + 1);
    }
    let k = if dict {
        match string_span(s, pos) {
            None => { return None; },
            Some((_, end)) => end,
        }
    } else {
        pos
    };
    proof { lemma_digits_end_bounds(s@, pos as int); }
    match value_end_at(s, k) {
        None => None,
        Some(e) => items_end_at(s, e, dict),
    }
}

/// Where the value under `key` starts among the dictionary entries at `pos`.
pub fn entry_value_at(s: &[u8], pos: usize, key: &[u8]) -> (r: Option<usize>)
    requires
        pos <= s@.len(),
    ensures
        as_pos(r) == entry_value(s@, pos as int, key@),
        r is Some ==> r->Some_0 <= s@.len(),
    decreases s@.len() - pos,
{
    if pos >= s.len() || s[pos] == 101 {
        return None;
    }
    match string_span(s, pos) {
        None => None,
        Some((start, k)) => {
            proof { lemma_digits_end_bounds(s@, pos as int); }
            let name = copy_range(s, start, k);
            if bytes_equal(name.as_slice(), key) {
                Some(k)
            } else {
                match value_end_at(s, k) {
                    None => None,
                    Some(e) => entry_value_at(s, e, key),
                }
            }
        },
    }
}

/// The decimal digits of `n`.
pub open spec fn decimal(n: nat) -> Seq<u8>
    decreases n,
{
    if n < 10 {
        seq![(48 + n) as u8]
    } else {
        decimal(n / 10) + seq![(48 + n % 10) as u8]
    }
}

/// Appends the decimal digits of `n`.
pub fn push_decimal(out: &mut Vec<u8>, n: u64)
    ensures
        final(out)@ == old(out)@ + decimal(n as nat),
    decreases n,
{
    if n >= 10 {
        push_decimal(out, n / 10);
    }
    out.push((48 + n % 10) as u8);
    assert(final(out)@ =~= old(out)@ + decimal(n as nat));
}

/// The encoding of byte string `b`: its length, a colon, its bytes.
pub open spec fn encoded_string(b: Seq<u8>) -> Seq<u8> {
    decimal(b.len()) + seq![58u8] + b
}

/// The encoding of the non-negative integer `n`.
pub open spec fn encoded_int(n: nat) -> Seq<u8> {
    seq![105u8] + decimal(n) + seq![101u8]
}

/// Appends the encoding of byte string `b`.
pub fn push_string(out: &mut Vec<u8>, b: &[u8])
    ensures
        final(out)@ == old(out)@ + encoded_string(b@),
{
    push_decimal(out, b.len() as u64);
    out.push(58u8);
    push_all(out, b);
    assert(final(out)@ =~= old(out)@ + encoded_string(b@));
}

/// Appends the encoding of `n`.
pub fn push_int(out: &mut Vec<u8>, n: u64)
    ensures
        final(out)@ == old(out)@ + encoded_int(n as nat),
{
    out.push(105u8);
    push_decimal(out, n);
    out.push(101u8);
    assert(final(out)@ =~= old(out)@ + encoded_int(n as nat));
}

/// Where each item starts among the items at `pos` (for a dictionary,
/// where each key starts; its value follows the key).
pub open spec fn item_starts(s: Seq<u8>, pos: int, dict: bool) -> Seq<int>
    decreases s.len() - pos,
{
    if !(0 <= pos < s.len()) || s[pos] == 101 {
        Seq::empty()
    } else {
        let k = if dict { string_end(s, pos) } else { Some(pos) };
        match k {
            None => Seq::empty(),
            Some(k) => if k < pos {
                Seq::empty()
            } else {
                match value_end(s, k) {
                    Some(e) => if pos < e <= s.len() {
                        seq![pos] + item_starts(s, e, dict)
                    } else {
                        Seq::empty()
                    },
                    None => Seq::empty(),
                }
            },
        }
    }
}

/// The positions of the items of the list (or the keys of the dictionary)
/// whose first item starts at `pos`, when the items are well formed.
pub fn item_starts_at(s: &[u8], pos: usize, dict: bool) -> (r: Option<Vec<usize>>)
    requires
        pos <= s@.len(),
    ensures
        match r {
            Some(v) => items_end(s@, pos as int, dict) is Some && v@.len() == item_starts(
                s@,
                pos as int,
                dict,
            ).len() && forall|i: int| 0 <= i < v@.len() ==> #[trigger] v@[i] as int == item_starts(
                s@,
                pos as int,
                dict,
            )[i],
            None => items_end(s@, pos as int, dict) is None,
        },
{
    if items_end_at(s, pos, dict).is_none() {
        return None;
    }
    let mut out: Vec<usize> = Vec::new();
    let mut at: usize = pos;
    while s[at] != 101
        invariant
            pos <= at <= s@.len(),
            items_end(s@, at as int, dict) is Some,
            at < s@.len(),
            item_starts(s@, pos as int, dict) =~= out@.map_values(|x: usize| x as int) + item_starts(
                s@,
                at as int,
                dict,
            ),
        decreases s@.len() - at,
    {
        let k = if dict {
            match string_span(s, at) {
                Some((_, end)) => end,
                None => { return None; },
            }
        } else {
            at
        };
        proof { lemma_digits_end_bounds(s@, at as int); }
        let e = match value_end_at(s, k) {
            Some(e) => e,
            None => { return None; },
        };
        let ghost old_out = out@;
        out.push(at);
        proof {
            assert(out@.map_values(|x: usize| x as int) =~= old_out.map_values(|x: usize| x as int).push(at as int));
        }
        at = e;
        proof {
            if at >= s@.len() {
                assert(items_end(s@, at as int, dict) is None);
            }
        }
    }
    assert(item_starts(s@, at as int, dict) =~= Seq::<int>::empty());
    assert(item_starts(s@, pos as int, dict) =~= out@.map_values(|x: usize| x as int));
    Some(out)
}

/// The integer at `pos` and where it ends, when it fits an `i64`.
pub fn decode_integer(s: &[u8], pos: usize) -> (r: Option<(usize, i64)>)
    requires
        pos <= s@.len(),
    ensures
        match r {
            Some((end, v)) => int_end(s@, pos as int) == Some(end as int) && v == int_value(s@, pos as int),
            None => int_end(s@, pos as int) is None || !(i64::MIN <= int_value(s@, pos as int) <= i64::MAX),
        },
{
    if pos >= s.len() {
        return None;
    }
    let end = match scan_int(s, pos) {
        Some(e) => e,
        None => { return None; },
    };
    let negative = pos + 1 < s.len() && s[pos + 1] == 45;
    let p = if negative { pos + 2 } else { pos + 1 };
    proof { lemma_digits_end_bounds(s@, p as int); }
    let cap: u64 = if negative { 9223372036854775808 } else { 9223372036854775807 };
    match read_number(s, p, end - 1, cap) {
        None => None,
        Some(m) => {
            if negative {
                if m == 9223372036854775808 {
                    Some((end, i64::MIN))
                } else {
                    Some((end, -(m as i64)))
                }
            } else {
                Some((end, m as i64))
            }
        },
    }
}

/// The value of the integer at `pos`.
pub open spec fn int_value(s: Seq<u8>, pos: int) -> int {
    let p = int_digits_start(s, pos);
    let m = digits_value(s, p, digits_end(s, p)) as int;
    if p == pos + 2 { -m } else { m }
}

} // verus!
