//! Numbers in text: digits in a radix, radix prefixes, memory sizes.

use vstd::prelude::*;
use crate::error::FormatError;
use crate::text::{owned, str_eq};

verus! {

/// Value of `c` as a digit, or -1 when it is none in `radix` (2 to 16).
pub open spec fn digit_value(c: char, radix: int) -> int {
    let v = if '0' <= c && c <= '9' {
        c as int - '0' as int
    } else if 'a' <= c && c <= 'f' {
        c as int - 'a' as int + 10
    } else if 'A' <= c && c <= 'F' {
        c as int - 'A' as int + 10
    } else {
        -1
    };
    if v < radix {
        v
    } else {
        -1
    }
}

pub open spec fn is_digit(c: char, radix: int) -> bool {
    digit_value(c, radix) >= 0
}

/// The number that the digits `ds` spell in `radix`.
pub open spec fn value_of(ds: Seq<char>, radix: int) -> int
    decreases ds.len(),
{
    if ds.len() == 0 {
        0
    } else {
        value_of(ds.drop_last(), radix) * radix + digit_value(ds.last(), radix)
    }
}

/// First index at or after `i` that does not hold a digit of `radix`.
pub open spec fn run_end(s: Seq<char>, i: int, radix: int) -> int
    decreases s.len() - i,
{
    if 0 <= i < s.len() && is_digit(s[i], radix) {
        run_end(s, i + 1, radix)
    } else {
        i
    }
}

pub proof fn lemma_run_end_bounds(s: Seq<char>, i: int, radix: int)
    requires
        0 <= i <= s.len(),
    ensures
        i <= run_end(s, i, radix) <= s.len(),
        forall|j: int| i <= j < run_end(s, i, radix) ==> is_digit(#[trigger] s[j], radix),
    decreases s.len() - i,
{
    if i < s.len() && is_digit(s[i], radix) {
        lemma_run_end_bounds(s, i + 1, radix);
    }
}

pub proof fn lemma_value_prefix_le(ds: Seq<char>, k: int, radix: int)
    requires
        2 <= radix <= 16,
        0 <= k <= ds.len(),
        forall|j: int| 0 <= j < ds.len() ==> is_digit(#[trigger] ds[j], radix),
    ensures
        0 <= value_of(ds.subrange(0, k), radix) <= value_of(ds, radix),
    decreases ds.len(),
{
    if ds.len() > 0 {
        if k == ds.len() {
            assert(ds.subrange(0, k) == ds);
            lemma_value_prefix_le(ds.drop_last(), k - 1, radix);
            assert(ds.drop_last().subrange(0, k - 1) == ds.subrange(0, k - 1));
        } else {
            lemma_value_prefix_le(ds.drop_last(), k, radix);
            assert(ds.drop_last().subrange(0, k) == ds.subrange(0, k));
        }
        let a = value_of(ds.drop_last(), radix);
        assert(is_digit(ds[ds.len() - 1], radix));
        let d = digit_value(ds.last(), radix);
        assert(a <= a * radix + d) by (nonlinear_arith)
            requires
                a >= 0,
                d >= 0,
                radix >= 2,
        ;
    } else {
        assert(ds.subrange(0, k) == ds);
    }
}

/// Radix chosen by the prefix: `0x` 16, `0b` 2, `0` and an octal digit 8,
/// otherwise 10.
pub open spec fn prefix_radix(s: Seq<char>, parse_radix: bool) -> int {
    if parse_radix && s.len() >= 2 && s[0] == '0' && s[1] == 'x' {
        16
    } else if parse_radix && s.len() >= 2 && s[0] == '0' && s[1] == 'b' {
        2
    } else if parse_radix && s.len() >= 2 && s[0] == '0' && is_digit(s[1], 8) {
        8
    } else {
        10
    }
}

/// Where the digits start: after `0x` or `0b`, after the leading zero of an
/// octal number, else at the start.
pub open spec fn prefix_len(s: Seq<char>, parse_radix: bool) -> int {
    let r = prefix_radix(s, parse_radix);
    if r == 16 || r == 2 {
        2
    } else if r == 8 {
        1
    } else {
        0
    }
}

/// The digits of the numeric prefix of `s`.
pub open spec fn numeric_digits(s: Seq<char>, parse_radix: bool) -> Seq<char> {
    let st = prefix_len(s, parse_radix);
    s.subrange(st, run_end(s, st, prefix_radix(s, parse_radix)))
}

/// What follows the numeric prefix of `s`.
pub open spec fn numeric_rest(s: Seq<char>, parse_radix: bool) -> Seq<char> {
    let st = prefix_len(s, parse_radix);
    s.subrange(run_end(s, st, prefix_radix(s, parse_radix)), s.len() as int)
}

/// The numeric prefix of `s` is present and fits in a `usize`.
pub open spec fn numeric_ok(s: Seq<char>, parse_radix: bool) -> bool {
    let ds = numeric_digits(s, parse_radix);
    ds.len() > 0 && value_of(ds, prefix_radix(s, parse_radix)) <= usize::MAX
}

pub open spec fn numeric_value(s: Seq<char>, parse_radix: bool) -> int {
    value_of(numeric_digits(s, parse_radix), prefix_radix(s, parse_radix))
}

fn char_digit(c: char, radix: u32) -> (r: Option<u32>)
    requires
        2 <= radix <= 16,
    ensures
        match r {
            Some(v) => is_digit(c, radix as int) && v == digit_value(c, radix as int),
            None => !is_digit(c, radix as int),
        },
{
    let v: u32 = if '0' <= c && c <= '9' {
        (c as u32) - ('0' as u32)
    } else if 'a' <= c && c <= 'f' {
        (c as u32) - ('a' as u32) + 10
    } else if 'A' <= c && c <= 'F' {
        (c as u32) - ('A' as u32) + 10
    } else {
        return None;
    };
    if v < radix {
        Some(v)
    } else {
        None
    }
}

/// Splits `input` into its leading number and the rest. With `parse_radix`,
/// a `0x`, `0b` or octal `0` prefix selects the radix.
pub fn take_numeric(parse_radix: bool, input: &str) -> (r: Result<(usize, &str), FormatError>)
    ensures
        match r {
            Ok((v, rest)) => {
                &&& numeric_ok(input@, parse_radix)
                &&& v == numeric_value(input@, parse_radix)
                &&& rest@ == numeric_rest(input@, parse_radix)
            },
            Err(FormatError::InvalidValue(_)) => !numeric_ok(input@, parse_radix),
            Err(_) => false,
        },
{
    let n = input.unicode_len();
    let mut radix: u32 = 10;
    let mut start: usize = 0;
    if parse_radix && n >= 2 && input.get_char(0) == '0' {
        let c1 = input.get_char(1);
        if c1 == 'x' {
            radix = 16;
            start = 2;
        } else if c1 == 'b' {
            radix = 2;
            start = 2;
        } else if char_digit(c1, 8).is_some() {
            radix = 8;
            start = 1;
        }
    }
    assert(radix == prefix_radix(input@, parse_radix));
    assert(start == prefix_len(input@, parse_radix));
    let ghost s = input@;
    let mut i: usize = start;
    let mut acc: usize = 0;
    let mut overflow = false;
    while i < n && char_digit(input.get_char(i), radix).is_some()
        invariant
            n == s.len(),
            s == input@,
            2 <= radix <= 16,
            start <= i <= n,
            radix == prefix_radix(s, parse_radix),
            start == prefix_len(s, parse_radix),
            run_end(s, i as int, radix as int) == run_end(s, start as int, radix as int),
            forall|j: int| start <= j < i ==> is_digit(#[trigger] s[j], radix as int),
            !overflow ==> acc == value_of(s.subrange(start as int, i as int), radix as int),
            overflow ==> value_of(s.subrange(start as int, i as int), radix as int) > usize::MAX,
        decreases n - i,
    {
        let c = input.get_char(i);
        match char_digit(c, radix) {
            None => {},
            Some(d) => {
                let ghost pre = s.subrange(start as int, i + 1);
                proof {
                    assert(pre.drop_last() == s.subrange(start as int, i as int));
                    assert(pre.last() == c);
                    assert(forall|j: int| 0 <= j < pre.len() ==> is_digit(#[trigger] pre[j], radix as int));
                    lemma_value_prefix_le(pre, pre.len() - 1, radix as int);
                    assert(pre.subrange(0, pre.len() - 1) == pre.drop_last());
                }
                if !overflow {
                    match acc.checked_mul(radix as usize) {
                        None => {
                            overflow = true;
                            proof {
                                let a = value_of(pre.drop_last(), radix as int);
                                assert(a * radix >= 0) by (nonlinear_arith)
                                    requires a >= 0, radix >= 2;
                            }
                        },
                        Some(m) => match m.checked_add(d as usize) {
                            None => {
                                overflow = true;
                            },
                            Some(v) => {
                                acc = v;
                            },
                        },
                    }
                }
            },
        }
        i = i + 1;
    }
    proof {
        lemma_run_end_bounds(s, start as int, radix as int);
        if i < n {
            assert(!is_digit(s[i as int], radix as int));
        }
        assert(run_end(s, i as int, radix as int) == i);
    }
    if overflow || i == start {
        return Err(FormatError::InvalidValue(owned(input)));
    }
    Ok((acc, input.substring_char(i, n)))
}

/// Kilobytes per unit of the suffix `u`: K, M, G and T, optionally
/// followed by `B` or `b`, and also written `kb`, `mb`, `gb` and `tb`.
pub open spec fn unit_multiplier(u: Seq<char>) -> Option<int> {
    if u == "K"@ || u == "KB"@ || u == "Kb"@ || u == "kb"@ {
        Some(1int)
    } else if u == "M"@ || u == "MB"@ || u == "Mb"@ || u == "mb"@ {
        Some(1024int)
    } else if u == "G"@ || u == "GB"@ || u == "Gb"@ || u == "gb"@ {
        Some(1048576int)
    } else if u == "T"@ || u == "TB"@ || u == "Tb"@ || u == "tb"@ {
        Some(1073741824int)
    } else {
        None
    }
}

fn unit_of(u: &str) -> (r: Option<usize>)
    ensures
        match r {
            Some(m) => unit_multiplier(u@) == Some(m as int),
            None => unit_multiplier(u@) is None,
        },
{
    if str_eq(u, "K") || str_eq(u, "KB") || str_eq(u, "Kb") || str_eq(u, "kb") {
        Some(1)
    } else if str_eq(u, "M") || str_eq(u, "MB") || str_eq(u, "Mb") || str_eq(u, "mb") {
        Some(1024)
    } else if str_eq(u, "G") || str_eq(u, "GB") || str_eq(u, "Gb") || str_eq(u, "gb") {
        Some(1048576)
    } else if str_eq(u, "T") || str_eq(u, "TB") || str_eq(u, "Tb") || str_eq(u, "tb") {
        Some(1073741824)
    } else {
        None
    }
}

/// Kilobytes that the size text `s` denotes, when it parses.
pub open spec fn mem_kb_spec(s: Seq<char>) -> Option<int> {
    if numeric_ok(s, true) {
        match unit_multiplier(numeric_rest(s, true)) {
            Some(m) => Some(numeric_value(s, true) * m),
            None => None,
        }
    } else {
        None
    }
}

/// Parses a memory size such as `512M` or `0x10K` into kilobytes.
pub fn parse_mem_in_kb(input: &String) -> (r: Result<usize, FormatError>)
    ensures
        match r {
            Ok(kb) => mem_kb_spec(input@) == Some(kb as int),
            Err(FormatError::InvalidValue(_)) => !numeric_ok(input@, true) || (
            mem_kb_spec(input@) matches Some(kb) && kb > usize::MAX),
            Err(FormatError::InvalidUnit(u)) => {
                &&& numeric_ok(input@, true)
                &&& unit_multiplier(numeric_rest(input@, true)) is None
                &&& u@ == numeric_rest(input@, true)
            },
            Err(_) => false,
        },
{
    let (value, rest) = take_numeric(true, input.as_str())?;
    match unit_of(rest) {
        None => Err(FormatError::InvalidUnit(owned(rest))),
        Some(m) => match value.checked_mul(m) {
            Some(kb) => Ok(kb),
            None => Err(FormatError::InvalidValue(owned(input.as_str()))),
        },
    }
}

/// Kilobytes of a size given as a plain number of bytes.
pub fn mem_kb_from_bytes(n: usize) -> (r: usize)
    ensures
        r == n / 1000,
{
    n / 1000
}

pub open spec fn unsigned_digits(s: Seq<char>) -> Seq<char> {
    if s.len() > 0 && s[0] == '+' {
        s.subrange(1, s.len() as int)
    } else {
        s
    }
}

pub open spec fn all_digits(ds: Seq<char>, radix: int) -> bool {
    forall|j: int| 0 <= j < ds.len() ==> is_digit(#[trigger] ds[j], radix)
}

/// Value of a decimal `u8`, with an optional leading `+`.
pub open spec fn dec_u8_spec(s: Seq<char>) -> Option<u8> {
    let ds = unsigned_digits(s);
    if ds.len() > 0 && all_digits(ds, 10) && value_of(ds, 10) <= 255 {
        Some(value_of(ds, 10) as u8)
    } else {
        None
    }
}

/// Parses a decimal `u8`, as `str::parse` does.
pub fn parse_u8(s: &str) -> (r: Option<u8>)
    ensures
        r == dec_u8_spec(s@),
{
    let n = s.unicode_len();
    let mut start: usize = 0;
    if n > 0 && s.get_char(0) == '+' {
        start = 1;
    }
    let ghost ds = unsigned_digits(s@);
    assert(ds == s@.subrange(start as int, n as int));
    if start == n {
        return None;
    }
    let mut i: usize = start;
    let mut acc: u32 = 0;
    while i < n
        invariant
            n == s@.len(),
            start < n,
            start <= i <= n,
            ds == s@.subrange(start as int, n as int),
            ds == unsigned_digits(s@),
            forall|j: int| start <= j < i ==> is_digit(#[trigger] s@[j], 10),
            acc == value_of(s@.subrange(start as int, i as int), 10),
            acc <= 255,
        decreases n - i,
    {
        let c = s.get_char(i);
        let ghost pre = s@.subrange(start as int, i + 1);
        proof {
            assert(pre.drop_last() == s@.subrange(start as int, i as int));
            assert(pre.last() == c);
        }
        match char_digit(c, 10) {
            None => {
                assert(ds[i - start] == s@[i as int]);
                assert(!is_digit(ds[i - start], 10));
                assert(!all_digits(ds, 10));
                return None;
            },
            Some(d) => {
                acc = acc * 10 + d;
                assert(acc == value_of(pre, 10));
                if acc > 255 {
                    proof {
                        if all_digits(ds, 10) {
                            lemma_value_prefix_le(ds, pre.len() as int, 10);
                            assert(ds.subrange(0, pre.len() as int) == pre);
                        }
                    }
                    return None;
                }
            },
        }
        i = i + 1;
    }
    proof {
        assert(s@.subrange(start as int, i as int) == ds);
    }
    Some(acc as u8)
}

} // verus!

verus! {

/// Value of digits in `radix`, with an optional leading `+`, when it fits
/// in a `u64`.
pub open spec fn unsigned_spec(s: Seq<char>, radix: int) -> Option<u64> {
    let ds = unsigned_digits(s);
    if ds.len() > 0 && all_digits(ds, radix) && value_of(ds, radix) <= u64::MAX {
        Some(value_of(ds, radix) as u64)
    } else {
        None
    }
}

/// Parses an unsigned number in `radix`, as `from_str_radix` does.
pub fn parse_unsigned(s: &str, radix: u32) -> (r: Option<u64>)
    requires
        2 <= radix <= 16,
    ensures
        r == unsigned_spec(s@, radix as int),
{
    let n = s.unicode_len();
    let mut start: usize = 0;
    if n > 0 && s.get_char(0) == '+' {
        start = 1;
    }
    let ghost ds = unsigned_digits(s@);
    assert(ds == s@.subrange(start as int, n as int));
    if start == n {
        return None;
    }
    let mut i: usize = start;
    let mut acc: u64 = 0;
    while i < n
        invariant
            n == s@.len(),
            start < n,
            start <= i <= n,
            ds == s@.subrange(start as int, n as int),
            ds == unsigned_digits(s@),
            forall|j: int| start <= j < i ==> is_digit(#[trigger] s@[j], radix as int),
            acc == value_of(s@.subrange(start as int, i as int), radix as int),
            2 <= radix <= 16,
        decreases n - i,
    {
        let c = s.get_char(i);
        let ghost pre = s@.subrange(start as int, i + 1);
        proof {
            assert(pre.drop_last() == s@.subrange(start as int, i as int));
            assert(pre.last() == c);
        }
        match char_digit(c, radix) {
            None => {
                assert(ds[i - start] == s@[i as int]);
                assert(!all_digits(ds, radix as int));
                return None;
            },
            Some(d) => {
                let ghost a = acc as int;
                let ghost dd = d as int;
                let ghost rr = radix as int;
                let ghost big = a * rr + dd;
                assert(big == value_of(pre, radix as int));
                if acc > (u64::MAX - d as u64) / (radix as u64) {
                    proof {
                        assert(big > u64::MAX) by (nonlinear_arith)
                            requires a > (u64::MAX - dd) / rr, big == a * rr + dd, 0 <= dd < rr, rr >= 2;
                        if all_digits(ds, radix as int) {
                            lemma_value_prefix_le(ds, pre.len() as int, radix as int);
                            assert(ds.subrange(0, pre.len() as int) == pre);
                        }
                    }
                    return None;
                }
                assert(a * rr + dd <= u64::MAX) by (nonlinear_arith)
                    requires a <= (u64::MAX - dd) / rr, 0 <= dd < rr, rr >= 2, a >= 0;
                acc = acc * (radix as u64) + d as u64;
            },
        }
        i = i + 1;
    }
    proof {
        assert(s@.subrange(start as int, i as int) == ds);
    }
    Some(acc)
}

} // verus!
