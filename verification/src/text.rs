//! Character-level string utilities with exact specifications: tokenizing,
//! splitting, trimming, and integer parsing/formatting over `Seq<char>` views.

use vstd::prelude::*;

verus! {

// ---------- character classes ----------

/// Whitespace, as this library understands it (the ASCII blanks that the
/// window-manager tools emit).
pub open spec fn is_wsp_char(c: char) -> bool {
    c == ' ' || c == '\t' || c == '\n' || c == '\r'
}

pub open spec fn is_dec_digit(c: char) -> bool {
    48 <= c as u32 && c as u32 <= 57
}

pub open spec fn dec_digit_val(c: char) -> int {
    c as u32 - 48
}

pub open spec fn is_hex_digit(c: char) -> bool {
    (48 <= c as u32 && c as u32 <= 57)  // '0'..'9'
    || (97 <= c as u32 && c as u32 <= 102)  // 'a'..'f'
    || (65 <= c as u32 && c as u32 <= 70)  // 'A'..'F'
}

pub open spec fn hex_digit_val(c: char) -> int {
    if 48 <= c as u32 && c as u32 <= 57 {
        c as u32 - 48
    } else if 97 <= c as u32 && c as u32 <= 102 {
        c as u32 - 87
    } else {
        c as u32 - 55
    }
}

// ---------- numeric values of digit strings ----------

pub open spec fn all_dec_digits(s: Seq<char>) -> bool {
    forall|i: int| 0 <= i < s.len() ==> is_dec_digit(#[trigger] s[i])
}

pub open spec fn all_hex_digits(s: Seq<char>) -> bool {
    forall|i: int| 0 <= i < s.len() ==> is_hex_digit(#[trigger] s[i])
}

pub open spec fn dec_value(s: Seq<char>) -> int
    decreases s.len(),
{
    if s.len() == 0 {
        0
    } else {
        dec_value(s.drop_last()) * 10 + dec_digit_val(s.last())
    }
}

pub open spec fn hex_value(s: Seq<char>) -> int
    decreases s.len(),
{
    if s.len() == 0 {
        0
    } else {
        hex_value(s.drop_last()) * 16 + hex_digit_val(s.last())
    }
}

pub proof fn lemma_dec_value_nonneg(s: Seq<char>)
    requires
        all_dec_digits(s),
    ensures
        dec_value(s) >= 0,
    decreases s.len(),
{
    if s.len() > 0 {
        assert(all_dec_digits(s.drop_last())) by {
            assert(forall|i: int|
                0 <= i < s.len() - 1 ==> s.drop_last()[i] == #[trigger] s[i]);
        }
        lemma_dec_value_nonneg(s.drop_last());
    }
}

pub proof fn lemma_hex_value_nonneg(s: Seq<char>)
    requires
        all_hex_digits(s),
    ensures
        hex_value(s) >= 0,
    decreases s.len(),
{
    if s.len() > 0 {
        assert(all_hex_digits(s.drop_last())) by {
            assert(forall|i: int|
                0 <= i < s.len() - 1 ==> s.drop_last()[i] == #[trigger] s[i]);
        }
        lemma_hex_value_nonneg(s.drop_last());
    }
}

/// The value of a digit string only grows as more digits are appended.
pub proof fn lemma_dec_value_prefix_le(s: Seq<char>, i: int, j: int)
    requires
        all_dec_digits(s),
        0 <= i <= j <= s.len(),
    ensures
        dec_value(s.subrange(0, i)) <= dec_value(s.subrange(0, j)),
    decreases j - i,
{
    if i < j {
        let t = s.subrange(0, j);
        let t1 = s.subrange(0, j - 1);
        assert(t.drop_last() =~= t1);
        assert(all_dec_digits(t1));
        lemma_dec_value_nonneg(t1);
        assert(is_dec_digit(t.last()));
        assert(dec_value(t) == dec_value(t1) * 10 + dec_digit_val(t.last()));
        assert(dec_value(t1) <= dec_value(t));
        lemma_dec_value_prefix_le(s, i, j - 1);
    }
}

pub proof fn lemma_hex_value_prefix_le(s: Seq<char>, i: int, j: int)
    requires
        all_hex_digits(s),
        0 <= i <= j <= s.len(),
    ensures
        hex_value(s.subrange(0, i)) <= hex_value(s.subrange(0, j)),
    decreases j - i,
{
    if i < j {
        let t = s.subrange(0, j);
        let t1 = s.subrange(0, j - 1);
        assert(t.drop_last() =~= t1);
        assert(all_hex_digits(t1));
        lemma_hex_value_nonneg(t1);
        assert(is_hex_digit(t.last()));
        assert(hex_value(t) == hex_value(t1) * 16 + hex_digit_val(t.last()));
        lemma_hex_value_prefix_le(s, i, j - 1);
    }
}

// ---------- integer parsing, specified as Rust's `parse` behaves ----------

/// What `str::parse::<i32>` accepts: an optional sign, then one or more
/// decimal digits, with the signed value in range.
pub open spec fn spec_parse_i32(s: Seq<char>) -> Option<int> {
    if s.len() > 0 && (s[0] == '+' || s[0] == '-') {
        let rest = s.subrange(1, s.len() as int);
        if rest.len() > 0 && all_dec_digits(rest) {
            let v = if s[0] == '-' {
                -dec_value(rest)
            } else {
                dec_value(rest)
            };
            if i32::MIN <= v <= i32::MAX {
                Some(v)
            } else {
                None
            }
        } else {
            None
        }
    } else if s.len() > 0 && all_dec_digits(s) {
        if dec_value(s) <= i32::MAX {
            Some(dec_value(s))
        } else {
            None
        }
    } else {
        None
    }
}

/// What `str::parse::<usize>` accepts: an optional `+`, then one or more
/// decimal digits, with the value in range.
pub open spec fn spec_parse_usize(s: Seq<char>) -> Option<int> {
    if s.len() > 0 && s[0] == '+' {
        let rest = s.subrange(1, s.len() as int);
        if rest.len() > 0 && all_dec_digits(rest) && dec_value(rest) <= usize::MAX {
            Some(dec_value(rest))
        } else {
            None
        }
    } else if s.len() > 0 && all_dec_digits(s) && dec_value(s) <= usize::MAX {
        Some(dec_value(s))
    } else {
        None
    }
}

/// What `usize::from_str_radix(_, 16)` accepts: an optional `+`, then one or
/// more hexadecimal digits, with the value in range.
pub open spec fn spec_parse_hex_usize(s: Seq<char>) -> Option<int> {
    if s.len() > 0 && s[0] == '+' {
        let rest = s.subrange(1, s.len() as int);
        if rest.len() > 0 && all_hex_digits(rest) && hex_value(rest) <= usize::MAX {
            Some(hex_value(rest))
        } else {
            None
        }
    } else if s.len() > 0 && all_hex_digits(s) && hex_value(s) <= usize::MAX {
        Some(hex_value(s))
    } else {
        None
    }
}

// ---------- executable helpers ----------

/// Character-by-character string equality, proved against the views.
pub fn str_eq(a: &str, b: &str) -> (r: bool)
    ensures
        r == (a@ == b@),
{
    let na = a.unicode_len();
    let nb = b.unicode_len();
    if na != nb {
        assert(a@.len() != b@.len());
        return false;
    }
    let mut i: usize = 0;
    while i < na
        invariant
            na == a@.len(),
            na == b@.len(),
            0 <= i <= na,
            forall|k: int| 0 <= k < i ==> a@[k] == b@[k],
        decreases na - i,
    {
        if a.get_char(i) != b.get_char(i) {
            return false;
        }
        i += 1;
    }
    assert(a@ =~= b@);
    true
}

/// Whether the characters of `s` in `[from, to)` are all decimal digits,
/// accumulating their value; returns `None` when a non-digit appears or the
/// value exceeds `cap`.
fn scan_dec_digits(s: &str, from: usize, to: usize, cap: u64) -> (r: Option<u64>)
    requires
        from <= to <= s@.len(),
    ensures
        match r {
            Some(v) => {
                &&& all_dec_digits(s@.subrange(from as int, to as int))
                &&& v == dec_value(s@.subrange(from as int, to as int))
                &&& v <= cap
            },
            None => {
                let t = s@.subrange(from as int, to as int);
                !all_dec_digits(t) || dec_value(t) > cap
            },
        },
{
    let ghost whole = s@.subrange(from as int, to as int);
    let mut i: usize = from;
    let mut acc: u128 = 0;
    while i < to
        invariant
            from <= i <= to <= s@.len(),
            whole == s@.subrange(from as int, to as int),
            all_dec_digits(s@.subrange(from as int, i as int)),
            acc == dec_value(s@.subrange(from as int, i as int)),
            acc <= cap,
        decreases to - i,
    {
        let c = s.get_char(i);
        let cv = c as u32;
        if !(48 <= cv && cv <= 57) {
            proof {
                assert(whole[i - from] == s@[i as int]);
                assert(!is_dec_digit(whole[i - from]));
            }
            return None;
        }
        let d: u128 = (cv - 48) as u128;
        proof {
            assert(s@.subrange(from as int, i + 1).drop_last() =~= s@.subrange(
                from as int,
                i as int,
            ));
            assert(s@.subrange(from as int, i + 1).last() == s@[i as int]);
        }
        let next: u128 = acc * 10 + d;
        if next > cap as u128 {
            proof {
                assert(dec_value(s@.subrange(from as int, i + 1)) > cap);
                if all_dec_digits(whole) && dec_value(whole) <= cap {
                    lemma_dec_value_prefix_le(whole, i + 1 - from, whole.len() as int);
                    assert(whole.subrange(0, i + 1 - from) =~= s@.subrange(from as int, i + 1));
                    assert(whole.subrange(0, whole.len() as int) =~= whole);
                    assert(false);
                }
            }
            return None;
        }
        acc = next;
        i += 1;
    }
    assert(s@.subrange(from as int, to as int) =~= whole);
    Some(acc as u64)
}

/// Equivalent of `str::parse::<i32>`.
pub fn parse_i32(s: &str) -> (r: Option<i32>)
    ensures
        match r {
            Some(v) => spec_parse_i32(s@) == Some(v as int),
            None => spec_parse_i32(s@) is None,
        },
{
    let n = s.unicode_len();
    if n == 0 {
        return None;
    }
    let first = s.get_char(0);
    let (neg, start): (bool, usize) = if first == '-' {
        (true, 1)
    } else if first == '+' {
        (false, 1)
    } else {
        (false, 0)
    };
    if start >= n {
        return None;
    }
    let mag = scan_dec_digits(s, start, n, 0x8000_0000);
    let ghost digits = s@.subrange(start as int, n as int);
    proof {
        if start == 1 {
            assert(digits =~= s@.subrange(1, s@.len() as int));
        } else {
            assert(digits =~= s@);
        }
    }
    match mag {
        None => None,
        Some(v) => {
            if neg {
                Some((-(v as i64)) as i32)
            } else {
                if v <= 0x7fff_ffff {
                    Some(v as i32)
                } else {
                    None
                }
            }
        },
    }
}

/// Equivalent of `str::parse::<usize>`.
pub fn parse_usize(s: &str) -> (r: Option<usize>)
    ensures
        match r {
            Some(v) => spec_parse_usize(s@) == Some(v as int),
            None => spec_parse_usize(s@) is None,
        },
{
    let n = s.unicode_len();
    if n == 0 {
        return None;
    }
    let first = s.get_char(0);
    let start: usize = if first == '+' {
        1
    } else {
        0
    };
    if start >= n {
        return None;
    }
    let mag = scan_dec_digits(s, start, n, usize::MAX as u64);
    let ghost digits = s@.subrange(start as int, n as int);
    proof {
        if start == 1 {
            assert(digits =~= s@.subrange(1, s@.len() as int));
        } else {
            assert(digits =~= s@);
        }
    }
    match mag {
        None => None,
        Some(v) => Some(v as usize),
    }
}

fn scan_hex_digits(s: &str, from: usize, to: usize) -> (r: Option<usize>)
    requires
        from <= to <= s@.len(),
    ensures
        match r {
            Some(v) => {
                &&& all_hex_digits(s@.subrange(from as int, to as int))
                &&& v == hex_value(s@.subrange(from as int, to as int))
            },
            None => {
                let t = s@.subrange(from as int, to as int);
                !all_hex_digits(t) || hex_value(t) > usize::MAX
            },
        },
{
    let ghost whole = s@.subrange(from as int, to as int);
    let mut i: usize = from;
    let mut acc: u128 = 0;
    while i < to
        invariant
            from <= i <= to <= s@.len(),
            whole == s@.subrange(from as int, to as int),
            all_hex_digits(s@.subrange(from as int, i as int)),
            acc == hex_value(s@.subrange(from as int, i as int)),
            acc <= usize::MAX,
        decreases to - i,
    {
        let c = s.get_char(i);
        let cv = c as u32;
        let d: u128 = if 48 <= cv && cv <= 57 {
            (cv - 48) as u128
        } else if 97 <= cv && cv <= 102 {
            (cv - 87) as u128
        } else if 65 <= cv && cv <= 70 {
            (cv - 55) as u128
        } else {
            proof {
                assert(whole[i - from] == s@[i as int]);
                assert(!is_hex_digit(whole[i - from]));
            }
            return None;
        };
        proof {
            assert(s@.subrange(from as int, i + 1).drop_last() =~= s@.subrange(
                from as int,
                i as int,
            ));
            assert(s@.subrange(from as int, i + 1).last() == s@[i as int]);
        }
        let next: u128 = acc * 16 + d;
        if next > usize::MAX as u128 {
            proof {
                assert(hex_value(s@.subrange(from as int, i + 1)) > usize::MAX);
                if all_hex_digits(whole) && hex_value(whole) <= usize::MAX {
                    lemma_hex_value_prefix_le(whole, i + 1 - from, whole.len() as int);
                    assert(whole.subrange(0, i + 1 - from) =~= s@.subrange(from as int, i + 1));
                    assert(whole.subrange(0, whole.len() as int) =~= whole);
                    assert(false);
                }
            }
            return None;
        }
        acc = next;
        i += 1;
    }
    assert(s@.subrange(from as int, to as int) =~= whole);
    Some(acc as usize)
}

/// Equivalent of `usize::from_str_radix(s, 16)`.
pub fn parse_hex_usize(s: &str) -> (r: Option<usize>)
    ensures
        match r {
            Some(v) => spec_parse_hex_usize(s@) == Some(v as int),
            None => spec_parse_hex_usize(s@) is None,
        },
{
    let n = s.unicode_len();
    if n == 0 {
        return None;
    }
    let first = s.get_char(0);
    let start: usize = if first == '+' {
        1
    } else {
        0
    };
    if start >= n {
        return None;
    }
    let mag = scan_hex_digits(s, start, n);
    let ghost digits = s@.subrange(start as int, n as int);
    proof {
        if start == 1 {
            assert(digits =~= s@.subrange(1, s@.len() as int));
        } else {
            assert(digits =~= s@);
        }
    }
    match mag {
        None => None,
        Some(v) => Some(v),
    }
}

// ---------- whitespace tokenization ----------

/// Index of the first non-whitespace character at or after `i`, or the length.
pub open spec fn next_non_wsp(s: Seq<char>, i: int) -> int
    decreases s.len() - i,
{
    if i < 0 || i >= s.len() {
        s.len() as int
    } else if is_wsp_char(s[i]) {
        next_non_wsp(s, i + 1)
    } else {
        i
    }
}

/// Index of the first whitespace character at or after `i`, or the length.
pub open spec fn next_wsp(s: Seq<char>, i: int) -> int
    decreases s.len() - i,
{
    if i < 0 || i >= s.len() {
        s.len() as int
    } else if !is_wsp_char(s[i]) {
        next_wsp(s, i + 1)
    } else {
        i
    }
}

pub proof fn lemma_next_non_wsp_bounds(s: Seq<char>, i: int)
    requires
        0 <= i <= s.len(),
    ensures
        i <= next_non_wsp(s, i) <= s.len(),
        next_non_wsp(s, i) < s.len() ==> !is_wsp_char(s[next_non_wsp(s, i)]),
    decreases s.len() - i,
{
    if i < s.len() && is_wsp_char(s[i]) {
        lemma_next_non_wsp_bounds(s, i + 1);
    }
}

pub proof fn lemma_next_wsp_bounds(s: Seq<char>, i: int)
    requires
        0 <= i <= s.len(),
    ensures
        i <= next_wsp(s, i) <= s.len(),
        next_wsp(s, i) < s.len() ==> is_wsp_char(s[next_wsp(s, i)]),
    decreases s.len() - i,
{
    if i < s.len() && !is_wsp_char(s[i]) {
        lemma_next_wsp_bounds(s, i + 1);
    }
}

/// A scan that saw no whitespace in `[i, e)` and stopped at the end or at a
/// whitespace character has found `next_wsp`.
pub proof fn lemma_next_wsp_scan(s: Seq<char>, i: int, e: int)
    requires
        0 <= i <= e <= s.len(),
        forall|k: int| i <= k < e ==> !is_wsp_char(#[trigger] s[k]),
        e == s.len() || is_wsp_char(s[e]),
    ensures
        next_wsp(s, i) == e,
    decreases e - i,
{
    if i < e {
        lemma_next_wsp_scan(s, i + 1, e);
    }
}

/// The whitespace-separated tokens of `s` starting at index `i`.
pub open spec fn spec_tokens_from(s: Seq<char>, i: int) -> Seq<Seq<char>>
    decreases s.len() - i,
    when 0 <= i <= s.len()
    via spec_tokens_from_decreases
{
    let st = next_non_wsp(s, i);
    if st >= s.len() {
        Seq::empty()
    } else {
        seq![s.subrange(st, next_wsp(s, st))] + spec_tokens_from(s, next_wsp(s, st))
    }
}

#[via_fn]
proof fn spec_tokens_from_decreases(s: Seq<char>, i: int) {
    lemma_next_non_wsp_bounds(s, i);
    let st = next_non_wsp(s, i);
    if st < s.len() {
        assert(!is_wsp_char(s[st]));
        assert(next_wsp(s, st) == next_wsp(s, st + 1));
        lemma_next_wsp_bounds(s, st + 1);
    }
}

/// The whitespace-separated tokens of `s`, as `str::split_whitespace` yields
/// them.
pub open spec fn spec_tokens(s: Seq<char>) -> Seq<Seq<char>> {
    spec_tokens_from(s, 0)
}

/// The views of a sequence of owned strings.
pub open spec fn views_of(v: Seq<String>) -> Seq<Seq<char>> {
    v.map_values(|t: String| t@)
}

/// Executable form of [`is_wsp_char`].
fn is_wsp(c: char) -> (r: bool)
    ensures
        r == is_wsp_char(c),
{
    c == ' ' || c == '\t' || c == '\n' || c == '\r'
}

/// Splits `s` into its whitespace-separated tokens.
pub fn split_whitespace_tokens(s: &str) -> (r: Vec<String>)
    ensures
        views_of(r@) == spec_tokens(s@),
{
    let n = s.unicode_len();
    let mut r: Vec<String> = Vec::new();
    let mut i: usize = 0;
    proof {
        assert(views_of(r@) + spec_tokens_from(s@, 0) =~= spec_tokens(s@));
    }
    while i < n
        invariant
            n == s@.len(),
            0 <= i <= n,
            views_of(r@) + spec_tokens_from(s@, i as int) == spec_tokens(s@),
        decreases n - i,
    {
        if is_wsp(s.get_char(i)) {
            proof {
                assert(next_non_wsp(s@, i as int) == next_non_wsp(s@, i + 1));
                assert(spec_tokens_from(s@, i as int) == spec_tokens_from(s@, i + 1));
            }
            i += 1;
        } else {
            let start = i;
            let mut j = i + 1;
            while j < n && !is_wsp(s.get_char(j))
                invariant
                    n == s@.len(),
                    start < j <= n,
                    forall|k: int| start <= k < j ==> !is_wsp_char(#[trigger] s@[k]),
                decreases n - j,
            {
                j += 1;
            }
            proof {
                lemma_next_wsp_scan(s@, start as int, j as int);
                assert(next_non_wsp(s@, start as int) == start);
            }
            let t = s.substring_char(start, j).to_owned();
            let ghost old_r = r@;
            r.push(t);
            proof {
                assert(views_of(r@) =~= views_of(old_r).push(t@));
                assert(views_of(old_r) + spec_tokens_from(s@, start as int) == spec_tokens(
                    s@,
                ));
                assert(spec_tokens_from(s@, start as int) == seq![
                    s@.subrange(start as int, j as int),
                ] + spec_tokens_from(s@, j as int));
                assert(views_of(r@) + spec_tokens_from(s@, j as int) =~= views_of(old_r)
                    + spec_tokens_from(s@, start as int));
            }
            i = j;
        }
    }
    proof {
        assert(spec_tokens_from(s@, n as int) =~= Seq::<Seq<char>>::empty());
        assert(views_of(r@) + Seq::<Seq<char>>::empty() =~= views_of(r@));
    }
    r
}

// ---------- splitting on a separator character ----------

/// Index of the first occurrence of `sep` at or after `i`, or the length.
pub open spec fn next_sep(s: Seq<char>, sep: char, i: int) -> int
    decreases s.len() - i,
{
    if i < 0 || i >= s.len() {
        s.len() as int
    } else if s[i] == sep {
        i
    } else {
        next_sep(s, sep, i + 1)
    }
}

pub proof fn lemma_next_sep_bounds(s: Seq<char>, sep: char, i: int)
    requires
        0 <= i <= s.len(),
    ensures
        i <= next_sep(s, sep, i) <= s.len(),
    decreases s.len() - i,
{
    if i < s.len() && s[i] != sep {
        lemma_next_sep_bounds(s, sep, i + 1);
    }
}

pub proof fn lemma_next_sep_scan(s: Seq<char>, sep: char, i: int, e: int)
    requires
        0 <= i <= e <= s.len(),
        forall|k: int| i <= k < e ==> #[trigger] s[k] != sep,
        e == s.len() || s[e] == sep,
    ensures
        next_sep(s, sep, i) == e,
    decreases e - i,
{
    if i < e {
        lemma_next_sep_scan(s, sep, i + 1, e);
    }
}

pub open spec fn spec_split_from(s: Seq<char>, sep: char, i: int) -> Seq<Seq<char>>
    decreases s.len() - i,
    when 0 <= i <= s.len()
    via spec_split_from_decreases
{
    let e = next_sep(s, sep, i);
    if e >= s.len() {
        seq![s.subrange(i, s.len() as int)]
    } else {
        seq![s.subrange(i, e)] + spec_split_from(s, sep, e + 1)
    }
}

#[via_fn]
proof fn spec_split_from_decreases(s: Seq<char>, sep: char, i: int) {
    lemma_next_sep_bounds(s, sep, i);
}

/// The fields of `s` separated by `sep`, as `str::split` yields them
/// (an empty input gives one empty field).
pub open spec fn spec_split(s: Seq<char>, sep: char) -> Seq<Seq<char>> {
    spec_split_from(s, sep, 0)
}

/// Splits `s` on the separator character `sep`.
pub fn split_on(s: &str, sep: char) -> (r: Vec<String>)
    ensures
        views_of(r@) == spec_split(s@, sep),
{
    let n = s.unicode_len();
    let mut r: Vec<String> = Vec::new();
    let mut i: usize = 0;
    proof {
        assert(views_of(r@) + spec_split_from(s@, sep, 0) =~= spec_split(s@, sep));
    }
    loop
        invariant_except_break
            views_of(r@) + spec_split_from(s@, sep, i as int) == spec_split(s@, sep),
        invariant
            n == s@.len(),
            0 <= i <= n,
        ensures
            views_of(r@) == spec_split(s@, sep),
        decreases n - i,
    {
        let mut j = i;
        while j < n && s.get_char(j) != sep
            invariant
                n == s@.len(),
                i <= j <= n,
                forall|k: int| i <= k < j ==> #[trigger] s@[k] != sep,
            decreases n - j,
        {
            j += 1;
        }
        proof {
            lemma_next_sep_scan(s@, sep, i as int, j as int);
        }
        let t = s.substring_char(i, j).to_owned();
        let ghost old_r = r@;
        r.push(t);
        proof {
            assert(views_of(r@) =~= views_of(old_r).push(t@));
        }
        if j == n {
            proof {
                assert(spec_split_from(s@, sep, i as int) =~= seq![
                    s@.subrange(i as int, n as int),
                ]);
                assert(views_of(r@) =~= views_of(old_r) + spec_split_from(s@, sep, i as int));
            }
            break;
        }
        proof {
            assert(spec_split_from(s@, sep, i as int) == seq![s@.subrange(i as int, j as int)]
                + spec_split_from(s@, sep, j + 1));
            assert(views_of(r@) + spec_split_from(s@, sep, j + 1) =~= views_of(old_r)
                + spec_split_from(s@, sep, i as int));
        }
        i = j + 1;
    }
    r
}

// ---------- trimming ----------

pub open spec fn trim_start_spec(s: Seq<char>) -> Seq<char>
    decreases s.len(),
{
    if s.len() > 0 && is_wsp_char(s[0]) {
        trim_start_spec(s.drop_first())
    } else {
        s
    }
}

pub open spec fn trim_end_spec(s: Seq<char>) -> Seq<char>
    decreases s.len(),
{
    if s.len() > 0 && is_wsp_char(s.last()) {
        trim_end_spec(s.drop_last())
    } else {
        s
    }
}

/// What `str::trim` removes, over this library's whitespace class.
pub open spec fn spec_trim(s: Seq<char>) -> Seq<char> {
    trim_start_spec(trim_end_spec(s))
}

proof fn lemma_trim_end_prefix(s: Seq<char>, hi: int)
    requires
        0 <= hi <= s.len(),
        hi == 0 || !is_wsp_char(s[hi - 1]),
        forall|k: int| hi <= k < s.len() ==> is_wsp_char(#[trigger] s[k]),
    ensures
        trim_end_spec(s) == s.subrange(0, hi),
    decreases s.len(),
{
    if s.len() == hi {
        assert(s.subrange(0, hi) =~= s);
    } else {
        assert(is_wsp_char(s.last()));
        assert(forall|k: int|
            hi <= k < s.len() - 1 ==> is_wsp_char(#[trigger] s.drop_last()[k]));
        lemma_trim_end_prefix(s.drop_last(), hi);
        assert(s.drop_last().subrange(0, hi) =~= s.subrange(0, hi));
    }
}

proof fn lemma_trim_start_suffix(s: Seq<char>, lo: int)
    requires
        0 <= lo <= s.len(),
        lo == s.len() || !is_wsp_char(s[lo]),
        forall|k: int| 0 <= k < lo ==> is_wsp_char(#[trigger] s[k]),
    ensures
        trim_start_spec(s) == s.subrange(lo, s.len() as int),
    decreases lo,
{
    if lo == 0 {
        assert(s.subrange(0, s.len() as int) =~= s);
        if s.len() > 0 && is_wsp_char(s[0]) {
            assert(false);
        }
    } else {
        assert(is_wsp_char(s[0]));
        let t = s.drop_first();
        assert(forall|k: int| 0 <= k < lo - 1 ==> is_wsp_char(#[trigger] t[k]));
        lemma_trim_start_suffix(t, lo - 1);
        assert(t.subrange(lo - 1, t.len() as int) =~= s.subrange(lo, s.len() as int));
    }
}

/// Equivalent of `str::trim`, over this library's whitespace class.
pub fn trim_str(s: &str) -> (r: String)
    ensures
        r@ == spec_trim(s@),
{
    let n = s.unicode_len();
    let mut hi: usize = n;
    while hi > 0 && is_wsp(s.get_char(hi - 1))
        invariant
            n == s@.len(),
            0 <= hi <= n,
            forall|k: int| hi <= k < n ==> is_wsp_char(#[trigger] s@[k]),
        decreases hi,
    {
        hi -= 1;
    }
    proof {
        lemma_trim_end_prefix(s@, hi as int);
    }
    let ghost t = s@.subrange(0, hi as int);
    let mut lo: usize = 0;
    while lo < hi && is_wsp(s.get_char(lo))
        invariant
            n == s@.len(),
            0 <= lo <= hi <= n,
            t == s@.subrange(0, hi as int),
            forall|k: int| 0 <= k < lo ==> is_wsp_char(#[trigger] t[k]),
        decreases hi - lo,
    {
        lo += 1;
    }
    proof {
        lemma_trim_start_suffix(t, lo as int);
        assert(t.subrange(lo as int, t.len() as int) =~= s@.subrange(lo as int, hi as int));
    }
    s.substring_char(lo, hi).to_owned()
}

// ---------- substring search ----------

pub open spec fn match_at(s: Seq<char>, pat: Seq<char>, i: int) -> bool {
    0 <= i && i + pat.len() <= s.len() && s.subrange(i, i + pat.len()) == pat
}

/// Whether `pat` occurs in `s`, as `str::contains` decides it.
pub open spec fn contains_seq(s: Seq<char>, pat: Seq<char>) -> bool {
    exists|i: int| match_at(s, pat, i)
}

/// Whether `pat` matches the characters of `s` starting at `i`.
fn matches_at(s: &str, pat: &str, i: usize) -> (r: bool)
    requires
        i + pat@.len() <= s@.len(),
    ensures
        r == match_at(s@, pat@, i as int),
{
    let m = pat.unicode_len();
    let n = s.unicode_len();
    let mut j: usize = 0;
    while j < m && s.get_char(i + j) == pat.get_char(j)
        invariant
            m == pat@.len(),
            n == s@.len(),
            i + m <= n,
            0 <= j <= m,
            forall|k: int| 0 <= k < j ==> s@[i + k] == pat@[k],
        decreases m - j,
    {
        j += 1;
    }
    if j == m {
        proof {
            assert(s@.subrange(i as int, i + m) =~= pat@);
        }
        true
    } else {
        proof {
            assert(s@[i + j] != pat@[j as int]);
            assert(s@.subrange(i as int, i + m)[j as int] == s@[i + j]);
            assert(!match_at(s@, pat@, i as int));
        }
        false
    }
}

pub fn contains_str(s: &str, pat: &str) -> (r: bool)
    ensures
        r == contains_seq(s@, pat@),
{
    let n = s.unicode_len();
    let m = pat.unicode_len();
    if m > n {
        proof {
            assert(forall|i: int| !match_at(s@, pat@, i));
        }
        return false;
    }
    if m == 0 {
        proof {
            assert(s@.subrange(0, 0) =~= pat@);
            assert(match_at(s@, pat@, 0));
        }
        return true;
    }
    let mut i: usize = 0;
    while i <= n - m
        invariant
            n == s@.len(),
            m == pat@.len(),
            0 < m <= n,
            0 <= i <= n - m + 1,
            forall|i2: int| 0 <= i2 < i ==> !match_at(s@, pat@, i2),
        decreases n - i,
    {
        if matches_at(s, pat, i) {
            return true;
        }
        i += 1;
    }
    proof {
        assert(forall|i2: int| match_at(s@, pat@, i2) ==> 0 <= i2 <= n - m);
    }
    false
}

// ---------- joining ----------

/// The tokens joined with single spaces, as `[T]::join(" ")` builds it.
pub open spec fn spec_join_sp(parts: Seq<Seq<char>>) -> Seq<char>
    decreases parts.len(),
{
    if parts.len() == 0 {
        Seq::empty()
    } else if parts.len() == 1 {
        parts[0]
    } else {
        spec_join_sp(parts.drop_last()) + seq![' '] + parts.last()
    }
}

/// Joins `parts[from..]` with single spaces.
pub fn join_from(parts: &Vec<String>, from: usize) -> (r: String)
    requires
        from <= parts@.len(),
    ensures
        r@ == spec_join_sp(views_of(parts@).subrange(from as int, parts@.len() as int)),
{
    let n = parts.len();
    let mut out = String::new();
    let mut i = from;
    proof {
        assert(views_of(parts@).subrange(from as int, from as int) =~= Seq::<Seq<char>>::empty());
    }
    while i < n
        invariant
            from <= i <= n,
            n == parts@.len(),
            out@ == spec_join_sp(views_of(parts@).subrange(from as int, i as int)),
        decreases n - i,
    {
        let ghost pre = views_of(parts@).subrange(from as int, i as int);
        let ghost post = views_of(parts@).subrange(from as int, i + 1);
        proof {
            assert(post.drop_last() =~= pre);
            assert(post.last() == parts@[i as int]@);
            reveal_strlit(" ");
        }
        if i > from {
            out.append(" ");
        }
        out.append(parts[i].as_str());
        proof {
            if pre.len() == 0 {
                assert(spec_join_sp(post) == post[0]);
                assert(out@ =~= spec_join_sp(post));
            } else {
                assert(spec_join_sp(post) == spec_join_sp(pre) + seq![' '] + post.last());
                assert(" "@ =~= seq![' ']);
                assert(out@ =~= spec_join_sp(post));
            }
        }
        i += 1;
    }
    out
}

// ---------- hex prefix stripping ----------

/// What `str::trim_start_matches("0x")` leaves: every leading `0x` removed.
pub open spec fn spec_strip_hex_prefix(s: Seq<char>) -> Seq<char>
    decreases s.len(),
{
    if s.len() >= 2 && s[0] == '0' && s[1] == 'x' {
        spec_strip_hex_prefix(s.subrange(2, s.len() as int))
    } else {
        s
    }
}

/// Equivalent of `str::trim_start_matches("0x")`.
pub fn strip_hex_prefix(s: &str) -> (r: String)
    ensures
        r@ == spec_strip_hex_prefix(s@),
{
    let n = s.unicode_len();
    let mut i: usize = 0;
    proof {
        assert(s@.subrange(0, n as int) =~= s@);
    }
    while n - i >= 2 && s.get_char(i) == '0' && s.get_char(i + 1) == 'x'
        invariant
            n == s@.len(),
            0 <= i <= n,
            spec_strip_hex_prefix(s@) == spec_strip_hex_prefix(s@.subrange(i as int, n as int)),
        decreases n - i,
    {
        proof {
            let t = s@.subrange(i as int, n as int);
            assert(t[0] == s@[i as int] && t[1] == s@[i + 1]);
            assert(t.subrange(2, t.len() as int) =~= s@.subrange(i + 2, n as int));
        }
        i += 2;
    }
    proof {
        let t = s@.subrange(i as int, n as int);
        if t.len() >= 2 && t[0] == '0' && t[1] == 'x' {
            assert(s@[i as int] == '0' && s@[i + 1] == 'x');
            assert(false);
        }
    }
    s.substring_char(i, n).to_owned()
}

// ---------- decimal rendering ----------

pub open spec fn spec_digit_char(d: int) -> char {
    if d == 0 {
        '0'
    } else if d == 1 {
        '1'
    } else if d == 2 {
        '2'
    } else if d == 3 {
        '3'
    } else if d == 4 {
        '4'
    } else if d == 5 {
        '5'
    } else if d == 6 {
        '6'
    } else if d == 7 {
        '7'
    } else if d == 8 {
        '8'
    } else {
        '9'
    }
}

/// The decimal rendering of a non-negative integer.
pub open spec fn dec_string_of(n: int) -> Seq<char>
    decreases n,
{
    if n < 10 {
        seq![spec_digit_char(n)]
    } else {
        dec_string_of(n / 10).push(spec_digit_char(n % 10))
    }
}

/// The decimal rendering of a signed integer.
pub open spec fn int_string_of(v: int) -> Seq<char> {
    if v < 0 {
        seq!['-'] + dec_string_of(-v)
    } else {
        dec_string_of(v)
    }
}

fn digit_str(d: u8) -> (r: &'static str)
    requires
        d < 10,
    ensures
        r@ == seq![spec_digit_char(d as int)],
{
    if d == 0 {
        proof {
            reveal_strlit("0");
        }
        assert("0"@ =~= seq![spec_digit_char(0)]);
        "0"
    } else if d == 1 {
        proof {
            reveal_strlit("1");
        }
        assert("1"@ =~= seq![spec_digit_char(1)]);
        "1"
    } else if d == 2 {
        proof {
            reveal_strlit("2");
        }
        assert("2"@ =~= seq![spec_digit_char(2)]);
        "2"
    } else if d == 3 {
        proof {
            reveal_strlit("3");
        }
        assert("3"@ =~= seq![spec_digit_char(3)]);
        "3"
    } else if d == 4 {
        proof {
            reveal_strlit("4");
        }
        assert("4"@ =~= seq![spec_digit_char(4)]);
        "4"
    } else if d == 5 {
        proof {
            reveal_strlit("5");
        }
        assert("5"@ =~= seq![spec_digit_char(5)]);
        "5"
    } else if d == 6 {
        proof {
            reveal_strlit("6");
        }
        assert("6"@ =~= seq![spec_digit_char(6)]);
        "6"
    } else if d == 7 {
        proof {
            reveal_strlit("7");
        }
        assert("7"@ =~= seq![spec_digit_char(7)]);
        "7"
    } else if d == 8 {
        proof {
            reveal_strlit("8");
        }
        assert("8"@ =~= seq![spec_digit_char(8)]);
        "8"
    } else {
        proof {
            reveal_strlit("9");
        }
        assert("9"@ =~= seq![spec_digit_char(9)]);
        "9"
    }
}

fn push_dec_digits(n: u64, out: &mut String)
    ensures
        final(out)@ == old(out)@ + dec_string_of(n as int),
    decreases n,
{
    if n >= 10 {
        push_dec_digits(n / 10, out);
    }
    let d = digit_str((n % 10) as u8);
    out.append(d);
    proof {
        if n >= 10 {
            assert(dec_string_of(n as int) == dec_string_of(n as int / 10).push(
                spec_digit_char(n as int % 10),
            ));
            assert(old(out)@ + dec_string_of(n as int) =~= old(out)@ + dec_string_of(
                n as int / 10,
            ) + d@);
        } else {
            assert(dec_string_of(n as int) =~= seq![spec_digit_char(n as int)]);
            assert(old(out)@ + dec_string_of(n as int) =~= old(out)@ + d@);
        }
    }
}

/// The decimal rendering of `n`, as `usize` formats itself.
pub fn usize_to_string(n: usize) -> (r: String)
    ensures
        r@ == dec_string_of(n as int),
{
    let mut out = String::new();
    push_dec_digits(n as u64, &mut out);
    proof {
        assert(Seq::<char>::empty() + dec_string_of(n as int) =~= dec_string_of(n as int));
    }
    out
}

/// The decimal rendering of `x`, as `i32` formats itself.
pub fn i32_to_string(x: i32) -> (r: String)
    ensures
        r@ == int_string_of(x as int),
{
    let mut out = String::new();
    if x < 0 {
        proof {
            reveal_strlit("-");
        }
        out.append("-");
        let mag: u64 = (-(x as i64)) as u64;
        push_dec_digits(mag, &mut out);
        proof {
            assert("-"@ =~= seq!['-']);
            assert(Seq::<char>::empty() + "-"@ + dec_string_of(mag as int) =~= int_string_of(
                x as int,
            ));
        }
    } else {
        push_dec_digits(x as u64, &mut out);
        proof {
            assert(Seq::<char>::empty() + dec_string_of(x as int) =~= int_string_of(x as int));
        }
    }
    out
}

} // verus!
