//! Character-level helpers shared by the parser and the executor: whitespace
//! classification, locating a character in a string, trimming, unsigned
//! decimal parsing, and decimal rendering of signed integers.

use vstd::prelude::*;

verus! {

/// Whether `c` has the Unicode `White_Space` property, the set that
/// `str::trim` removes at both ends of a string.
pub open spec fn is_space_char(c: char) -> bool {
    let u = c as u32;
    (9 <= u && u <= 13) || u == 32 || u == 0x85 || u == 0xA0 || u == 0x1680
        || (0x2000 <= u && u <= 0x200A) || u == 0x2028 || u == 0x2029 || u == 0x202F
        || u == 0x205F || u == 0x3000
}

/// Runtime test for [`is_space_char`].
pub fn is_space(c: char) -> (b: bool)
    ensures
        b == is_space_char(c),
{
    let u = c as u32;
    (9 <= u && u <= 13) || u == 32 || u == 0x85 || u == 0xA0 || u == 0x1680
        || (0x2000 <= u && u <= 0x200A) || u == 0x2028 || u == 0x2029 || u == 0x202F
        || u == 0x205F || u == 0x3000
}

/// Index of the first occurrence of `c` in `s`, or `-1` if `c` does not occur.
pub open spec fn spec_find(s: Seq<char>, c: char) -> int
    decreases s.len(),
{
    if s.len() == 0 {
        -1
    } else if s[0] == c {
        0
    } else {
        let r = spec_find(s.subrange(1, s.len() as int), c);
        if r < 0 {
            -1
        } else {
            r + 1
        }
    }
}

/// `spec_find` returns `-1` exactly when `c` is absent, and otherwise the
/// least index holding `c`.
pub proof fn lemma_find_char(s: Seq<char>, c: char)
    ensures
        spec_find(s, c) == -1 ==> forall|i: int| 0 <= i < s.len() ==> s[i] != c,
        spec_find(s, c) != -1 ==> 0 <= spec_find(s, c) < s.len() && s[spec_find(s, c)] == c
            && forall|i: int| 0 <= i < spec_find(s, c) ==> s[i] != c,
    decreases s.len(),
{
    if s.len() == 0 {
    } else if s[0] == c {
    } else {
        let tail = s.subrange(1, s.len() as int);
        lemma_find_char(tail, c);
        assert(forall|i: int| 0 <= i < tail.len() ==> tail[i] == s[i + 1]);
        let r = spec_find(tail, c);
        if r == -1 {
            assert forall|i: int| 0 <= i < s.len() implies s[i] != c by {
                if i >= 1 {
                    assert(tail[i - 1] == s[i]);
                }
            }
        } else {
            assert(s[r + 1] == tail[r]);
            assert forall|i: int| 0 <= i < r + 1 implies s[i] != c by {
                if i >= 1 {
                    assert(tail[i - 1] == s[i]);
                }
            }
        }
    }
}

/// If `i` is an index holding `c` and no earlier index does, then
/// `spec_find` returns `i`.
pub proof fn lemma_find_at(s: Seq<char>, c: char, i: int)
    requires
        0 <= i < s.len(),
        s[i] == c,
        forall|j: int| 0 <= j < i ==> s[j] != c,
    ensures
        spec_find(s, c) == i,
    decreases s.len(),
{
    if i == 0 {
    } else {
        let tail = s.subrange(1, s.len() as int);
        assert(forall|j: int| 0 <= j < tail.len() ==> tail[j] == s[j + 1]);
        lemma_find_at(tail, c, i - 1);
    }
}

/// If `c` occurs nowhere in `s`, `spec_find` returns `-1`.
pub proof fn lemma_find_none(s: Seq<char>, c: char)
    requires
        forall|j: int| 0 <= j < s.len() ==> s[j] != c,
    ensures
        spec_find(s, c) == -1,
    decreases s.len(),
{
    if s.len() > 0 {
        let tail = s.subrange(1, s.len() as int);
        assert(forall|j: int| 0 <= j < tail.len() ==> tail[j] == s[j + 1]);
        lemma_find_none(tail, c);
    }
}

/// First occurrence of `c` in `s`, as `str::find` reports it, counted in
/// characters.
pub fn find_char(s: &str, c: char) -> (r: Option<usize>)
    ensures
        match r {
            Some(i) => i == spec_find(s@, c) && i < s@.len() && s@[i as int] == c,
            None => spec_find(s@, c) == -1,
        },
{
    let n = s.unicode_len();
    let mut i: usize = 0;
    while i < n
        invariant
            n == s@.len(),
            0 <= i <= n,
            forall|j: int| 0 <= j < i ==> s@[j] != c,
        decreases n - i,
    {
        if s.get_char(i) == c {
            proof {
                lemma_find_at(s@, c, i as int);
            }
            return Some(i);
        }
        i = i + 1;
    }
    proof {
        lemma_find_none(s@, c);
    }
    None
}

/// Index of the last occurrence of `c` in `s`, or `-1` if `c` does not occur.
pub open spec fn spec_rfind(s: Seq<char>, c: char) -> int
    decreases s.len(),
{
    if s.len() == 0 {
        -1
    } else if s[s.len() - 1] == c {
        s.len() - 1
    } else {
        spec_rfind(s.subrange(0, s.len() - 1), c)
    }
}

/// If `i` is an index holding `c` and no later index does, then
/// `spec_rfind` returns `i`.
pub proof fn lemma_rfind_at(s: Seq<char>, c: char, i: int)
    requires
        0 <= i < s.len(),
        s[i] == c,
        forall|j: int| i < j < s.len() ==> s[j] != c,
    ensures
        spec_rfind(s, c) == i,
    decreases s.len(),
{
    if i == s.len() - 1 {
    } else {
        let front = s.subrange(0, s.len() - 1);
        assert(forall|j: int| 0 <= j < front.len() ==> front[j] == s[j]);
        lemma_rfind_at(front, c, i);
    }
}

/// If `c` occurs nowhere in `s`, `spec_rfind` returns `-1`.
pub proof fn lemma_rfind_none(s: Seq<char>, c: char)
    requires
        forall|j: int| 0 <= j < s.len() ==> s[j] != c,
    ensures
        spec_rfind(s, c) == -1,
    decreases s.len(),
{
    if s.len() > 0 {
        let front = s.subrange(0, s.len() - 1);
        assert(forall|j: int| 0 <= j < front.len() ==> front[j] == s[j]);
        lemma_rfind_none(front, c);
    }
}

/// Last occurrence of `c` in `s`, counted in characters.
pub fn rfind_char(s: &str, c: char) -> (r: Option<usize>)
    ensures
        match r {
            Some(i) => i == spec_rfind(s@, c) && i < s@.len() && s@[i as int] == c,
            None => spec_rfind(s@, c) == -1,
        },
{
    let n = s.unicode_len();
    let mut i: usize = n;
    while i > 0
        invariant
            n == s@.len(),
            0 <= i <= n,
            forall|j: int| i <= j < n ==> s@[j] != c,
        decreases i,
    {
        i = i - 1;
        if s.get_char(i) == c {
            proof {
                lemma_rfind_at(s@, c, i as int);
            }
            return Some(i);
        }
    }
    proof {
        lemma_rfind_none(s@, c);
    }
    None
}

/// `s` with leading and trailing whitespace removed, as `str::trim` leaves it.
pub open spec fn spec_trim(s: Seq<char>) -> Seq<char>
    decreases s.len(),
{
    if s.len() == 0 {
        s
    } else if is_space_char(s[0]) {
        spec_trim(s.subrange(1, s.len() as int))
    } else if is_space_char(s[s.len() - 1]) {
        spec_trim(s.subrange(0, s.len() - 1))
    } else {
        s
    }
}

/// `spec_trim` keeps exactly the span `[lo, hi)` when everything outside it
/// is whitespace and, if the span is not empty, neither of its ends is.
pub proof fn lemma_trim_span(s: Seq<char>, lo: int, hi: int)
    requires
        0 <= lo <= hi <= s.len(),
        forall|i: int| 0 <= i < lo ==> is_space_char(s[i]),
        forall|i: int| hi <= i < s.len() ==> is_space_char(s[i]),
        lo < hi ==> !is_space_char(s[lo]) && !is_space_char(s[hi - 1]),
    ensures
        spec_trim(s) == s.subrange(lo, hi),
    decreases s.len(),
{
    if s.len() == 0 {
        assert(spec_trim(s) =~= s.subrange(lo, hi));
    } else if is_space_char(s[0]) {
        let tail = s.subrange(1, s.len() as int);
        assert(forall|i: int| 0 <= i < tail.len() ==> tail[i] == s[i + 1]);
        if lo == hi {
            lemma_trim_span(tail, 0, 0);
            assert(spec_trim(s) =~= s.subrange(lo, hi));
        } else {
            assert(lo >= 1);
            lemma_trim_span(tail, lo - 1, hi - 1);
            assert(tail.subrange(lo - 1, hi - 1) =~= s.subrange(lo, hi));
        }
    } else if is_space_char(s[s.len() - 1]) {
        let front = s.subrange(0, s.len() - 1);
        assert(forall|i: int| 0 <= i < front.len() ==> front[i] == s[i]);
        if lo == hi {
            assert(lo <= s.len() - 1);
            lemma_trim_span(front, lo, lo);
            assert(front.subrange(lo, lo) =~= s.subrange(lo, hi));
        } else {
            assert(hi <= s.len() - 1);
            lemma_trim_span(front, lo, hi);
            assert(front.subrange(lo, hi) =~= s.subrange(lo, hi));
        }
    } else {
        assert(lo == 0 && hi == s.len());
        assert(spec_trim(s) =~= s.subrange(lo, hi));
    }
}

/// `s` with surrounding whitespace removed, counted in characters.
pub fn trim(s: &str) -> (r: &str)
    ensures
        r@ == spec_trim(s@),
{
    let n = s.unicode_len();
    let mut lo: usize = 0;
    while lo < n && is_space(s.get_char(lo))
        invariant
            n == s@.len(),
            0 <= lo <= n,
            forall|i: int| 0 <= i < lo ==> is_space_char(s@[i]),
        decreases n - lo,
    {
        lo = lo + 1;
    }
    if lo == n {
        proof {
            lemma_trim_span(s@, n as int, n as int);
        }
        return s.substring_char(n, n);
    }
    let mut hi: usize = n;
    while hi > lo && is_space(s.get_char(hi - 1))
        invariant
            n == s@.len(),
            lo <= hi <= n,
            forall|i: int| hi <= i < n ==> is_space_char(s@[i]),
        decreases hi,
    {
        hi = hi - 1;
    }
    proof {
        lemma_trim_span(s@, lo as int, hi as int);
    }
    s.substring_char(lo, hi)
}

/// Whether `c` is an ASCII decimal digit.
pub open spec fn is_digit_char(c: char) -> bool {
    48 <= c as u32 <= 57
}

/// Numeric value of the digit `c`.
pub open spec fn digit_val(c: char) -> nat {
    (c as u32 - 48) as nat
}

/// Whether every character of `s` is an ASCII decimal digit.
pub open spec fn all_digits(s: Seq<char>) -> bool {
    forall|i: int| 0 <= i < s.len() ==> is_digit_char(s[i])
}

/// Value of the digit string `s` read in base 10.
pub open spec fn digits_val(s: Seq<char>) -> nat
    decreases s.len(),
{
    if s.len() == 0 {
        0
    } else {
        digits_val(s.subrange(0, s.len() - 1)) * 10 + digit_val(s[s.len() - 1])
    }
}

/// The value a digit string denotes never shrinks as the string grows to the
/// right.
pub proof fn lemma_digits_val_prefix(s: Seq<char>, k: int)
    requires
        0 <= k <= s.len(),
    ensures
        digits_val(s) >= digits_val(s.subrange(0, k)),
    decreases s.len() - k,
{
    if k < s.len() {
        lemma_digits_val_prefix(s, k + 1);
        let p1 = s.subrange(0, k + 1);
        assert(p1.subrange(0, k) =~= s.subrange(0, k));
        assert(digits_val(p1) == digits_val(s.subrange(0, k)) * 10 + digit_val(p1[k]));
        assert(digits_val(s.subrange(0, k)) * 10 >= digits_val(s.subrange(0, k))) by (nonlinear_arith);
    } else {
        assert(s.subrange(0, k) =~= s);
    }
}

/// The unsigned base-10 integer `s` denotes, if it is well formed: an
/// optional leading `+` followed by at least one digit, as the standard
/// library's unsigned `from_str` accepts it.  The value is unbounded here;
/// each caller bounds it by the range of its own integer type.
pub open spec fn spec_parse_uint(s: Seq<char>) -> Option<nat> {
    let t = if s.len() > 0 && s[0] == '+' {
        s.subrange(1, s.len() as int)
    } else {
        s
    };
    if t.len() > 0 && all_digits(t) {
        Some(digits_val(t))
    } else {
        None
    }
}

/// Parses `s` as an unsigned base-10 integer no greater than `bound`.
/// Returns `None` both when `s` is malformed and when its value would
/// exceed `bound`.
pub fn parse_uint_bounded(s: &str, bound: u64) -> (r: Option<u64>)
    ensures
        match spec_parse_uint(s@) {
            Some(v) => if v <= bound {
                r == Some(v as u64)
            } else {
                r is None
            },
            None => r is None,
        },
{
    let n = s.unicode_len();
    let start: usize = if n > 0 && s.get_char(0) == '+' {
        1
    } else {
        0
    };
    let ghost t = if s@.len() > 0 && s@[0] == '+' {
        s@.subrange(1, s@.len() as int)
    } else {
        s@
    };
    proof {
        assert(forall|i: int| 0 <= i < t.len() ==> t[i] == s@[i + start]);
    }
    if start == n {
        return None;
    }
    let mut acc: u64 = 0;
    let mut i: usize = start;
    while i < n
        invariant
            n == s@.len(),
            start <= i <= n,
            start == if s@.len() > 0 && s@[0] == '+' { 1int } else { 0int },
            t == if s@.len() > 0 && s@[0] == '+' { s@.subrange(1, s@.len() as int) } else { s@ },
            forall|j: int| 0 <= j < i - start ==> is_digit_char(t[j]),
            acc == digits_val(t.subrange(0, i - start)),
            acc <= bound,
        decreases n - i,
    {
        let c = s.get_char(i);
        let u = c as u32;
        proof {
            assert(t[i - start] == s@[i as int]);
        }
        if !(48 <= u && u <= 57) {
            return None;
        }
        let d: u64 = (u - 48) as u64;
        proof {
            let p1 = t.subrange(0, i - start + 1);
            assert(p1.subrange(0, i - start) =~= t.subrange(0, i - start));
            assert(digits_val(p1) == acc * 10 + d);
        }
        if acc > bound / 10 {
            proof {
                lemma_digits_val_prefix(t, i - start + 1);
                assert(bound / 10 * 10 + bound % 10 == bound);
            }
            return None;
        }
        proof {
            assert(acc * 10 <= bound / 10 * 10);
            assert(bound / 10 * 10 + bound % 10 == bound);
        }
        let acc10: u64 = acc * 10;
        if d > bound - acc10 {
            proof {
                lemma_digits_val_prefix(t, i - start + 1);
            }
            return None;
        }
        acc = acc10 + d;
        i = i + 1;
    }
    proof {
        assert(t.subrange(0, n - start) =~= t);
    }
    Some(acc)
}

/// The character for digit `d`.
pub open spec fn digit_char(d: int) -> char {
    if d == 0 {
        '0'
    } else if d == 1 {
        '1'
    } else if d == 2 {
        '2'
    } else if d == 3 {
        '3'
    } else if d == 4 {
        '4'
    } else if d == 5 {
        '5'
    } else if d == 6 {
        '6'
    } else if d == 7 {
        '7'
    } else if d == 8 {
        '8'
    } else {
        '9'
    }
}

/// Base-10 rendering of `n`, without sign and without leading zeros (except
/// for `n == 0` itself).
pub open spec fn dec_digits(n: nat) -> Seq<char>
    decreases n,
{
    if n < 10 {
        seq![digit_char(n as int)]
    } else {
        dec_digits(n / 10) + seq![digit_char((n % 10) as int)]
    }
}

/// Base-10 rendering of the signed value `v`, with a leading `-` when it is
/// negative, as the standard formatter prints a signed integer.
pub open spec fn dec_int(v: int) -> Seq<char> {
    if v < 0 {
        seq!['-'] + dec_digits((-v) as nat)
    } else {
        dec_digits(v as nat)
    }
}

fn digit_to_char(d: u64) -> (c: char)
    requires
        d < 10,
    ensures
        c == digit_char(d as int),
{
    match d {
        0 => '0',
        1 => '1',
        2 => '2',
        3 => '3',
        4 => '4',
        5 => '5',
        6 => '6',
        7 => '7',
        8 => '8',
        _ => '9',
    }
}

fn dec_u64(n: u64) -> (v: Vec<char>)
    ensures
        v@ == dec_digits(n as nat),
    decreases n,
{
    if n < 10 {
        let mut v: Vec<char> = Vec::new();
        v.push(digit_to_char(n));
        proof {
            assert(v@ =~= dec_digits(n as nat));
        }
        v
    } else {
        let mut v = dec_u64(n / 10);
        v.push(digit_to_char(n % 10));
        proof {
            assert(v@ =~= dec_digits(n as nat));
        }
        v
    }
}

/// Relies on `String::push`, which appends the given character to the end of
/// the string.
pub assume_specification[ String::push ](s: &mut String, c: char)
    ensures
        final(s)@ == old(s)@.push(c),
;

/// Relies on `String::push_str`, which appends the given string slice onto
/// the end of the string.
pub assume_specification[ String::push_str ](s: &mut String, piece: &str)
    ensures
        final(s)@ == old(s)@ + piece@,
;

/// Renders `v` in base 10, as the standard formatter would print it.
pub fn i64_to_string(v: i64) -> (s: String)
    ensures
        s@ == dec_int(v as int),
{
    let neg = v < 0;
    let mag: u64 = if v == i64::MIN {
        9223372036854775808u64
    } else if v < 0 {
        (-v) as u64
    } else {
        v as u64
    };
    let digits = dec_u64(mag);
    let mut s = String::new();
    if neg {
        s.push('-');
    }
    let ghost prefix = s@;
    let mut i: usize = 0;
    while i < digits.len()
        invariant
            s@ == prefix + digits@.subrange(0, i as int),
            0 <= i <= digits.len(),
        decreases digits.len() - i,
    {
        s.push(digits[i]);
        proof {
            assert(prefix + digits@.subrange(0, i as int) + seq![digits@[i as int]] =~= prefix
                + digits@.subrange(0, i + 1));
        }
        i = i + 1;
    }
    proof {
        assert(digits@.subrange(0, digits@.len() as int) =~= digits@);
        assert(s@ =~= dec_int(v as int));
    }
    s
}

} // verus!
