//! Byte-string helpers: digit values, unsigned-integer parsing in a given
//! base, hexadecimal decoding, and small sequence utilities. Everything
//! works on plain byte vectors, the form in which callers hand in table
//! lines, directory-entry names and symlink targets.

use vstd::prelude::*;

verus! {

/// ASCII whitespace: the separator between table fields, and what is
/// trimmed from the end of a command name.
pub open spec fn is_ws(c: u8) -> bool {
    c == 32 || c == 9 || c == 10 || c == 13 || c == 11 || c == 12
}

pub fn is_whitespace(c: u8) -> (r: bool)
    ensures
        r == is_ws(c),
{
    c == 32 || c == 9 || c == 10 || c == 13 || c == 11 || c == 12
}

/// The value of an ASCII hexadecimal digit. Characters that are no such
/// digit count as zero, which keeps positional values non-negative.
pub open spec fn digit_value(c: u8) -> int {
    if 48 <= c && c <= 57 {
        c - 48
    } else if 97 <= c && c <= 102 {
        c - 87
    } else if 65 <= c && c <= 70 {
        c - 55
    } else {
        0
    }
}

/// Whether `c` is a digit of the given base; bases up to 16 use the usual
/// hexadecimal digits in either case.
pub open spec fn is_base_digit(c: u8, base: int) -> bool {
    ((48 <= c && c <= 57) || (97 <= c && c <= 102) || (65 <= c && c <= 70)) && digit_value(c)
        < base
}

pub open spec fn all_base_digits(s: Seq<u8>, base: int) -> bool {
    forall|i: int| 0 <= i < s.len() ==> is_base_digit(#[trigger] s[i], base)
}

/// The unsigned value of a digit string, most-significant digit first.
pub open spec fn value_in_base(s: Seq<u8>, base: int) -> int
    decreases s.len(),
{
    if s.len() == 0 {
        0
    } else {
        value_in_base(s.drop_last(), base) * base + digit_value(s.last())
    }
}

pub proof fn lemma_value_nonneg(s: Seq<u8>, base: int)
    requires
        base >= 1,
    ensures
        value_in_base(s, base) >= 0,
    decreases s.len(),
{
    if s.len() > 0 {
        lemma_value_nonneg(s.drop_last(), base);
        let v = value_in_base(s.drop_last(), base);
        assert(v * base >= 0) by (nonlinear_arith)
            requires
                v >= 0,
                base >= 1,
        ;
    }
}

/// A digit string's value only grows as digits are appended at the end.
pub proof fn lemma_value_prefix_le(s: Seq<u8>, k: int, base: int)
    requires
        base >= 1,
        0 <= k <= s.len(),
    ensures
        value_in_base(s.take(k), base) <= value_in_base(s, base),
    decreases s.len(),
{
    if k == s.len() {
        assert(s.take(k) =~= s);
    } else {
        let head = s.drop_last();
        assert(s.take(k) =~= head.take(k));
        lemma_value_prefix_le(head, k, base);
        lemma_value_nonneg(head, base);
        let v = value_in_base(head, base);
        assert(v * base >= v) by (nonlinear_arith)
            requires
                v >= 0,
                base >= 1,
        ;
    }
}

/// The parse of a digit string as an unsigned integer of at most `max`:
/// defined exactly when the string is non-empty, all of its characters
/// are digits of `base`, and the value fits.
pub open spec fn spec_parse_uint(s: Seq<u8>, base: int, max: int) -> Option<int> {
    if s.len() > 0 && all_base_digits(s, base) && value_in_base(s, base) <= max {
        Some(value_in_base(s, base))
    } else {
        None
    }
}

/// The value of `c` as a digit of `base`, if it is one.
pub fn digit_of(c: u8, base: u64) -> (r: Option<u8>)
    requires
        2 <= base <= 16,
    ensures
        r matches Some(d) ==> is_base_digit(c, base as int) && d == digit_value(c),
        r is None ==> !is_base_digit(c, base as int),
{
    let d: u8 = if 48 <= c && c <= 57 {
        c - 48
    } else if 97 <= c && c <= 102 {
        c - 87
    } else if 65 <= c && c <= 70 {
        c - 55
    } else {
        255
    };
    if (d as u64) < base {
        Some(d)
    } else {
        None
    }
}

pub fn all_digits_in_base(s: &Vec<u8>, base: u64) -> (r: bool)
    requires
        2 <= base <= 16,
    ensures
        r == all_base_digits(s@, base as int),
{
    let mut i: usize = 0;
    while i < s.len()
        invariant
            2 <= base <= 16,
            0 <= i <= s@.len(),
            forall|j: int| 0 <= j < i ==> is_base_digit(#[trigger] s@[j], base as int),
        decreases s@.len() - i,
    {
        if digit_of(s[i], base).is_none() {
            return false;
        }
        i = i + 1;
    }
    true
}

/// Parses a digit string as an unsigned integer, most-significant digit
/// first. Returns the value exactly when the string is non-empty, all of
/// its characters are digits of `base`, and the value is at most `max`.
pub fn parse_uint(s: &Vec<u8>, base: u64, max: u64) -> (r: Option<u64>)
    requires
        2 <= base <= 16,
        max <= 0xFFFF_FFFF,
    ensures
        r matches Some(v) ==> spec_parse_uint(s@, base as int, max as int) == Some(v as int),
        r is None ==> spec_parse_uint(s@, base as int, max as int) is None,
{
    if s.len() == 0 {
        return None;
    }
    let mut v: u64 = 0;
    let mut i: usize = 0;
    while i < s.len()
        invariant
            2 <= base <= 16,
            max <= 0xFFFF_FFFF,
            0 <= i <= s@.len(),
            all_base_digits(s@.take(i as int), base as int),
            v == value_in_base(s@.take(i as int), base as int),
            v <= max,
        decreases s@.len() - i,
    {
        let c = s[i];
        let d = match digit_of(c, base) {
            Some(d) => d,
            None => {
                assert(!is_base_digit(s@[i as int], base as int));
                return None;
            },
        };
        assert(v * base <= 0xFFFF_FFFF * 16) by (nonlinear_arith)
            requires
                0 <= v <= 0xFFFF_FFFF,
                0 <= base <= 16,
        ;
        let nv: u64 = v * base + (d as u64);
        proof {
            assert(s@.take(i as int + 1).drop_last() =~= s@.take(i as int));
            assert(s@.take(i as int + 1).last() == s@[i as int]);
            assert(forall|j: int|
                0 <= j < i as int + 1 ==> is_base_digit(#[trigger] s@.take(i as int + 1)[j],
                    base as int));
        }
        if nv > max {
            proof {
                lemma_value_prefix_le(s@, i as int + 1, base as int);
            }
            return None;
        }
        v = nv;
        i = i + 1;
    }
    proof {
        assert(s@.take(s@.len() as int) =~= s@);
    }
    Some(v)
}

/// The raw bytes spelled by an even-length hexadecimal string, two digits
/// per byte, most-significant first.
pub open spec fn spec_hex_decode(s: Seq<u8>) -> Seq<u8> {
    Seq::new((s.len() / 2) as nat, |i: int| (digit_value(s[2 * i]) * 16 + digit_value(s[2 * i + 1])) as u8)
}

/// Decodes an even-length hexadecimal string into its raw bytes. `None`
/// exactly when some character is not a hexadecimal digit.
pub fn hex_decode(s: &Vec<u8>) -> (r: Option<Vec<u8>>)
    requires
        s@.len() % 2 == 0,
    ensures
        r matches Some(out) ==> all_base_digits(s@, 16) && out@ == spec_hex_decode(s@),
        r is None ==> !all_base_digits(s@, 16),
{
    let mut out: Vec<u8> = Vec::new();
    let n: usize = s.len() / 2;
    let mut i: usize = 0;
    while i < n
        invariant
            s@.len() % 2 == 0,
            s@.len() <= usize::MAX,
            n == s@.len() / 2,
            0 <= i <= n,
            forall|j: int| 0 <= j < 2 * i ==> is_base_digit(#[trigger] s@[j], 16),
            out@ =~= spec_hex_decode(s@).take(i as int),
        decreases n - i,
    {
        proof {
            assert(2 * (s@.len() / 2) <= s@.len());
            assert(2 * i + 1 < s@.len());
        }
        let hi = match digit_of(s[2 * i], 16) {
            Some(d) => d,
            None => {
                assert(!is_base_digit(s@[2 * i as int], 16));
                return None;
            },
        };
        let lo = match digit_of(s[2 * i + 1], 16) {
            Some(d) => d,
            None => {
                assert(!is_base_digit(s@[2 * i as int + 1], 16));
                return None;
            },
        };
        out.push(hi * 16 + lo);
        proof {
            assert(out@ =~= spec_hex_decode(s@).take(i as int + 1));
        }
        i = i + 1;
    }
    proof {
        assert(spec_hex_decode(s@).take(n as int) =~= spec_hex_decode(s@));
        assert(forall|j: int| 0 <= j < s@.len() ==> is_base_digit(#[trigger] s@[j], 16));
    }
    Some(out)
}

/// Index of the first occurrence of `b` in `s`, if any.
pub open spec fn spec_find_byte(s: Seq<u8>, b: u8) -> Option<int>
    decreases s.len(),
{
    if s.len() == 0 {
        None
    } else if s[0] == b {
        Some(0)
    } else {
        match spec_find_byte(s.drop_first(), b) {
            Some(i) => Some(i + 1),
            None => None,
        }
    }
}

pub proof fn lemma_find_byte(s: Seq<u8>, b: u8)
    ensures
        match spec_find_byte(s, b) {
            Some(i) => 0 <= i < s.len() && s[i] == b && forall|j: int| 0 <= j < i ==> s[j] != b,
            None => forall|j: int| 0 <= j < s.len() ==> s[j] != b,
        },
    decreases s.len(),
{
    if s.len() > 0 && s[0] != b {
        lemma_find_byte(s.drop_first(), b);
        match spec_find_byte(s.drop_first(), b) {
            Some(i) => {
                assert(s.drop_first()[i] == s[i + 1]);
                assert forall|j: int| 0 <= j < i + 1 implies s[j] != b by {
                    if j > 0 {
                        assert(s.drop_first()[j - 1] != b);
                    }
                }
            },
            None => {
                assert forall|j: int| 0 <= j < s.len() implies s[j] != b by {
                    if j > 0 {
                        assert(s.drop_first()[j - 1] != b);
                    }
                }
            },
        }
    }
}

pub fn find_byte(s: &Vec<u8>, b: u8) -> (r: Option<usize>)
    ensures
        r matches Some(i) ==> spec_find_byte(s@, b) == Some(i as int),
        r is None ==> spec_find_byte(s@, b) is None,
{
    let mut i: usize = 0;
    while i < s.len()
        invariant
            0 <= i <= s@.len(),
            forall|j: int| 0 <= j < i ==> s@[j] != b,
        decreases s@.len() - i,
    {
        if s[i] == b {
            proof {
                lemma_find_byte(s@, b);
            }
            return Some(i);
        }
        i = i + 1;
    }
    proof {
        lemma_find_byte(s@, b);
    }
    None
}

/// A fresh copy of `v[from..to]`.
pub fn subvec(v: &Vec<u8>, from: usize, to: usize) -> (r: Vec<u8>)
    requires
        from <= to <= v@.len(),
    ensures
        r@ == v@.subrange(from as int, to as int),
{
    let mut out: Vec<u8> = Vec::new();
    let mut i: usize = from;
    while i < to
        invariant
            from <= i <= to <= v@.len(),
            out@ =~= v@.subrange(from as int, i as int),
        decreases to - i,
    {
        out.push(v[i]);
        proof {
            assert(out@ =~= v@.subrange(from as int, i as int + 1));
        }
        i = i + 1;
    }
    proof {
        assert(out@ =~= v@.subrange(from as int, to as int));
    }
    out
}

/// The views of a sequence of byte vectors.
pub open spec fn rows_view(rows: Seq<Vec<u8>>) -> Seq<Seq<u8>> {
    rows.map_values(|r: Vec<u8>| r@)
}

} // verus!
