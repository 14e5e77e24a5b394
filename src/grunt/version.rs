//! Client build versions and their text form `major.minor.patch.build`.

use vstd::prelude::*;

use crate::codec::{string_from_utf8, utf8_of, write_u8};
use vstd::utf8::{decode_utf8_encode_utf8, pop_first_scalar, valid_utf8};

verus! {

/// A client build: `major.minor.patch.build`.
#[derive(Debug, Clone, Copy, PartialEq, Eq, Structural)]
pub struct Version {
    pub major: u8,
    pub minor: u8,
    pub patch: u8,
    pub build: u16,
}

/// `b` is an ASCII digit.
pub open spec fn is_digit(b: u8) -> bool {
    48 <= b && b <= 57
}

/// The number that a string of ASCII digits spells in base ten.
pub open spec fn digits_value(d: Seq<u8>) -> nat
    decreases d.len(),
{
    if d.len() == 0 {
        0
    } else {
        digits_value(d.drop_last()) * 10 + (d.last() - 48) as nat
    }
}

/// An unsigned number in base ten as `from_str_radix` reads it: an optional
/// `+`, then one or more digits and nothing else.
pub open spec fn decimal(s: Seq<u8>) -> Option<nat> {
    if unsigned_part(s).len() > 0 && all_digits(unsigned_part(s)) {
        Some(digits_value(unsigned_part(s)))
    } else {
        None
    }
}

/// `s` without a leading `+`.
pub open spec fn unsigned_part(s: Seq<u8>) -> Seq<u8> {
    if s.len() > 0 && s[0] == 43 {
        s.skip(1)
    } else {
        s
    }
}

/// Every byte of `d` is an ASCII digit.
pub open spec fn all_digits(d: Seq<u8>) -> bool {
    forall|i: int| 0 <= i < d.len() ==> is_digit(#[trigger] d[i])
}

/// `decimal(s)` when it is at most `max`.
pub open spec fn decimal_at_most(s: Seq<u8>, max: nat) -> Option<nat> {
    match decimal(s) {
        Some(v) => if v <= max { Some(v) } else { None },
        None => None,
    }
}

/// `s` holds exactly three dots, at `i < j < k`.
pub open spec fn dots_at(s: Seq<u8>, i: int, j: int, k: int) -> bool {
    &&& 0 <= i < j < k < s.len()
    &&& s[i] == 46 && s[j] == 46 && s[k] == 46
    &&& forall|m: int| 0 <= m < s.len() && s[m] == 46 ==> m == i || m == j || m == k
}

/// The version that the four dot-separated fields of `s` spell, if each is
/// a number in range.
pub open spec fn version_from_fields(s: Seq<u8>, i: int, j: int, k: int) -> Option<Version> {
    match (
        decimal_at_most(s.subrange(0, i), 255),
        decimal_at_most(s.subrange(i + 1, j), 255),
        decimal_at_most(s.subrange(j + 1, k), 255),
        decimal_at_most(s.subrange(k + 1, s.len() as int), 65535),
    ) {
        (Some(a), Some(b), Some(c), Some(d)) => Some(Version { major: a as u8, minor: b as u8, patch: c as u8, build: d as u16 }),
        _ => None,
    }
}

/// The version written `major.minor.patch.build` in the text `s`.
pub open spec fn parsed_version(s: Seq<u8>) -> Option<Version> {
    if exists|i: int, j: int, k: int| dots_at(s, i, j, k) {
        let (i, j, k) = choose|i: int, j: int, k: int| dots_at(s, i, j, k);
        version_from_fields(s, i, j, k)
    } else {
        None
    }
}

/// The first dot in `b` at or after `from`, or `b.len()` if there is none.
fn find_dot(b: &[u8], from: usize) -> (r: usize)
    requires
        from <= b@.len(),
    ensures
        from <= r <= b@.len(),
        forall|m: int| from <= m < r ==> b@[m] != 46,
        r < b@.len() ==> b@[r as int] == 46,
{
    let mut r = from;
    while r < b.len() && b[r] != 46
        invariant
            from <= r <= b@.len(),
            forall|m: int| from <= m < r ==> b@[m] != 46,
        decreases b@.len() - r,
    {
        r = r + 1;
    }
    r
}

/// Reads `b[start..end]` as `decimal_at_most` does.
fn parse_decimal(b: &[u8], start: usize, end: usize, max: u32) -> (r: Option<u32>)
    requires
        start <= end <= b@.len(),
        max < 0x10000,
    ensures
        match decimal_at_most(b@.subrange(start as int, end as int), max as nat) {
            Some(v) => r == Some(v as u32),
            None => r is None,
        },
{
    let ghost s = b@.subrange(start as int, end as int);
    let mut i = start;
    if i < end && b[i] == 43 {
        i = i + 1;
    }
    let ghost d = b@.subrange(i as int, end as int);
    assert(d =~= unsigned_part(s));
    if i == end {
        return None;
    }
    let first = i;
    let mut acc: u32 = 0;
    while i < end
        invariant
            first <= i <= end <= b@.len(),
            d == b@.subrange(first as int, end as int),
            s == b@.subrange(start as int, end as int),
            d == unsigned_part(s),
            max < 0x10000,
            forall|m: int| first <= m < i ==> is_digit(b@[m]),
            acc as nat == if digits_value(b@.subrange(first as int, i as int)) <= max as nat {
                digits_value(b@.subrange(first as int, i as int))
            } else {
                max as nat + 1
            },
        decreases end - i,
    {
        let c = b[i];
        if c < 48 || c > 57 {
            assert(d[i - first] == b@[i as int]);
            assert(!is_digit(d[i - first]));
            return None;
        }
        let ghost prev = b@.subrange(first as int, i as int);
        let ghost next = b@.subrange(first as int, i + 1);
        assert(next.drop_last() =~= prev);
        let digit = (c - 48) as u32;
        let ghost v = digits_value(prev);
        assert(digits_value(next) == v * 10 + digit);
        let t = acc * 10 + digit;
        acc = if t > max { max + 1 } else { t };
        proof {
            if v > max as nat {
                assert(v * 10 + digit > max as nat) by (nonlinear_arith)
                    requires v > max as nat, digit >= 0;
            }
        }
        i = i + 1;
    }
    assert(b@.subrange(first as int, end as int) =~= d);
    if acc > max {
        None
    } else {
        Some(acc)
    }
}

/// The ASCII decimal digits of `n`, with no leading zero (`0` for zero).
pub open spec fn decimal_digits(n: nat) -> Seq<u8>
    decreases n,
{
    if n < 10 {
        seq![(48 + n) as u8]
    } else {
        decimal_digits(n / 10).push((48 + n % 10) as u8)
    }
}

/// The text of a version: `major.minor.patch.build` in decimal.
pub open spec fn version_text(v: Version) -> Seq<u8> {
    decimal_digits(v.major as nat) + seq![46u8] + decimal_digits(v.minor as nat) + seq![46u8]
        + decimal_digits(v.patch as nat) + seq![46u8] + decimal_digits(v.build as nat)
}

/// The digits of `n` read back as `n`.
pub proof fn lemma_decimal_digits(n: nat)
    ensures
        decimal_digits(n).len() >= 1,
        all_digits(decimal_digits(n)),
        digits_value(decimal_digits(n)) == n,
        decimal(decimal_digits(n)) == Some(n),
    decreases n,
{
    let d = decimal_digits(n);
    if n < 10 {
        assert(d.drop_last() =~= Seq::<u8>::empty());
        assert(d.last() == (48 + n) as u8);
        assert(digits_value(d) == digits_value(d.drop_last()) * 10 + (d.last() - 48) as nat);
    } else {
        lemma_decimal_digits(n / 10);
        assert(d.drop_last() =~= decimal_digits(n / 10));
        assert(d.last() == (48 + n % 10) as u8);
        assert(digits_value(d) == digits_value(d.drop_last()) * 10 + (d.last() - 48) as nat);
        assert((n / 10) * 10 + n % 10 == n) by (nonlinear_arith);
        assert forall|i: int| 0 <= i < d.len() implies is_digit(#[trigger] d[i]) by {
            if i < d.len() - 1 {
                assert(d[i] == decimal_digits(n / 10)[i]);
            }
        }
    }
    assert(unsigned_part(d) == d);
}

/// Bytes below 128 are valid UTF-8.
pub proof fn lemma_ascii_valid_utf8(b: Seq<u8>)
    requires
        forall|i: int| 0 <= i < b.len() ==> b[i] < 128,
    ensures
        valid_utf8(b),
    decreases b.len(),
{
    if b.len() > 0 {
        let b0 = b[0];
        assert((b0 & 0x7F) <= 0x7F) by (bit_vector);
        assert(pop_first_scalar(b) =~= b.skip(1));
        lemma_ascii_valid_utf8(b.skip(1));
    }
}

/// Reading the text of a version gives the version back.
pub proof fn lemma_version_text_round_trip(v: Version)
    ensures
        parsed_version(version_text(v)) == Some(v),
{
    let a = decimal_digits(v.major as nat);
    let b = decimal_digits(v.minor as nat);
    let c = decimal_digits(v.patch as nat);
    let d = decimal_digits(v.build as nat);
    lemma_decimal_digits(v.major as nat);
    lemma_decimal_digits(v.minor as nat);
    lemma_decimal_digits(v.patch as nat);
    lemma_decimal_digits(v.build as nat);
    let s = version_text(v);
    let i = a.len() as int;
    let j = i + 1 + b.len();
    let k = j + 1 + c.len();
    assert(s[i] == 46 && s[j] == 46 && s[k] == 46);
    assert(s.subrange(0, i) =~= a);
    assert(s.subrange(i + 1, j) =~= b);
    assert(s.subrange(j + 1, k) =~= c);
    assert(s.subrange(k + 1, s.len() as int) =~= d);
    assert forall|m: int| 0 <= m < s.len() && s[m] == 46 implies m == i || m == j || m == k by {
        if m < i {
            assert(s[m] == a[m]);
        } else if i < m < j {
            assert(s[m] == b[m - i - 1]);
        } else if j < m < k {
            assert(s[m] == c[m - j - 1]);
        } else if k < m {
            assert(s[m] == d[m - k - 1]);
        }
    }
    assert(dots_at(s, i, j, k));
    let (i2, j2, k2) = choose|i2: int, j2: int, k2: int| dots_at(s, i2, j2, k2);
    assert(s[i2] == 46 && s[j2] == 46 && s[k2] == 46);
    assert(i2 == i && j2 == j && k2 == k);
}

/// Appends the decimal digits of `n`.
fn write_decimal(out: &mut Vec<u8>, n: u16)
    ensures
        final(out)@ == old(out)@ + decimal_digits(n as nat),
    decreases n,
{
    if n >= 10 {
        write_decimal(out, n / 10);
    }
    write_u8(out, 48 + (n % 10) as u8);
    proof {
        if n >= 10 {
            assert(decimal_digits(n as nat) == decimal_digits((n / 10) as nat).push((48 + n % 10) as u8));
        }
    }
    assert(out@ =~= old(out)@ + decimal_digits(n as nat));
}

impl Version {
    /// Reads `major.minor.patch.build`, each field a base-ten number that
    /// fits its type; `None` for any other text.
    pub fn try_parse(value: &str) -> (r: Option<Version>)
        ensures
            r == parsed_version(utf8_of(value@)),
    {
        let b = value.as_bytes();
        let ghost s = b@;
        let i = find_dot(b, 0);
        if i == b.len() {
            proof {
                assert forall|i2: int, j2: int, k2: int| !dots_at(s, i2, j2, k2) by {
                    if dots_at(s, i2, j2, k2) {
                        assert(s[i2] == 46);
                    }
                }
            }
            return None;
        }
        let j = find_dot(b, i + 1);
        if j == b.len() {
            proof {
                assert forall|i2: int, j2: int, k2: int| !dots_at(s, i2, j2, k2) by {
                    if dots_at(s, i2, j2, k2) {
                        assert(s[j2] == 46);
                        assert(s[i2] == 46);
                    }
                }
            }
            return None;
        }
        let k = find_dot(b, j + 1);
        if k == b.len() {
            proof {
                assert forall|i2: int, j2: int, k2: int| !dots_at(s, i2, j2, k2) by {
                    if dots_at(s, i2, j2, k2) {
                        assert(s[k2] == 46);
                        assert(s[j2] == 46);
                        assert(s[i2] == 46);
                    }
                }
            }
            return None;
        }
        let l = find_dot(b, k + 1);
        if l != b.len() {
            proof {
                assert forall|i2: int, j2: int, k2: int| !dots_at(s, i2, j2, k2) by {
                    if dots_at(s, i2, j2, k2) {
                        assert(s[i as int] == 46 && s[j as int] == 46 && s[k as int] == 46 && s[l as int] == 46);
                    }
                }
            }
            return None;
        }
        proof {
            assert(dots_at(s, i as int, j as int, k as int));
            let (i2, j2, k2) = choose|i2: int, j2: int, k2: int| dots_at(s, i2, j2, k2);
            assert(s[i2] == 46 && s[j2] == 46 && s[k2] == 46);
            assert(i2 == i && j2 == j && k2 == k);
        }
        let major = parse_decimal(b, 0, i, 255);
        let minor = parse_decimal(b, i + 1, j, 255);
        let patch = parse_decimal(b, j + 1, k, 255);
        let build = parse_decimal(b, k + 1, b.len(), 65535);
        match (major, minor, patch, build) {
            (Some(a), Some(c), Some(d), Some(e)) => Some(Version { major: a as u8, minor: c as u8, patch: d as u8, build: e as u16 }),
            _ => None,
        }
    }

    /// The text `major.minor.patch.build`; reading it gives this version
    /// back.
    pub fn to_text(&self) -> (r: String)
        ensures
            utf8_of(r@) == version_text(*self),
            parsed_version(utf8_of(r@)) == Some(*self),
    {
        let mut out: Vec<u8> = Vec::new();
        write_decimal(&mut out, self.major as u16);
        write_u8(&mut out, 46);
        write_decimal(&mut out, self.minor as u16);
        write_u8(&mut out, 46);
        write_decimal(&mut out, self.patch as u16);
        write_u8(&mut out, 46);
        write_decimal(&mut out, self.build);
        let ghost bytes = out@;
        proof {
            lemma_version_text_round_trip(*self);
            lemma_decimal_digits(self.major as nat);
            lemma_decimal_digits(self.minor as nat);
            lemma_decimal_digits(self.patch as nat);
            lemma_decimal_digits(self.build as nat);
            assert(bytes =~= version_text(*self));
            assert forall|i: int| 0 <= i < bytes.len() implies bytes[i] < 128 by {
                let a = decimal_digits(self.major as nat);
                let b = decimal_digits(self.minor as nat);
                let c = decimal_digits(self.patch as nat);
                let d = decimal_digits(self.build as nat);
                let p = a.len() as int;
                let q = p + 1 + b.len();
                let r = q + 1 + c.len();
                if i < p {
                    assert(bytes[i] == a[i]);
                } else if p < i < q {
                    assert(bytes[i] == b[i - p - 1]);
                } else if q < i < r {
                    assert(bytes[i] == c[i - q - 1]);
                } else if r < i {
                    assert(bytes[i] == d[i - r - 1]);
                }
            }
            lemma_ascii_valid_utf8(bytes);
            decode_utf8_encode_utf8(bytes);
        }
        match string_from_utf8(out) {
            Some(text) => text,
            None => String::new(),
        }
    }

    /// Reads `major.minor.patch.build` from text that holds one.
    pub fn parse(value: &str) -> (r: Version)
        requires
            parsed_version(utf8_of(value@)) is Some,
        ensures
            parsed_version(utf8_of(value@)) == Some(r),
    {
        match Version::try_parse(value) {
            Some(v) => v,
            None => Version { major: 0, minor: 0, patch: 0, build: 0 },
        }
    }
}

} // verus!
