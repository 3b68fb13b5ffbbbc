//! Byte-level helpers for the header line's fixed grammar.
use vstd::prelude::*;

verus! {

/// `k` is the position of the first `d` in `b`.
pub open spec fn is_first(b: Seq<u8>, k: int, d: u8) -> bool {
    0 <= k < b.len() && b[k] == d && forall|j: int| 0 <= j < k ==> b[j] != d
}

/// The position of the first `d` in `b`, if any.
pub open spec fn first_index(b: Seq<u8>, d: u8) -> Option<int> {
    if exists|k: int| is_first(b, k, d) {
        Some(choose|k: int| is_first(b, k, d))
    } else {
        None
    }
}

/// What follows `tok` in `b`, if `b` starts with it.
pub open spec fn strip(b: Seq<u8>, tok: Seq<u8>) -> Option<Seq<u8>> {
    if tok.len() <= b.len() && b.take(tok.len() as int) == tok {
        Some(b.skip(tok.len() as int))
    } else {
        None
    }
}

/// `b` split before its first `d`: what precedes it, and the rest from it on.
pub open spec fn split_before(b: Seq<u8>, d: u8) -> Option<(Seq<u8>, Seq<u8>)> {
    match first_index(b, d) {
        Some(k) => Some((b.take(k), b.skip(k))),
        None => None,
    }
}

pub open spec fn is_digit(c: u8) -> bool {
    48 <= c <= 57
}

/// The value of a run of decimal digits.
pub open spec fn digits_value(ds: Seq<u8>) -> int
    decreases ds.len(),
{
    if ds.len() == 0 {
        0
    } else {
        digits_value(ds.drop_last()) * 10 + (ds.last() - 48)
    }
}

/// Every byte of `s` is a decimal digit.
pub open spec fn all_digits(s: Seq<u8>) -> bool {
    forall|i: int| 0 <= i < s.len() ==> is_digit(#[trigger] s[i])
}

/// `b` without its leading sign, if it has one.
pub open spec fn unsigned_part(b: Seq<u8>) -> Seq<u8> {
    if b.len() > 0 && (b[0] == 43 || b[0] == 45) {
        b.skip(1)
    } else {
        b
    }
}

/// A signed 32-bit integer in decimal: an optional `+` or `-`, then at least
/// one digit, with the value in range.
pub open spec fn decimal(b: Seq<u8>) -> Option<i32> {
    let ds = unsigned_part(b);
    if ds.len() == 0 || !all_digits(ds) {
        None
    } else {
        let v = if b[0] == 45 {
            -digits_value(ds)
        } else {
            digits_value(ds)
        };
        if i32::MIN <= v <= i32::MAX {
            Some(v as i32)
        } else {
            None
        }
    }
}

/// The position of the first `d` in `b`.
pub fn find_byte(b: &[u8], d: u8) -> (r: Option<usize>)
    ensures
        match r {
            Some(k) => first_index(b@, d) == Some(k as int),
            None => first_index(b@, d) is None,
        },
{
    let mut i: usize = 0;
    while i < b.len()
        invariant
            i <= b@.len(),
            forall|j: int| 0 <= j < i ==> b@[j] != d,
        decreases b@.len() - i,
    {
        if b[i] == d {
            assert(is_first(b@, i as int, d));
            proof {
                let c = choose|c: int| is_first(b@, c, d);
                assert(c == i);
            }
            return Some(i);
        }
        i = i + 1;
    }
    None
}

/// What follows `tok` in `b`, if `b` starts with it.
pub fn strip_prefix<'a>(b: &'a [u8], tok: &[u8]) -> (r: Option<&'a [u8]>)
    ensures
        match r {
            Some(rest) => strip(b@, tok@) == Some(rest@),
            None => strip(b@, tok@) is None,
        },
{
    if tok.len() > b.len() {
        return None;
    }
    let mut i: usize = 0;
    while i < tok.len()
        invariant
            tok@.len() <= b@.len(),
            i <= tok@.len(),
            forall|j: int| 0 <= j < i ==> b@[j] == tok@[j],
        decreases tok@.len() - i,
    {
        if b[i] != tok[i] {
            assert(b@.take(tok@.len() as int)[i as int] != tok@[i as int]);
            return None;
        }
        i = i + 1;
    }
    assert(b@.take(tok@.len() as int) =~= tok@);
    let (_, rest) = b.split_at(tok.len());
    Some(rest)
}

/// `b` split before its first `d`.
pub fn split_before_byte<'a>(b: &'a [u8], d: u8) -> (r: Option<(&'a [u8], &'a [u8])>)
    ensures
        match r {
            Some((head, tail)) => split_before(b@, d) == Some((head@, tail@)),
            None => split_before(b@, d) is None,
        },
{
    match find_byte(b, d) {
        Some(k) => Some(b.split_at(k)),
        None => None,
    }
}

/// A signed 32-bit decimal integer.
pub fn parse_decimal(b: &[u8]) -> (r: Option<i32>)
    ensures
        r == decimal(b@),
{
    let neg = b.len() > 0 && b[0] == 45;
    let ds = if b.len() > 0 && (b[0] == 43 || b[0] == 45) {
        b.split_at(1).1
    } else {
        b
    };
    assert(ds@ =~= unsigned_part(b@));
    if ds.len() == 0 {
        return None;
    }
    let cap: u64 = 0x1_0000_0000;
    let mut mag: u64 = 0;
    let mut i: usize = 0;
    while i < ds.len()
        invariant
            i <= ds@.len(),
            forall|j: int| 0 <= j < i ==> is_digit(ds@[j]),
            mag as int == if digits_value(ds@.take(i as int)) < cap {
                digits_value(ds@.take(i as int))
            } else {
                cap as int
            },
            cap == 0x1_0000_0000,
            ds@ == unsigned_part(b@),
            neg == (b@.len() > 0 && b@[0] == 45),
        decreases ds@.len() - i,
    {
        let c = ds[i];
        if c < 48 || c > 57 {
            assert(!is_digit(ds@[i as int]));
            return None;
        }
        assert(ds@.take(i + 1).drop_last() =~= ds@.take(i as int));
        let next = mag * 10 + (c - 48) as u64;
        mag = if next < cap {
            next
        } else {
            cap
        };
        i = i + 1;
    }
    assert(ds@.take(ds@.len() as int) =~= ds@);
    if neg {
        if mag <= 0x8000_0000 {
            Some((0 - mag as i64) as i32)
        } else {
            None
        }
    } else {
        if mag <= 0x7fff_ffff {
            Some(mag as i32)
        } else {
            None
        }
    }
}

/// Whether two byte strings are equal.
pub fn bytes_eq(a: &[u8], b: &[u8]) -> (r: bool)
    ensures
        r == (a@ == b@),
{
    if a.len() != b.len() {
        return false;
    }
    let mut i: usize = 0;
    while i < a.len()
        invariant
            a@.len() == b@.len(),
            i <= a@.len(),
            forall|j: int| 0 <= j < i ==> a@[j] == b@[j],
        decreases a@.len() - i,
    {
        if a[i] != b[i] {
            return false;
        }
        i = i + 1;
    }
    assert(a@ =~= b@);
    true
}

/// Whether two strings hold the same characters.
pub fn str_eq(a: &str, b: &str) -> (r: bool)
    ensures
        r == (a@ == b@),
{
    let r = bytes_eq(a.as_bytes(), b.as_bytes());
    proof {
        vstd::utf8::encode_utf8_decode_utf8(a@);
        vstd::utf8::encode_utf8_decode_utf8(b@);
    }
    r
}

} // verus!
