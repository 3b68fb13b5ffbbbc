//! The byte source: a forward-only cursor over the input, and the
//! [`Readable`] trait through which every wire item is decoded.
use crate::error::{DmxError, ErrorModel};
use vstd::prelude::*;
use vstd::utf8::{decode_utf8, encode_utf8, valid_utf8};

verus! {

/// Outcome of parsing a prefix of some bytes: the value read and the number
/// of bytes it took, or the error that decoding raises.
pub type Parsed<V> = Result<(V, nat), ErrorModel>;

/// Reads from an in-memory buffer; the slice always holds the bytes that
/// have not been consumed yet.
pub struct Slice<'a>(pub &'a [u8]);

impl<'a> View for Slice<'a> {
    type V = Seq<u8>;

    open spec fn view(&self) -> Seq<u8> {
        self.0@
    }
}

/// A read whose model is `p` took bytes `before` to `after`, returning `r`.
pub open spec fn read_post<T: View>(
    p: Parsed<T::V>,
    r: Result<T, DmxError>,
    before: Seq<u8>,
    after: Seq<u8>,
) -> bool {
    match p {
        Ok((v, n)) => r is Ok && r->Ok_0@ == v && n <= before.len() && after == before.skip(
            n as int,
        ),
        Err(e) => r is Err && r->Err_0@ == e,
    }
}

/// `k` is the position of the first NUL byte of `b`.
pub open spec fn is_first_nul(b: Seq<u8>, k: int) -> bool {
    0 <= k < b.len() && b[k] == 0 && forall|j: int| 0 <= j < k ==> b[j] != 0
}

/// The bytes before the first NUL, which is consumed with them.
pub open spec fn parse_cstring(b: Seq<u8>) -> Parsed<Seq<u8>> {
    if exists|k: int| is_first_nul(b, k) {
        let k = choose|k: int| is_first_nul(b, k);
        Ok((b.take(k), (k + 1) as nat))
    } else {
        Err(ErrorModel::Io)
    }
}

/// A NUL-terminated string, validated as UTF-8.
pub open spec fn parse_string(b: Seq<u8>) -> Parsed<Seq<char>> {
    match parse_cstring(b) {
        Ok((s, n)) => if valid_utf8(s) {
            Ok((decode_utf8(s), n))
        } else {
            Err(ErrorModel::Encoding(s))
        },
        Err(e) => Err(e),
    }
}

/// Little-endian value of four bytes.
pub open spec fn le_u32(b: Seq<u8>) -> u32 {
    (b[0] as u32) | ((b[1] as u32) << 8u32) | ((b[2] as u32) << 16u32) | ((b[3] as u32) << 24u32)
}

/// Little-endian value of eight bytes.
pub open spec fn le_u64(b: Seq<u8>) -> u64 {
    (b[0] as u64) | ((b[1] as u64) << 8u64) | ((b[2] as u64) << 16u64) | ((b[3] as u64) << 24u64)
        | ((b[4] as u64) << 32u64) | ((b[5] as u64) << 40u64) | ((b[6] as u64) << 48u64) | ((
    b[7] as u64) << 56u64)
}

/// A fixed-width field of `w` bytes decoded by `f`.
pub open spec fn parse_fixed<V>(b: Seq<u8>, w: nat, f: spec_fn(Seq<u8>) -> V) -> Parsed<V> {
    if b.len() < w {
        Err(ErrorModel::Io)
    } else {
        Ok((f(b.take(w as int)), w))
    }
}

/// Four bytes of `v`, least significant first.
pub open spec fn u32_bytes(v: u32) -> Seq<u8> {
    seq![v as u8, (v >> 8u32) as u8, (v >> 16u32) as u8, (v >> 24u32) as u8]
}

/// Eight bytes of `v`, least significant first.
pub open spec fn u64_bytes(v: u64) -> Seq<u8> {
    seq![
        v as u8,
        (v >> 8u64) as u8,
        (v >> 16u64) as u8,
        (v >> 24u64) as u8,
        (v >> 32u64) as u8,
        (v >> 40u64) as u8,
        (v >> 48u64) as u8,
        (v >> 56u64) as u8,
    ]
}

pub proof fn lemma_u32_bytes(v: u32)
    ensures
        le_u32(u32_bytes(v)) == v,
{
    let b = u32_bytes(v);
    let (b0, b1, b2, b3) = (b[0], b[1], b[2], b[3]);
    assert(b0 == v as u8 && b1 == (v >> 8u32) as u8 && b2 == (v >> 16u32) as u8 && b3 == (v
        >> 24u32) as u8);
    assert((b0 as u32) | ((b1 as u32) << 8u32) | ((b2 as u32) << 16u32) | ((b3 as u32) << 24u32)
        == v) by (bit_vector)
        requires
            b0 == v as u8,
            b1 == (v >> 8u32) as u8,
            b2 == (v >> 16u32) as u8,
            b3 == (v >> 24u32) as u8,
    ;
}

pub proof fn lemma_u64_bytes(v: u64)
    ensures
        le_u64(u64_bytes(v)) == v,
{
    let b = u64_bytes(v);
    let (b0, b1, b2, b3, b4, b5, b6, b7) = (b[0], b[1], b[2], b[3], b[4], b[5], b[6], b[7]);
    assert((b0 as u64) | ((b1 as u64) << 8u64) | ((b2 as u64) << 16u64) | ((b3 as u64) << 24u64)
        | ((b4 as u64) << 32u64) | ((b5 as u64) << 40u64) | ((b6 as u64) << 48u64) | ((b7 as u64)
        << 56u64) == v) by (bit_vector)
        requires
            b0 == v as u8,
            b1 == (v >> 8u64) as u8,
            b2 == (v >> 16u64) as u8,
            b3 == (v >> 24u64) as u8,
            b4 == (v >> 32u64) as u8,
            b5 == (v >> 40u64) as u8,
            b6 == (v >> 48u64) as u8,
            b7 == (v >> 56u64) as u8,
    ;
}

impl<'a> Slice<'a> {
    /// Takes one byte.
    pub fn read_u8(&mut self) -> (r: Result<u8, DmxError>)
        ensures
            read_post(parse_fixed(old(self)@, 1, |b: Seq<u8>| b[0]), r, old(self)@, final(self)@),
    {
        if self.0.len() < 1 {
            return Err(DmxError::Io);
        }
        let (head, tail) = self.0.split_at(1);
        self.0 = tail;
        assert(head@ == old(self)@.take(1));
        Ok(head[0])
    }

    /// Takes `size` bytes, as a view into the input.
    pub fn read_bytes(&mut self, size: usize) -> (r: Result<&'a [u8], DmxError>)
        ensures
            read_post(parse_fixed(old(self)@, size as nat, |b: Seq<u8>| b), r, old(self)@, final(self)@),
    {
        if self.0.len() < size {
            return Err(DmxError::Io);
        }
        let (head, tail) = self.0.split_at(size);
        self.0 = tail;
        Ok(head)
    }

    /// Takes four bytes as a little-endian integer.
    pub fn read_u32(&mut self) -> (r: Result<u32, DmxError>)
        ensures
            read_post(parse_fixed(old(self)@, 4, |b: Seq<u8>| le_u32(b)), r, old(self)@, final(self)@),
    {
        let b = self.read_bytes(4)?;
        Ok((b[0] as u32) | ((b[1] as u32) << 8u32) | ((b[2] as u32) << 16u32) | ((b[3] as u32)
            << 24u32))
    }

    /// Takes eight bytes as a little-endian integer.
    pub fn read_u64(&mut self) -> (r: Result<u64, DmxError>)
        ensures
            read_post(parse_fixed(old(self)@, 8, |b: Seq<u8>| le_u64(b)), r, old(self)@, final(self)@),
    {
        let b = self.read_bytes(8)?;
        Ok((b[0] as u64) | ((b[1] as u64) << 8u64) | ((b[2] as u64) << 16u64) | ((b[3] as u64)
            << 24u64) | ((b[4] as u64) << 32u64) | ((b[5] as u64) << 40u64) | ((b[6] as u64)
            << 48u64) | ((b[7] as u64) << 56u64))
    }

    /// Takes every byte up to and including the first `delimiter`.
    pub fn read_until(&mut self, delimiter: u8) -> (r: Result<&'a [u8], DmxError>)
        ensures
            match r {
                Ok(b) => 0 < b@.len() <= old(self)@.len() && b@.last() == delimiter && (forall|j: int|
                    0 <= j < b@.len() - 1 ==> b@[j] != delimiter) && b@ == old(self)@.take(
                    b@.len() as int,
                ) && final(self)@ == old(self)@.skip(b@.len() as int),
                Err(e) => e@ == ErrorModel::Io && forall|j: int|
                    0 <= j < old(self)@.len() ==> old(self)@[j] != delimiter,
            },
    {
        let mut i: usize = 0;
        while i < self.0.len()
            invariant
                self@ == old(self)@,
                i <= self.0@.len(),
                forall|j: int| 0 <= j < i ==> self.0@[j] != delimiter,
            decreases self.0@.len() - i,
        {
            if self.0[i] == delimiter {
                let (head, tail) = self.0.split_at(i + 1);
                self.0 = tail;
                assert(head@.last() == head@[i as int]);
                return Ok(head);
            }
            i = i + 1;
        }
        Err(DmxError::Io)
    }

    /// Takes a NUL-terminated run of bytes; the NUL is consumed but not returned.
    pub fn read_cstring(&mut self) -> (r: Result<&'a [u8], DmxError>)
        ensures
            read_post(parse_cstring(old(self)@), r, old(self)@, final(self)@),
    {
        let ghost before = self@;
        let b = self.read_until(0)?;
        let k = b.len() - 1;
        assert forall|j: int| 0 <= j < k implies before[j] != 0 by {
            assert(b@[j] == before[j]);
        }
        assert(b@[k as int] == before[k as int]);
        assert(is_first_nul(before, k as int));
        assert forall|k2: int| is_first_nul(before, k2) implies k2 == k by {
            if k2 < k {
                assert(b@[k2] == before[k2]);
            }
            if k2 > k {
                assert(before[k as int] == b@[k as int]);
            }
        }
        let (head, _) = b.split_at(k);
        assert(head@ == before.take(k as int));
        Ok(head)
    }
}

/// An item that can be decoded from a [`Slice`]; `parse` is its grammar.
pub trait Readable<'a>: View + Sized {
    /// What decoding a prefix of `bytes` yields.
    spec fn parse(bytes: Seq<u8>) -> Parsed<Self::V>;

    /// The bytes that encode `v`.
    spec fn encode(v: Self::V) -> Seq<u8>;

    /// `v` has an encoding (its lengths fit the wire's counts, its strings hold no NUL).
    spec fn encodable(v: Self::V) -> bool;

    fn read(src: &mut Slice<'a>) -> (r: Result<Self, DmxError>)
        ensures
            read_post(Self::parse(old(src)@), r, old(src)@, final(src)@),
    ;

    /// Decoding the encoding of `v`, whatever follows it, gives back `v`.
    proof fn lemma_round_trip(v: Self::V, rest: Seq<u8>)
        requires
            Self::encodable(v),
        ensures
            Self::parse(Self::encode(v) + rest) == Ok::<(Self::V, nat), ErrorModel>(
                (v, Self::encode(v).len()),
            ),
    ;
}

pub proof fn lemma_parse_fixed<V>(e: Seq<u8>, rest: Seq<u8>, f: spec_fn(Seq<u8>) -> V)
    ensures
        parse_fixed(e + rest, e.len(), f) == Ok::<(V, nat), ErrorModel>((f(e), e.len())),
{
    assert((e + rest).take(e.len() as int) =~= e);
}

impl<'a> Readable<'a> for u8 {
    open spec fn parse(bytes: Seq<u8>) -> Parsed<u8> {
        parse_fixed(bytes, 1, |b: Seq<u8>| b[0])
    }

    open spec fn encode(v: u8) -> Seq<u8> {
        seq![v]
    }

    open spec fn encodable(v: u8) -> bool {
        true
    }

    fn read(src: &mut Slice<'a>) -> (r: Result<u8, DmxError>) {
        src.read_u8()
    }

    proof fn lemma_round_trip(v: u8, rest: Seq<u8>) {
        lemma_parse_fixed(seq![v], rest, |b: Seq<u8>| b[0]);
    }
}

impl<'a> Readable<'a> for i8 {
    open spec fn parse(bytes: Seq<u8>) -> Parsed<i8> {
        parse_fixed(bytes, 1, |b: Seq<u8>| b[0] as i8)
    }

    open spec fn encode(v: i8) -> Seq<u8> {
        seq![v as u8]
    }

    open spec fn encodable(v: i8) -> bool {
        true
    }

    fn read(src: &mut Slice<'a>) -> (r: Result<i8, DmxError>) {
        let b = src.read_u8()?;
        Ok(#[verifier::truncate] (b as i8))
    }

    proof fn lemma_round_trip(v: i8, rest: Seq<u8>) {
        lemma_parse_fixed(seq![v as u8], rest, |b: Seq<u8>| b[0] as i8);
        assert((v as u8) as i8 == v) by (bit_vector);
    }
}

impl<'a> Readable<'a> for bool {
    open spec fn parse(bytes: Seq<u8>) -> Parsed<bool> {
        parse_fixed(bytes, 1, |b: Seq<u8>| b[0] != 0)
    }

    open spec fn encode(v: bool) -> Seq<u8> {
        seq![if v { 1u8 } else { 0u8 }]
    }

    open spec fn encodable(v: bool) -> bool {
        true
    }

    fn read(src: &mut Slice<'a>) -> (r: Result<bool, DmxError>) {
        let b = src.read_u8()?;
        Ok(b != 0)
    }

    proof fn lemma_round_trip(v: bool, rest: Seq<u8>) {
        lemma_parse_fixed(Self::encode(v), rest, |b: Seq<u8>| b[0] != 0);
    }
}

impl<'a> Readable<'a> for u32 {
    open spec fn parse(bytes: Seq<u8>) -> Parsed<u32> {
        parse_fixed(bytes, 4, |b: Seq<u8>| le_u32(b))
    }

    open spec fn encode(v: u32) -> Seq<u8> {
        u32_bytes(v)
    }

    open spec fn encodable(v: u32) -> bool {
        true
    }

    fn read(src: &mut Slice<'a>) -> (r: Result<u32, DmxError>) {
        src.read_u32()
    }

    proof fn lemma_round_trip(v: u32, rest: Seq<u8>) {
        lemma_parse_fixed(u32_bytes(v), rest, |b: Seq<u8>| le_u32(b));
        lemma_u32_bytes(v);
    }
}

impl<'a> Readable<'a> for i32 {
    open spec fn parse(bytes: Seq<u8>) -> Parsed<i32> {
        parse_fixed(bytes, 4, |b: Seq<u8>| le_u32(b) as i32)
    }

    open spec fn encode(v: i32) -> Seq<u8> {
        u32_bytes(v as u32)
    }

    open spec fn encodable(v: i32) -> bool {
        true
    }

    fn read(src: &mut Slice<'a>) -> (r: Result<i32, DmxError>) {
        let v = src.read_u32()?;
        Ok(#[verifier::truncate] (v as i32))
    }

    proof fn lemma_round_trip(v: i32, rest: Seq<u8>) {
        lemma_parse_fixed(u32_bytes(v as u32), rest, |b: Seq<u8>| le_u32(b) as i32);
        lemma_u32_bytes(v as u32);
        assert((v as u32) as i32 == v) by (bit_vector);
    }
}

impl<'a> Readable<'a> for u64 {
    open spec fn parse(bytes: Seq<u8>) -> Parsed<u64> {
        parse_fixed(bytes, 8, |b: Seq<u8>| le_u64(b))
    }

    open spec fn encode(v: u64) -> Seq<u8> {
        u64_bytes(v)
    }

    open spec fn encodable(v: u64) -> bool {
        true
    }

    fn read(src: &mut Slice<'a>) -> (r: Result<u64, DmxError>) {
        src.read_u64()
    }

    proof fn lemma_round_trip(v: u64, rest: Seq<u8>) {
        lemma_parse_fixed(u64_bytes(v), rest, |b: Seq<u8>| le_u64(b));
        lemma_u64_bytes(v);
    }
}

/// A length-prefixed run of bytes: a signed 32-bit length, then that many bytes.
pub open spec fn parse_binary(b: Seq<u8>) -> Parsed<Seq<u8>> {
    if b.len() < 4 {
        Err(ErrorModel::Io)
    } else {
        let len = le_u32(b.take(4)) as i32;
        let rest = b.skip(4);
        if len < 0 || rest.len() < len {
            Err(ErrorModel::Io)
        } else {
            Ok((rest.take(len as int), (4 + len) as nat))
        }
    }
}

/// The length-prefixed encoding of `v`.
pub open spec fn binary_bytes(v: Seq<u8>) -> Seq<u8> {
    u32_bytes(v.len() as u32) + v
}

/// The NUL-terminated UTF-8 encoding of `v`.
pub open spec fn string_bytes(v: Seq<char>) -> Seq<u8> {
    encode_utf8(v) + seq![0u8]
}

/// The UTF-8 form of `v` holds no NUL byte, so its encoding ends at the terminator.
pub open spec fn nul_free(v: Seq<char>) -> bool {
    forall|i: int| 0 <= i < encode_utf8(v).len() ==> encode_utf8(v)[i] != 0
}

pub proof fn lemma_cstring(e: Seq<u8>, rest: Seq<u8>)
    requires
        forall|i: int| 0 <= i < e.len() ==> e[i] != 0,
    ensures
        parse_cstring(e + seq![0u8] + rest) == Ok::<(Seq<u8>, nat), ErrorModel>((e, e.len() + 1)),
{
    let b = e + seq![0u8] + rest;
    let k = e.len() as int;
    assert(b[k] == 0);
    assert forall|j: int| 0 <= j < k implies b[j] != 0 by {
        assert(b[j] == e[j]);
    }
    assert(is_first_nul(b, k));
    let c = choose|c: int| is_first_nul(b, c);
    if c < k {
        assert(b[c] == e[c]);
    }
    assert(c == k);
    assert(b.take(k) =~= e);
}

pub proof fn lemma_string_round_trip(v: Seq<char>, rest: Seq<u8>)
    requires
        nul_free(v),
    ensures
        parse_string(string_bytes(v) + rest) == Ok::<(Seq<char>, nat), ErrorModel>(
            (v, string_bytes(v).len()),
        ),
{
    broadcast use vstd::utf8::encode_utf8_valid_utf8, vstd::utf8::encode_utf8_decode_utf8;

    lemma_cstring(encode_utf8(v), rest);
}

pub proof fn lemma_binary_round_trip(v: Seq<u8>, rest: Seq<u8>)
    requires
        v.len() <= i32::MAX,
    ensures
        parse_binary(binary_bytes(v) + rest) == Ok::<(Seq<u8>, nat), ErrorModel>(
            (v, binary_bytes(v).len()),
        ),
{
    let b = binary_bytes(v) + rest;
    let n = v.len() as u32;
    assert(n == v.len());
    assert(b.take(4) =~= u32_bytes(n));
    lemma_u32_bytes(n);
    assert(n <= 0x7fff_ffff);
    assert(n <= 0x7fff_ffff ==> (n as i32) as int == n as int) by (bit_vector);
    assert(b.skip(4).take(v.len() as int) =~= v);
}

/// Relies on `std::str::from_utf8`: it succeeds exactly on valid UTF-8, and the
/// string it returns holds the characters that those bytes encode.
#[verifier::external_body]
fn utf8_str<'a>(b: &'a [u8]) -> (r: Option<&'a str>)
    ensures
        r is Some <==> valid_utf8(b@),
        r is Some ==> r->Some_0@ == decode_utf8(b@),
{
    std::str::from_utf8(b).ok()
}

impl<'a> Slice<'a> {
    /// Takes a NUL-terminated UTF-8 string, as a view into the input.
    pub fn read_str(&mut self) -> (r: Result<&'a str, DmxError>)
        ensures
            read_post(parse_string(old(self)@), r, old(self)@, final(self)@),
    {
        let b = self.read_cstring()?;
        <&'a str as ReaderString>::from_utf8(b)
    }

    /// Takes a length-prefixed run of bytes, as a view into the input.
    pub fn read_binary(&mut self) -> (r: Result<&'a [u8], DmxError>)
        ensures
            read_post(parse_binary(old(self)@), r, old(self)@, final(self)@),
    {
        let ghost before = self@;
        let len = <i32 as Readable>::read(self)?;
        if len < 0 {
            return Err(DmxError::Io);
        }
        let b = self.read_bytes(len as usize)?;
        assert(before.skip(4).skip(len as int) =~= before.skip(4 + len));
        Ok(b)
    }
}

impl<'a> Readable<'a> for &'a str {
    open spec fn parse(bytes: Seq<u8>) -> Parsed<Seq<char>> {
        parse_string(bytes)
    }

    open spec fn encode(v: Seq<char>) -> Seq<u8> {
        string_bytes(v)
    }

    open spec fn encodable(v: Seq<char>) -> bool {
        nul_free(v)
    }

    fn read(src: &mut Slice<'a>) -> (r: Result<&'a str, DmxError>) {
        src.read_str()
    }

    proof fn lemma_round_trip(v: Seq<char>, rest: Seq<u8>) {
        lemma_string_round_trip(v, rest);
    }
}

impl<'a> Readable<'a> for String {
    open spec fn parse(bytes: Seq<u8>) -> Parsed<Seq<char>> {
        parse_string(bytes)
    }

    open spec fn encode(v: Seq<char>) -> Seq<u8> {
        string_bytes(v)
    }

    open spec fn encodable(v: Seq<char>) -> bool {
        nul_free(v)
    }

    fn read(src: &mut Slice<'a>) -> (r: Result<String, DmxError>) {
        let b = src.read_cstring()?;
        <String as ReaderString>::from_utf8(b)
    }

    proof fn lemma_round_trip(v: Seq<char>, rest: Seq<u8>) {
        lemma_string_round_trip(v, rest);
    }
}

impl<'a> Readable<'a> for &'a [u8] {
    open spec fn parse(bytes: Seq<u8>) -> Parsed<Seq<u8>> {
        parse_binary(bytes)
    }

    open spec fn encode(v: Seq<u8>) -> Seq<u8> {
        binary_bytes(v)
    }

    open spec fn encodable(v: Seq<u8>) -> bool {
        v.len() <= i32::MAX
    }

    fn read(src: &mut Slice<'a>) -> (r: Result<&'a [u8], DmxError>) {
        src.read_binary()
    }

    proof fn lemma_round_trip(v: Seq<u8>, rest: Seq<u8>) {
        lemma_binary_round_trip(v, rest);
    }
}

impl<'a> Readable<'a> for Vec<u8> {
    open spec fn parse(bytes: Seq<u8>) -> Parsed<Seq<u8>> {
        parse_binary(bytes)
    }

    open spec fn encode(v: Seq<u8>) -> Seq<u8> {
        binary_bytes(v)
    }

    open spec fn encodable(v: Seq<u8>) -> bool {
        v.len() <= i32::MAX
    }

    fn read(src: &mut Slice<'a>) -> (r: Result<Vec<u8>, DmxError>) {
        let b = src.read_binary()?;
        Ok(vstd::slice::slice_to_vec(b))
    }

    proof fn lemma_round_trip(v: Seq<u8>, rest: Seq<u8>) {
        lemma_binary_round_trip(v, rest);
    }
}

/// The models of a sequence of values.
pub open spec fn views<T: View>(s: Seq<T>) -> Seq<T::V> {
    s.map_values(|t: T| t@)
}

/// `count` items of `T`, one after the other.
pub open spec fn parse_many<'a, T: Readable<'a>>(b: Seq<u8>, count: nat) -> Parsed<Seq<T::V>>
    decreases count,
{
    if count == 0 {
        Ok((seq![], 0))
    } else {
        match parse_many::<T>(b, (count - 1) as nat) {
            Ok((vs, k)) => match T::parse(b.skip(k as int)) {
                Ok((v, m)) => Ok((vs.push(v), k + m)),
                Err(e) => Err(e),
            },
            Err(e) => Err(e),
        }
    }
}

/// A signed 32-bit count, then that many items of `T`; a negative count
/// stands for none.
pub open spec fn parse_counted<'a, T: Readable<'a>>(b: Seq<u8>) -> Parsed<Seq<T::V>> {
    match <i32 as Readable>::parse(b) {
        Ok((c, n)) => match parse_many::<T>(b.skip(n as int), if c < 0 { 0 } else { c as nat }) {
            Ok((vs, m)) => Ok((vs, n + m)),
            Err(e) => Err(e),
        },
        Err(e) => Err(e),
    }
}

/// The encodings of `vs`, one after the other.
pub open spec fn encode_many<'a, T: Readable<'a>>(vs: Seq<T::V>) -> Seq<u8>
    decreases vs.len(),
{
    if vs.len() == 0 {
        seq![]
    } else {
        encode_many::<T>(vs.drop_last()) + T::encode(vs.last())
    }
}

/// The count of `vs`, then their encodings.
pub open spec fn encode_counted<'a, T: Readable<'a>>(vs: Seq<T::V>) -> Seq<u8> {
    <i32 as Readable>::encode(vs.len() as i32) + encode_many::<T>(vs)
}

pub proof fn lemma_many_error<'a, T: Readable<'a>>(b: Seq<u8>, i: nat, count: nat)
    requires
        i <= count,
        parse_many::<T>(b, i) is Err,
    ensures
        parse_many::<T>(b, count) == parse_many::<T>(b, i),
    decreases count - i,
{
    if i < count {
        lemma_many_error::<T>(b, i, (count - 1) as nat);
    }
}

pub proof fn lemma_many_round_trip<'a, T: Readable<'a>>(vs: Seq<T::V>, rest: Seq<u8>)
    requires
        forall|i: int| 0 <= i < vs.len() ==> T::encodable(#[trigger] vs[i]),
    ensures
        parse_many::<T>(encode_many::<T>(vs) + rest, vs.len()) == Ok::<(Seq<T::V>, nat), ErrorModel>(
            (vs, encode_many::<T>(vs).len()),
        ),
    decreases vs.len(),
{
    if vs.len() == 0 {
        assert(vs =~= seq![]);
    } else {
        let init = vs.drop_last();
        let last = vs.last();
        let e0 = encode_many::<T>(init);
        let e1 = T::encode(last);
        assert(encode_many::<T>(vs) == e0 + e1);
        let b = e0 + e1 + rest;
        assert(b == e0 + (e1 + rest));
        assert forall|i: int| 0 <= i < init.len() implies T::encodable(#[trigger] init[i]) by {
            assert(init[i] == vs[i]);
        }
        lemma_many_round_trip::<T>(init, e1 + rest);
        assert(b.skip(e0.len() as int) =~= e1 + rest);
        assert(T::encodable(vs[vs.len() - 1]));
        T::lemma_round_trip(last, rest);
        assert(init.push(last) =~= vs);
        assert(parse_many::<T>(b, init.len()) == Ok::<(Seq<T::V>, nat), ErrorModel>((init, e0.len())));
        assert(T::parse(b.skip(e0.len() as int)) == Ok::<(T::V, nat), ErrorModel>((last, e1.len())));
    }
}

pub proof fn lemma_counted_round_trip<'a, T: Readable<'a>>(vs: Seq<T::V>, rest: Seq<u8>)
    requires
        vs.len() <= i32::MAX,
        forall|i: int| 0 <= i < vs.len() ==> T::encodable(#[trigger] vs[i]),
    ensures
        parse_counted::<T>(encode_counted::<T>(vs) + rest) == Ok::<(Seq<T::V>, nat), ErrorModel>(
            (vs, encode_counted::<T>(vs).len()),
        ),
{
    let c = vs.len() as i32;
    let e0 = <i32 as Readable>::encode(c);
    let e1 = encode_many::<T>(vs);
    let b = e0 + e1 + rest;
    assert(b == e0 + (e1 + rest));
    <i32 as Readable>::lemma_round_trip(c, e1 + rest);
    assert(b.skip(4) =~= e1 + rest);
    lemma_many_round_trip::<T>(vs, rest);
}

/// Reads `count` items of `T`, one after the other.
pub fn read_many<'a, T: Readable<'a>>(src: &mut Slice<'a>, count: u32) -> (r: Result<Vec<T>, DmxError>)
    ensures
        r is Ok ==> r->Ok_0@.len() == count,
        match parse_many::<T>(old(src)@, count as nat) {
            Ok((vs, n)) => r is Ok && views(r->Ok_0@) == vs && n <= old(src)@.len()
                && final(src)@ == old(src)@.skip(n as int),
            Err(e) => r is Err && r->Err_0@ == e,
        },
{
    let ghost before = src@;
    let mut out: Vec<T> = Vec::new();
    let mut i: u32 = 0;
    let ghost mut k: nat = 0;
    assert(views(out@) =~= seq![]);
    while i < count
        invariant
            before == old(src)@,
            i <= count,
            out@.len() == i,
            k <= before.len(),
            src@ == before.skip(k as int),
            parse_many::<T>(before, i as nat) == Ok::<(Seq<T::V>, nat), ErrorModel>(
                (views(out@), k),
            ),
        decreases count - i,
    {
        let ghost here = src@;
        match T::read(src) {
            Ok(v) => {
                proof {
                    let m = choose|m: nat| T::parse(here) == Ok::<(T::V, nat), ErrorModel>((v@, m));
                    assert(src@ =~= before.skip((k + m) as int));
                    k = k + m;
                }
                let ghost prev = out@;
                out.push(v);
                assert(views(out@) =~= views(prev).push(v@)) by {
                    assert(out@ =~= prev.push(v));
                };
            },
            Err(e) => {
                proof {
                    assert(parse_many::<T>(before, (i + 1) as nat) == Err::<
                        (Seq<T::V>, nat),
                        ErrorModel,
                    >(e@));
                    lemma_many_error::<T>(before, (i + 1) as nat, count as nat);
                }
                return Err(e);
            },
        }
        i = i + 1;
    }
    Ok(out)
}

/// Reads a signed 32-bit count, then that many items of `T`.
pub fn read_counted<'a, T: Readable<'a>>(src: &mut Slice<'a>) -> (r: Result<Vec<T>, DmxError>)
    ensures
        match parse_counted::<T>(old(src)@) {
            Ok((vs, n)) => r is Ok && views(r->Ok_0@) == vs && n <= old(src)@.len()
                && final(src)@ == old(src)@.skip(n as int),
            Err(e) => r is Err && r->Err_0@ == e,
        },
{
    let ghost before = src@;
    let c = <i32 as Readable>::read(src)?;
    let count: u32 = if c < 0 {
        0
    } else {
        c as u32
    };
    let ghost mid = src@;
    let r = read_many::<T>(src, count);
    proof {
        if let Ok((vs, m)) = parse_many::<T>(mid, count as nat) {
            assert(mid.skip(m as int) =~= before.skip(4 + m as int));
        }
    }
    r
}

/// `n` little-endian 32-bit words at the start of `b`.
pub open spec fn words_of(b: Seq<u8>, n: nat) -> Seq<u32> {
    Seq::new(n, |i: int| le_u32(b.subrange(4 * i, 4 * i + 4)))
}

/// The little-endian bytes of `ws`, one word after the other.
pub open spec fn words_bytes(ws: Seq<u32>) -> Seq<u8>
    decreases ws.len(),
{
    if ws.len() == 0 {
        seq![]
    } else {
        words_bytes(ws.drop_last()) + u32_bytes(ws.last())
    }
}

pub proof fn lemma_words_bytes_len(ws: Seq<u32>)
    ensures
        words_bytes(ws).len() == 4 * ws.len(),
    decreases ws.len(),
{
    if ws.len() > 0 {
        lemma_words_bytes_len(ws.drop_last());
    }
}

pub proof fn lemma_words_round_trip(ws: Seq<u32>, rest: Seq<u8>)
    ensures
        words_of(words_bytes(ws) + rest, ws.len()) == ws,
    decreases ws.len(),
{
    lemma_words_bytes_len(ws);
    if ws.len() > 0 {
        let init = ws.drop_last();
        let tail = u32_bytes(ws.last());
        lemma_words_bytes_len(init);
        lemma_words_round_trip(init, tail + rest);
        let b = words_bytes(ws) + rest;
        assert(b =~= words_bytes(init) + (tail + rest));
        assert forall|i: int| 0 <= i < ws.len() implies #[trigger] words_of(b, ws.len())[i] == ws[i] by {
            if i < init.len() {
                assert(words_of(words_bytes(init) + (tail + rest), init.len())[i] == init[i]);
            } else {
                assert(b.subrange(4 * i, 4 * i + 4) =~= tail);
                lemma_u32_bytes(ws.last());
            }
        }
        assert(words_of(b, ws.len()) =~= ws);
    }
}

/// Little-endian value of the four bytes of `b` at `off`.
pub fn le_u32_at(b: &[u8], off: usize) -> (r: u32)
    requires
        off + 4 <= b@.len(),
    ensures
        r == le_u32(b@.subrange(off as int, off + 4)),
{
    (b[off] as u32) | ((b[off + 1] as u32) << 8u32) | ((b[off + 2] as u32) << 16u32) | ((b[off
        + 3] as u32) << 24u32)
}

/// A string held by a decoded document, borrowed from the input (`&'a str`)
/// or owned (`String`).
pub trait ReaderString<'a>: View<V = Seq<char>> + Sized {
    /// The string that `b` encodes, if it is valid UTF-8.
    fn from_utf8(b: &'a [u8]) -> (r: Result<Self, DmxError>)
        ensures
            valid_utf8(b@) ==> r is Ok && r->Ok_0@ == decode_utf8(b@),
            !valid_utf8(b@) ==> r is Err && r->Err_0@ == ErrorModel::Encoding(b@),
    ;

    /// The characters, as a string slice.
    fn as_str(&self) -> (r: &str)
        ensures
            r@ == self@,
    ;

    /// An owned copy of the characters.
    fn to_owned_string(&self) -> (r: String)
        ensures
            r@ == self@,
    ;
}

impl<'a> ReaderString<'a> for &'a str {
    fn from_utf8(b: &'a [u8]) -> (r: Result<&'a str, DmxError>) {
        match utf8_str(b) {
            Some(s) => Ok(s),
            None => Err(DmxError::Encoding(vstd::slice::slice_to_vec(b))),
        }
    }

    fn as_str(&self) -> (r: &str) {
        *self
    }

    fn to_owned_string(&self) -> (r: String) {
        (*self).to_owned()
    }
}

impl<'a> ReaderString<'a> for String {
    fn from_utf8(b: &'a [u8]) -> (r: Result<String, DmxError>) {
        match utf8_str(b) {
            Some(s) => Ok(s.to_owned()),
            None => Err(DmxError::Encoding(vstd::slice::slice_to_vec(b))),
        }
    }

    fn as_str(&self) -> (r: &str) {
        self.as_str()
    }

    fn to_owned_string(&self) -> (r: String) {
        self.clone()
    }
}

pub proof fn lemma_many_same<'a, T1: Readable<'a>, T2: Readable<'a> + View<V = T1::V>>(
    b: Seq<u8>,
    count: nat,
)
    requires
        forall|x: Seq<u8>| T1::parse(x) == T2::parse(x),
    ensures
        parse_many::<T1>(b, count) == parse_many::<T2>(b, count),
    decreases count,
{
    if count > 0 {
        lemma_many_same::<T1, T2>(b, (count - 1) as nat);
    }
}

pub proof fn lemma_counted_same<'a, T1: Readable<'a>, T2: Readable<'a> + View<V = T1::V>>(
    b: Seq<u8>,
)
    requires
        forall|x: Seq<u8>| T1::parse(x) == T2::parse(x),
    ensures
        parse_counted::<T1>(b) == parse_counted::<T2>(b),
{
    if let Ok((c, n)) = <i32 as Readable>::parse(b) {
        lemma_many_same::<T1, T2>(b.skip(n as int), if c < 0 {
            0
        } else {
            c as nat
        });
    }
}

/// An ownership mode for decoding: how byte and string payloads are held.
/// The decoder and the materialization engine are written once over it.
pub trait Reader<'a> {
    type Buffer: Readable<'a> + View<V = Seq<u8>>;
    type String: Readable<'a> + ReaderString<'a>;
}

/// Payloads are views into the input buffer.
pub struct Borrowed;

/// Payloads are fresh copies, independent of the input buffer.
pub struct Owned;

impl<'a> Reader<'a> for Borrowed {
    type Buffer = &'a [u8];
    type String = &'a str;
}

impl<'a> Reader<'a> for Owned {
    type Buffer = Vec<u8>;
    type String = String;
}

} // verus!
