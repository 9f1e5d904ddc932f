//! Wire data types shared by every packet: error taxonomy, byte-source
//! helpers, and the fixed-width big-endian codecs.

use vstd::prelude::*;
use std::collections::VecDeque;

pub mod var;

verus! {

/// Why decoding a wire value from a byte source failed.
#[derive(Debug, Clone, PartialEq, Eq)]
pub enum DataTypeDecodeError {
    /// The byte source ran out in the middle of a variable-length sequence.
    PrematureEndOfVarNumber,
    /// A variable-length number kept its continuation bit set past the last
    /// group that fits its bit width.
    VarNumberTooBig,
    /// A decoded integer does not fit the range the field calls for
    /// (for example a negative string length).
    TryFromIntError,
    /// The bytes of a string field are not valid UTF-8.
    FromUtf8Error,
    /// The byte source ran out in the middle of a fixed-width value.
    PrematureEnd,
    /// A restricted VarInt field carried a value outside its enumeration.
    InvalidVarIntEnumVariant {
        /// The value that was received.
        variant: var::VarInt,
        /// The name of the enumeration the field belongs to.
        enumeration: String,
    },
}

/// Why encoding a wire value failed.
#[derive(Debug, Clone, PartialEq, Eq)]
pub enum DataTypeEncodeError {
    /// A length does not fit the integer type the wire format calls for.
    TryFromIntError,
}

/// The unsigned 64-bit value spelled by eight big-endian bytes.
pub open spec fn spec_u64_from_be(s: Seq<u8>) -> int
    recommends
        s.len() == 8,
{
    s[0] * 0x100_0000_0000_0000 + s[1] * 0x1_0000_0000_0000 + s[2] * 0x100_0000_0000
        + s[3] * 0x1_0000_0000 + s[4] * 0x100_0000 + s[5] * 0x1_0000 + s[6] * 0x100 + s[7]
}

/// Take exactly `count` bytes off the front of `bytes`; on a short source the
/// whole source is consumed and the read fails.
#[verifier::loop_isolation(false)]
pub fn drain(bytes: &mut VecDeque<u8>, count: usize) -> (r: Result<Vec<u8>, DataTypeDecodeError>)
    ensures
        old(bytes)@.len() >= count ==> (r matches Ok(v) && v@ == old(bytes)@.take(count as int)
            && final(bytes)@ == old(bytes)@.skip(count as int)),
        old(bytes)@.len() < count ==> r == Err::<Vec<u8>, DataTypeDecodeError>(
            DataTypeDecodeError::PrematureEndOfVarNumber,
        ) && final(bytes)@ == Seq::<u8>::empty(),
{
    let ghost orig: Seq<u8> = bytes@;
    let mut output: Vec<u8> = Vec::new();
    let mut i: usize = 0;
    while i < count
        invariant
            i <= count,
            i <= orig.len(),
            output@ == orig.take(i as int),
            bytes@ == orig.skip(i as int),
        decreases count - i,
    {
        match bytes.pop_front() {
            Some(b) => {
                output.push(b);
                proof {
                    assert(output@ =~= orig.take(i + 1));
                    assert(bytes@ =~= orig.skip(i + 1));
                }
            },
            None => {
                return Err(DataTypeDecodeError::PrematureEndOfVarNumber);
            },
        }
        i = i + 1;
    }
    Ok(output)
}

/// Read a big-endian unsigned 16-bit value: two bytes, most significant first.
pub fn parse_unsigned_short(bytes: &mut VecDeque<u8>) -> (r: Result<u16, DataTypeDecodeError>)
    ensures
        old(bytes)@.len() >= 2 ==> (r matches Ok(v) && v == old(bytes)@[0] * 0x100
            + old(bytes)@[1] && final(bytes)@ == old(bytes)@.skip(2)),
        old(bytes)@.len() < 2 ==> r == Err::<u16, DataTypeDecodeError>(
            DataTypeDecodeError::PrematureEnd,
        ) && final(bytes)@ == Seq::<u8>::empty(),
{
    let b0: u8 = match bytes.pop_front() {
        Some(b) => b,
        None => {
            return Err(DataTypeDecodeError::PrematureEnd);
        },
    };
    let b1: u8 = match bytes.pop_front() {
        Some(b) => b,
        None => {
            return Err(DataTypeDecodeError::PrematureEnd);
        },
    };
    proof {
        assert(bytes@ =~= old(bytes)@.skip(2));
    }
    Ok((b0 as u16) * 0x100 + (b1 as u16))
}

/// Read a big-endian signed 64-bit value: eight bytes, most significant first.
pub fn parse_long(bytes: &mut VecDeque<u8>) -> (r: Result<i64, DataTypeDecodeError>)
    ensures
        old(bytes)@.len() >= 8 ==> (r matches Ok(v) && v as u64 == spec_u64_from_be(
            old(bytes)@.take(8),
        ) && final(bytes)@ == old(bytes)@.skip(8)),
        old(bytes)@.len() < 8 ==> r == Err::<i64, DataTypeDecodeError>(
            DataTypeDecodeError::PrematureEnd,
        ) && final(bytes)@ == Seq::<u8>::empty(),
{
    let b: Vec<u8> = match drain(bytes, 8) {
        Ok(v) => v,
        Err(_) => {
            return Err(DataTypeDecodeError::PrematureEnd);
        },
    };
    let value: u64 = (b[0] as u64) * 0x100_0000_0000_0000 + (b[1] as u64) * 0x1_0000_0000_0000
        + (b[2] as u64) * 0x100_0000_0000 + (b[3] as u64) * 0x1_0000_0000 + (b[4] as u64)
        * 0x100_0000 + (b[5] as u64) * 0x1_0000 + (b[6] as u64) * 0x100 + (b[7] as u64);
    let r: i64 = value as i64;
    proof {
        assert(r as u64 == value) by (bit_vector)
            requires
                r == value as i64,
        ;
    }
    Ok(r)
}

/// The uniform capability of every wire type: construct it from its natural
/// value, extract that value, decode it from a byte source and encode it to
/// a byte sink, so packets can be written as plain field lists, and generic
/// framing code can reason about any field's bytes.
pub trait DataType<Inner>: Sized + Clone {
    /// Wrap a natural value.
    fn new(value: Inner) -> Self;

    /// The natural value, as an owned copy.
    fn get(&self) -> Inner;

    /// The natural value, by reference.
    fn get_ref(&self) -> &Inner;

    /// The equality the wire carries for this type: full value equality for
    /// the numeric types, equality of the text for strings.
    spec fn wire_eq(x: &Self, y: &Self) -> bool;

    /// Whether this value can be written at all (a length it carries must
    /// fit its prefix).
    spec fn spec_encodable(&self) -> bool;

    /// The bytes an encodable value writes.
    spec fn spec_encoding(&self) -> Seq<u8>;

    /// Whether the front of `s` spells the value `x` in exactly `n` bytes.
    spec fn spec_decoded_as(s: Seq<u8>, x: &Self, n: int) -> bool;

    /// Decode one value off the front of `from`: on success the consumed
    /// prefix spells exactly the value returned; whatever happens, only a
    /// prefix of the source is consumed.
    fn decode(from: &mut VecDeque<u8>) -> (r: Result<Self, DataTypeDecodeError>)
        ensures
            exists|k: int|
                0 <= k <= old(from)@.len() && final(from)@ == #[trigger] old(from)@.skip(k),
            r matches Ok(v) ==> exists|n: int|
                0 <= n <= old(from)@.len() && #[trigger] Self::spec_decoded_as(old(from)@, &v, n)
                    && final(from)@ == old(from)@.skip(n),
    ;

    /// Append the wire encoding of this value to `to`: an encodable value
    /// appends exactly its encoding, one that is not encodable fails;
    /// whatever happens, the sink keeps what it already held.
    fn encode(&self, to: &mut Vec<u8>) -> (r: Result<(), DataTypeEncodeError>)
        ensures
            final(to)@.len() >= old(to)@.len(),
            final(to)@.take(old(to)@.len() as int) == old(to)@,
            self.spec_encodable() ==> r == Ok::<(), DataTypeEncodeError>(()) && final(to)@ == old(
                to,
            )@ + self.spec_encoding(),
            !self.spec_encodable() ==> r is Err,
    ;

    /// Law: whatever bytes follow it, an encodable value's encoding decodes
    /// back to that value, consuming exactly the encoding.
    proof fn lemma_encoding_round_trip(&self, rest: Seq<u8>)
        requires
            self.spec_encodable(),
        ensures
            Self::spec_decoded_as(
                self.spec_encoding() + rest,
                self,
                self.spec_encoding().len() as int,
            ),
    ;

    /// Law: the front of a byte sequence spells at most one value, in one
    /// length.
    proof fn lemma_decoded_unique(s: Seq<u8>, x1: &Self, n1: int, x2: &Self, n2: int)
        requires
            Self::spec_decoded_as(s, x1, n1),
            Self::spec_decoded_as(s, x2, n2),
        ensures
            n1 == n2,
            Self::wire_eq(x1, x2),
    ;
}

/// The two big-endian bytes of an unsigned 16-bit value.
pub open spec fn spec_u16_be_bytes(v: u16) -> Seq<u8> {
    seq![(v >> 8) as u8, v as u8]
}

/// The eight big-endian bytes of an unsigned 64-bit value.
pub open spec fn spec_u64_be_bytes(v: u64) -> Seq<u8> {
    seq![
        (v >> 56) as u8,
        (v >> 48) as u8,
        (v >> 40) as u8,
        (v >> 32) as u8,
        (v >> 24) as u8,
        (v >> 16) as u8,
        (v >> 8) as u8,
        v as u8,
    ]
}

impl DataType<u8> for u8 {
    open spec fn wire_eq(x: &u8, y: &u8) -> bool {
        x == y
    }

    open spec fn spec_encodable(&self) -> bool {
        true
    }

    open spec fn spec_encoding(&self) -> Seq<u8> {
        seq![*self]
    }

    open spec fn spec_decoded_as(s: Seq<u8>, x: &u8, n: int) -> bool {
        s.len() >= 1 && *x == s[0] && n == 1
    }

    proof fn lemma_encoding_round_trip(&self, rest: Seq<u8>) {
        assert((seq![*self] + rest)[0] == *self);
    }

    proof fn lemma_decoded_unique(s: Seq<u8>, x1: &u8, n1: int, x2: &u8, n2: int) {
    }

    fn new(value: u8) -> (r: Self)
        ensures
            r == value,
    {
        value
    }

    fn get(&self) -> (r: u8)
        ensures
            r == *self,
    {
        *self
    }

    fn get_ref(&self) -> (r: &u8)
        ensures
            r == self,
    {
        self
    }

    fn decode(from: &mut VecDeque<u8>) -> (r: Result<u8, DataTypeDecodeError>)
        ensures
            old(from)@.len() >= 1 ==> (r matches Ok(v) && v == old(from)@[0] && final(from)@ == old(
                from,
            )@.skip(1)),
            old(from)@.len() == 0 ==> r == Err::<u8, DataTypeDecodeError>(
                DataTypeDecodeError::PrematureEnd,
            ) && final(from)@ == old(from)@,
    {
        proof {
            assert(old(from)@.skip(0) =~= old(from)@);
        }
        let r: Result<u8, DataTypeDecodeError> = match from.pop_front() {
            Some(b) => Ok(b),
            None => Err(DataTypeDecodeError::PrematureEnd),
        };
        proof {
            match &r {
                Ok(v) => {
                    assert(from@ =~= old(from)@.skip(1));
                    assert(<u8 as DataType<u8>>::spec_decoded_as(old(from)@, v, 1));
                },
                Err(_) => {},
            }
        }
        r
    }

    fn encode(&self, to: &mut Vec<u8>) -> (r: Result<(), DataTypeEncodeError>)
        ensures
            r == Ok::<(), DataTypeEncodeError>(()),
            final(to)@ == old(to)@ + seq![*self],
    {
        to.push(*self);
        proof {
            assert(to@ =~= old(to)@ + seq![*self]);
            assert(to@.take(old(to)@.len() as int) =~= old(to)@);
        }
        Ok(())
    }
}

impl DataType<u16> for u16 {
    open spec fn wire_eq(x: &u16, y: &u16) -> bool {
        x == y
    }

    open spec fn spec_encodable(&self) -> bool {
        true
    }

    open spec fn spec_encoding(&self) -> Seq<u8> {
        spec_u16_be_bytes(*self)
    }

    open spec fn spec_decoded_as(s: Seq<u8>, x: &u16, n: int) -> bool {
        s.len() >= 2 && *x == s[0] * 0x100 + s[1] && n == 2
    }

    proof fn lemma_encoding_round_trip(&self, rest: Seq<u8>) {
        let v = *self;
        let s = spec_u16_be_bytes(v) + rest;
        assert(s[0] == (v >> 8) as u8 && s[1] == v as u8);
        assert(((v >> 8) as u8) * 0x100 + (v as u8) == v) by (bit_vector);
    }

    proof fn lemma_decoded_unique(s: Seq<u8>, x1: &u16, n1: int, x2: &u16, n2: int) {
    }

    fn new(value: u16) -> (r: Self)
        ensures
            r == value,
    {
        value
    }

    fn get(&self) -> (r: u16)
        ensures
            r == *self,
    {
        *self
    }

    fn get_ref(&self) -> (r: &u16)
        ensures
            r == self,
    {
        self
    }

    fn decode(from: &mut VecDeque<u8>) -> (r: Result<u16, DataTypeDecodeError>)
        ensures
            old(from)@.len() >= 2 ==> (r matches Ok(v) && v == old(from)@[0] * 0x100 + old(from)@[1]
                && final(from)@ == old(from)@.skip(2)),
            old(from)@.len() < 2 ==> r == Err::<u16, DataTypeDecodeError>(
                DataTypeDecodeError::PrematureEnd,
            ) && final(from)@ == Seq::<u8>::empty(),
    {
        proof {
            assert(old(from)@.skip(old(from)@.len() as int) =~= Seq::<u8>::empty());
        }
        let r: Result<u16, DataTypeDecodeError> = parse_unsigned_short(from);
        proof {
            match &r {
                Ok(v) => {
                    assert(<u16 as DataType<u16>>::spec_decoded_as(old(from)@, v, 2));
                },
                Err(_) => {},
            }
        }
        r
    }

    fn encode(&self, to: &mut Vec<u8>) -> (r: Result<(), DataTypeEncodeError>)
        ensures
            r == Ok::<(), DataTypeEncodeError>(()),
            final(to)@ == old(to)@ + spec_u16_be_bytes(*self),
    {
        to.push((*self >> 8) as u8);
        to.push(*self as u8);
        proof {
            assert(to@ =~= old(to)@ + spec_u16_be_bytes(*self));
            assert(to@.take(old(to)@.len() as int) =~= old(to)@);
        }
        Ok(())
    }
}

impl DataType<i64> for i64 {
    open spec fn wire_eq(x: &i64, y: &i64) -> bool {
        x == y
    }

    open spec fn spec_encodable(&self) -> bool {
        true
    }

    open spec fn spec_encoding(&self) -> Seq<u8> {
        spec_u64_be_bytes(*self as u64)
    }

    open spec fn spec_decoded_as(s: Seq<u8>, x: &i64, n: int) -> bool {
        s.len() >= 8 && *x as u64 == spec_u64_from_be(s.take(8)) && n == 8
    }

    proof fn lemma_encoding_round_trip(&self, rest: Seq<u8>) {
        let u = *self as u64;
        let s = spec_u64_be_bytes(u) + rest;
        assert(s.take(8) =~= spec_u64_be_bytes(u));
        assert(((u >> 56) as u8) * 0x100_0000_0000_0000 + ((u >> 48) as u8) * 0x1_0000_0000_0000
            + ((u >> 40) as u8) * 0x100_0000_0000 + ((u >> 32) as u8) * 0x1_0000_0000 + ((u >> 24)
            as u8) * 0x100_0000 + ((u >> 16) as u8) * 0x1_0000 + ((u >> 8) as u8) * 0x100 + (
        u as u8) == u) by (bit_vector);
    }

    proof fn lemma_decoded_unique(s: Seq<u8>, x1: &i64, n1: int, x2: &i64, n2: int) {
        let a = *x1;
        let b = *x2;
        assert(a as u64 == b as u64 ==> a == b) by (bit_vector);
    }

    fn new(value: i64) -> (r: Self)
        ensures
            r == value,
    {
        value
    }

    fn get(&self) -> (r: i64)
        ensures
            r == *self,
    {
        *self
    }

    fn get_ref(&self) -> (r: &i64)
        ensures
            r == self,
    {
        self
    }

    fn decode(from: &mut VecDeque<u8>) -> (r: Result<i64, DataTypeDecodeError>)
        ensures
            old(from)@.len() >= 8 ==> (r matches Ok(v) && v as u64 == spec_u64_from_be(
                old(from)@.take(8),
            ) && final(from)@ == old(from)@.skip(8)),
            old(from)@.len() < 8 ==> r == Err::<i64, DataTypeDecodeError>(
                DataTypeDecodeError::PrematureEnd,
            ) && final(from)@ == Seq::<u8>::empty(),
    {
        proof {
            assert(old(from)@.skip(old(from)@.len() as int) =~= Seq::<u8>::empty());
        }
        let r: Result<i64, DataTypeDecodeError> = parse_long(from);
        proof {
            match &r {
                Ok(v) => {
                    assert(<i64 as DataType<i64>>::spec_decoded_as(old(from)@, v, 8));
                },
                Err(_) => {},
            }
        }
        r
    }

    fn encode(&self, to: &mut Vec<u8>) -> (r: Result<(), DataTypeEncodeError>)
        ensures
            r == Ok::<(), DataTypeEncodeError>(()),
            final(to)@ == old(to)@ + spec_u64_be_bytes(*self as u64),
    {
        let u: u64 = *self as u64;
        to.push((u >> 56) as u8);
        to.push((u >> 48) as u8);
        to.push((u >> 40) as u8);
        to.push((u >> 32) as u8);
        to.push((u >> 24) as u8);
        to.push((u >> 16) as u8);
        to.push((u >> 8) as u8);
        to.push(u as u8);
        proof {
            assert(to@ =~= old(to)@ + spec_u64_be_bytes(u));
            assert(to@.take(old(to)@.len() as int) =~= old(to)@);
        }
        Ok(())
    }
}

/// The unsigned 128-bit value spelled by sixteen big-endian bytes.
pub open spec fn spec_u128_from_be(s: Seq<u8>) -> int
    recommends
        s.len() == 16,
{
    s[0] * 0x1000000000000000000000000000000
        + s[1] * 0x10000000000000000000000000000
        + s[2] * 0x100000000000000000000000000
        + s[3] * 0x1000000000000000000000000
        + s[4] * 0x10000000000000000000000
        + s[5] * 0x100000000000000000000
        + s[6] * 0x1000000000000000000
        + s[7] * 0x10000000000000000
        + s[8] * 0x100000000000000
        + s[9] * 0x1000000000000
        + s[10] * 0x10000000000
        + s[11] * 0x100000000
        + s[12] * 0x1000000
        + s[13] * 0x10000
        + s[14] * 0x100
        + s[15]
}

/// The sixteen big-endian bytes of an unsigned 128-bit value.
pub open spec fn spec_u128_be_bytes(v: u128) -> Seq<u8> {
    seq![
        (v >> 120) as u8,
        (v >> 112) as u8,
        (v >> 104) as u8,
        (v >> 96) as u8,
        (v >> 88) as u8,
        (v >> 80) as u8,
        (v >> 72) as u8,
        (v >> 64) as u8,
        (v >> 56) as u8,
        (v >> 48) as u8,
        (v >> 40) as u8,
        (v >> 32) as u8,
        (v >> 24) as u8,
        (v >> 16) as u8,
        (v >> 8) as u8,
        v as u8,
    ]
}

/// A 128-bit identifier, wire-encoded as sixteen raw big-endian bytes with
/// no length prefix.
#[derive(PartialEq, Eq, Structural, Debug, Clone, Copy)]
pub struct Uuid(pub u128);

impl DataType<u128> for Uuid {
    open spec fn wire_eq(x: &Uuid, y: &Uuid) -> bool {
        x == y
    }

    open spec fn spec_encodable(&self) -> bool {
        true
    }

    open spec fn spec_encoding(&self) -> Seq<u8> {
        spec_u128_be_bytes(self.0)
    }

    open spec fn spec_decoded_as(s: Seq<u8>, x: &Uuid, n: int) -> bool {
        s.len() >= 16 && x.0 == spec_u128_from_be(s.take(16)) && n == 16
    }

    proof fn lemma_encoding_round_trip(&self, rest: Seq<u8>) {
        let u = self.0;
        let s = spec_u128_be_bytes(u) + rest;
        assert(s.take(16) =~= spec_u128_be_bytes(u));
        assert(((u >> 120) as u8) * 0x1000000000000000000000000000000 + ((u >> 112) as u8)
            * 0x10000000000000000000000000000 + ((u >> 104) as u8) * 0x100000000000000000000000000
            + ((u >> 96) as u8) * 0x1000000000000000000000000 + ((u >> 88) as u8)
            * 0x10000000000000000000000 + ((u >> 80) as u8) * 0x100000000000000000000 + ((u >> 72)
            as u8) * 0x1000000000000000000 + ((u >> 64) as u8) * 0x10000000000000000 + ((u >> 56)
            as u8) * 0x100000000000000 + ((u >> 48) as u8) * 0x1000000000000 + ((u >> 40) as u8)
            * 0x10000000000 + ((u >> 32) as u8) * 0x100000000 + ((u >> 24) as u8) * 0x1000000 + ((
        u >> 16) as u8) * 0x10000 + ((u >> 8) as u8) * 0x100 + (u as u8) == u) by (bit_vector);
    }

    proof fn lemma_decoded_unique(s: Seq<u8>, x1: &Uuid, n1: int, x2: &Uuid, n2: int) {
    }

    fn new(value: u128) -> (r: Self)
        ensures
            r.0 == value,
    {
        Uuid(value)
    }

    fn get(&self) -> (r: u128)
        ensures
            r == self.0,
    {
        self.0
    }

    fn get_ref(&self) -> (r: &u128)
        ensures
            r == self.0,
    {
        &self.0
    }

    fn decode(from: &mut VecDeque<u8>) -> (r: Result<Uuid, DataTypeDecodeError>)
        ensures
            old(from)@.len() >= 16 ==> (r matches Ok(v) && v.0 == spec_u128_from_be(
                old(from)@.take(16),
            ) && final(from)@ == old(from)@.skip(16)),
            old(from)@.len() < 16 ==> r == Err::<Uuid, DataTypeDecodeError>(
                DataTypeDecodeError::PrematureEnd,
            ) && final(from)@ == Seq::<u8>::empty(),
    {
        proof {
            assert(old(from)@.skip(old(from)@.len() as int) =~= Seq::<u8>::empty());
        }
        let b: Vec<u8> = match drain(from, 16) {
            Ok(v) => v,
            Err(_) => {
                return Err(DataTypeDecodeError::PrematureEnd);
            },
        };

        let value: u128 = (b[0] as u128) * 0x1000000000000000000000000000000
        + (b[1] as u128) * 0x10000000000000000000000000000
        + (b[2] as u128) * 0x100000000000000000000000000
        + (b[3] as u128) * 0x1000000000000000000000000
        + (b[4] as u128) * 0x10000000000000000000000
        + (b[5] as u128) * 0x100000000000000000000
        + (b[6] as u128) * 0x1000000000000000000
        + (b[7] as u128) * 0x10000000000000000
        + (b[8] as u128) * 0x100000000000000
        + (b[9] as u128) * 0x1000000000000
        + (b[10] as u128) * 0x10000000000
        + (b[11] as u128) * 0x100000000
        + (b[12] as u128) * 0x1000000
        + (b[13] as u128) * 0x10000
        + (b[14] as u128) * 0x100
        + (b[15] as u128);
        let r: Result<Uuid, DataTypeDecodeError> = Ok(Uuid(value));
        proof {
            match &r {
                Ok(v) => {
                    assert(from@ =~= old(from)@.skip(16));
                    assert(<Uuid as DataType<u128>>::spec_decoded_as(old(from)@, v, 16));
                },
                Err(_) => {},
            }
        }
        r
    }

    fn encode(&self, to: &mut Vec<u8>) -> (r: Result<(), DataTypeEncodeError>)
        ensures
            r == Ok::<(), DataTypeEncodeError>(()),
            final(to)@ == old(to)@ + spec_u128_be_bytes(self.0),
    {
        let u: u128 = self.0;
        to.push((u >> 120) as u8);
        to.push((u >> 112) as u8);
        to.push((u >> 104) as u8);
        to.push((u >> 96) as u8);
        to.push((u >> 88) as u8);
        to.push((u >> 80) as u8);
        to.push((u >> 72) as u8);
        to.push((u >> 64) as u8);
        to.push((u >> 56) as u8);
        to.push((u >> 48) as u8);
        to.push((u >> 40) as u8);
        to.push((u >> 32) as u8);
        to.push((u >> 24) as u8);
        to.push((u >> 16) as u8);
        to.push((u >> 8) as u8);
        to.push(u as u8);
        proof {
            assert(to@ =~= old(to)@ + spec_u128_be_bytes(u));
            assert(to@.take(old(to)@.len() as int) =~= old(to)@);
        }
        Ok(())
    }
}

/// A byte-source convenience: read one byte, or a run of bytes, off the
/// front of a buffer.
pub trait ReadBytes {
    /// Read a single byte.
    fn read_byte(&mut self) -> Result<u8, DataTypeDecodeError>;

    /// Read exactly `length` bytes.
    fn read_bytes(&mut self, length: usize) -> Result<Vec<u8>, DataTypeDecodeError>;
}

impl ReadBytes for VecDeque<u8> {
    fn read_byte(&mut self) -> (r: Result<u8, DataTypeDecodeError>)
        ensures
            old(self)@.len() >= 1 ==> (r matches Ok(v) && v == old(self)@[0] && final(self)@ == old(
                self,
            )@.skip(1)),
            old(self)@.len() == 0 ==> r == Err::<u8, DataTypeDecodeError>(
                DataTypeDecodeError::PrematureEnd,
            ) && final(self)@ == old(self)@,
    {
        match self.pop_front() {
            Some(b) => Ok(b),
            None => Err(DataTypeDecodeError::PrematureEnd),
        }
    }

    fn read_bytes(&mut self, length: usize) -> (r: Result<Vec<u8>, DataTypeDecodeError>)
        ensures
            old(self)@.len() >= length ==> (r matches Ok(v) && v@ == old(self)@.take(length as int)
                && final(self)@ == old(self)@.skip(length as int)),
            old(self)@.len() < length ==> r == Err::<Vec<u8>, DataTypeDecodeError>(
                DataTypeDecodeError::PrematureEnd,
            ) && final(self)@ == Seq::<u8>::empty(),
    {
        match drain(self, length) {
            Ok(v) => Ok(v),
            Err(_) => Err(DataTypeDecodeError::PrematureEnd),
        }
    }
}

/// The bytes a run of values writes: each element's encoding in order.
pub open spec fn spec_elements_encoding<T: DataType<T>>(elems: Seq<T>) -> Seq<u8>
    decreases elems.len(),
{
    if elems.len() == 0 {
        Seq::empty()
    } else {
        elems[0].spec_encoding() + spec_elements_encoding(elems.drop_first())
    }
}

/// Whether the front of `s` spells the run `elems` in exactly `n` bytes,
/// element after element.
pub open spec fn spec_elements_decoded_as<T: DataType<T>>(
    s: Seq<u8>,
    elems: Seq<T>,
    n: int,
) -> bool
    decreases elems.len(),
{
    if elems.len() == 0 {
        n == 0
    } else {
        exists|n0: int|
            0 <= n0 <= s.len() && #[trigger] T::spec_decoded_as(s, &elems[0], n0)
                && spec_elements_decoded_as(s.skip(n0), elems.drop_first(), n - n0)
    }
}

/// A run's encoding grows by exactly the pushed value's encoding.
proof fn lemma_elements_encoding_push<T: DataType<T>>(elems: Seq<T>, x: T)
    ensures
        spec_elements_encoding(elems.push(x)) == spec_elements_encoding(elems) + x.spec_encoding(),
    decreases elems.len(),
{
    if elems.len() == 0 {
        assert(elems.push(x)[0] == x);
        assert(elems.push(x).drop_first() =~= Seq::<T>::empty());
        assert(spec_elements_encoding(Seq::<T>::empty()) =~= Seq::<u8>::empty());
        assert(spec_elements_encoding(elems.push(x)) =~= spec_elements_encoding(elems)
            + x.spec_encoding());
    } else {
        lemma_elements_encoding_push::<T>(elems.drop_first(), x);
        assert(elems.push(x).drop_first() =~= elems.drop_first().push(x));
        assert(elems.push(x)[0] == elems[0]);
        assert(spec_elements_encoding(elems.push(x)) =~= spec_elements_encoding(elems)
            + x.spec_encoding());
    }
}

/// A decoded run consumed no more bytes than the source holds.
proof fn lemma_elements_decoded_bounds<T: DataType<T>>(s: Seq<u8>, elems: Seq<T>, n: int)
    requires
        spec_elements_decoded_as(s, elems, n),
    ensures
        0 <= n <= s.len(),
    decreases elems.len(),
{
    if elems.len() > 0 {
        let m0 = choose|m: int|
            0 <= m <= s.len() && #[trigger] T::spec_decoded_as(s, &elems[0], m)
                && spec_elements_decoded_as(s.skip(m), elems.drop_first(), n - m);
        lemma_elements_decoded_bounds::<T>(s.skip(m0), elems.drop_first(), n - m0);
    }
}

/// A decoded run extends by one more value decoded where it left off.
proof fn lemma_elements_decoded_push<T: DataType<T>>(
    s: Seq<u8>,
    elems: Seq<T>,
    n: int,
    x: T,
    n0: int,
)
    requires
        spec_elements_decoded_as(s, elems, n),
        T::spec_decoded_as(s.skip(n), &x, n0),
        0 <= n0 <= s.len() - n,
    ensures
        spec_elements_decoded_as(s, elems.push(x), n + n0),
    decreases elems.len(),
{
    lemma_elements_decoded_bounds::<T>(s, elems, n);
    if elems.len() == 0 {
        assert(s.skip(0) =~= s);
        assert(elems.push(x)[0] == x);
        assert(elems.push(x).drop_first() =~= Seq::<T>::empty());
        assert(T::spec_decoded_as(s, &elems.push(x)[0], n0));
        assert(spec_elements_decoded_as(s.skip(n0), elems.push(x).drop_first(), n + n0 - n0));
    } else {
        let m0 = choose|m: int|
            0 <= m <= s.len() && #[trigger] T::spec_decoded_as(s, &elems[0], m)
                && spec_elements_decoded_as(s.skip(m), elems.drop_first(), n - m);
        lemma_elements_decoded_bounds::<T>(s.skip(m0), elems.drop_first(), n - m0);
        assert(s.skip(m0).skip(n - m0) =~= s.skip(n));
        lemma_elements_decoded_push::<T>(s.skip(m0), elems.drop_first(), n - m0, x, n0);
        assert(elems.push(x).drop_first() =~= elems.drop_first().push(x));
        assert(elems.push(x)[0] == elems[0]);
        assert(T::spec_decoded_as(s, &elems.push(x)[0], m0));
        assert(spec_elements_decoded_as(s.skip(m0), elems.push(x).drop_first(), n + n0 - m0));
    }
}

/// A run of encodable values decodes back from its own encoding, element
/// for element, whatever bytes follow.
proof fn lemma_elements_round_trip<T: DataType<T>>(elems: Seq<T>, rest: Seq<u8>)
    requires
        forall|i: int| 0 <= i < elems.len() ==> (#[trigger] elems[i]).spec_encodable(),
    ensures
        spec_elements_decoded_as(
            spec_elements_encoding(elems) + rest,
            elems,
            spec_elements_encoding(elems).len() as int,
        ),
    decreases elems.len(),
{
    if elems.len() == 0 {
        assert(spec_elements_encoding(elems).len() == 0);
    } else {
        let enc0 = elems[0].spec_encoding();
        let tail = elems.drop_first();
        let enc_tail = spec_elements_encoding(tail);
        let s = spec_elements_encoding(elems) + rest;
        assert(s =~= enc0 + (enc_tail + rest));
        T::lemma_encoding_round_trip(&elems[0], enc_tail + rest);
        assert(forall|i: int| 0 <= i < tail.len() ==> (#[trigger] tail[i]).spec_encodable()) by {
            assert(forall|i: int| 0 <= i < tail.len() ==> tail[i] == elems[i + 1]);
        }
        lemma_elements_round_trip::<T>(tail, rest);
        assert(s.skip(enc0.len() as int) =~= enc_tail + rest);
        assert(T::spec_decoded_as(s, &elems[0], enc0.len() as int));
        assert(spec_elements_encoding(elems).len() == enc0.len() + enc_tail.len());
    }
}

/// Two runs of one length decoded off the same bytes agree, element for
/// element, and took the same byte count.
proof fn lemma_elements_unique<T: DataType<T>>(
    s: Seq<u8>,
    e1: Seq<T>,
    n1: int,
    e2: Seq<T>,
    n2: int,
)
    requires
        spec_elements_decoded_as(s, e1, n1),
        spec_elements_decoded_as(s, e2, n2),
        e1.len() == e2.len(),
    ensures
        n1 == n2,
        forall|i: int| 0 <= i < e1.len() ==> #[trigger] T::wire_eq(&e1[i], &e2[i]),
    decreases e1.len(),
{
    if e1.len() > 0 {
        let m1 = choose|m: int|
            0 <= m <= s.len() && #[trigger] T::spec_decoded_as(s, &e1[0], m)
                && spec_elements_decoded_as(s.skip(m), e1.drop_first(), n1 - m);
        let m2 = choose|m: int|
            0 <= m <= s.len() && #[trigger] T::spec_decoded_as(s, &e2[0], m)
                && spec_elements_decoded_as(s.skip(m), e2.drop_first(), n2 - m);
        T::lemma_decoded_unique(s, &e1[0], m1, &e2[0], m2);
        lemma_elements_unique::<T>(s.skip(m1), e1.drop_first(), n1 - m1, e2.drop_first(), n2 - m2);
        assert forall|i: int| 0 <= i < e1.len() implies #[trigger] T::wire_eq(&e1[i], &e2[i]) by {
            if i > 0 {
                assert(e1.drop_first()[i - 1] == e1[i] && e2.drop_first()[i - 1] == e2[i]);
                assert(T::wire_eq(&e1.drop_first()[i - 1], &e2.drop_first()[i - 1]));
            }
        }
    }
}

/// A run of wire values of one type, prefixed by its length as a VarInt.
#[derive(Clone)]
pub struct Array<T: Clone>(pub Vec<T>);

impl<T: DataType<T>> DataType<Vec<T>> for Array<T> {
    open spec fn wire_eq(x: &Array<T>, y: &Array<T>) -> bool {
        x.0@.len() == y.0@.len() && (forall|i: int|
            0 <= i < x.0@.len() ==> #[trigger] T::wire_eq(&x.0@[i], &y.0@[i]))
    }

    open spec fn spec_encodable(&self) -> bool {
        self.0@.len() <= 0x7fffffff && (forall|i: int|
            0 <= i < self.0@.len() ==> (#[trigger] self.0@[i]).spec_encodable())
    }

    open spec fn spec_encoding(&self) -> Seq<u8> {
        crate::types::var::spec_varint_bytes(self.0@.len() as u32) + spec_elements_encoding(
            self.0@,
        )
    }

    open spec fn spec_decoded_as(s: Seq<u8>, x: &Array<T>, n: int) -> bool {
        match crate::types::var::spec_varint_decode(s) {
            crate::types::var::VarParse::Parsed(c, u) => if c <= 0x7fffffff {
                x.0@.len() == c && spec_elements_decoded_as(s.skip(u as int), x.0@, n - u)
            } else {
                // the count spells a negative 32-bit value: no elements follow
                x.0@.len() == 0 && n == u as int
            },
            crate::types::var::VarParse::TooBig => false,
            crate::types::var::VarParse::Incomplete => false,
        }
    }

    proof fn lemma_encoding_round_trip(&self, rest: Seq<u8>) {
        let elems = self.0@;
        let c: u32 = elems.len() as u32;
        let body = spec_elements_encoding(elems);
        assert(c <= 0x7fffffffu32 ==> ((c as i32) as u32) == c) by (bit_vector);
        crate::types::var::lemma_varint_round_trip(c as i32, body + rest);
        assert(self.spec_encoding() + rest =~= crate::types::var::spec_varint_bytes(c) + (body
            + rest));
        lemma_elements_round_trip::<T>(elems, rest);
        let u = crate::types::var::spec_varint_bytes(c).len() as int;
        assert((crate::types::var::spec_varint_bytes(c) + (body + rest)).skip(u) =~= body + rest);
        assert(self.spec_encoding().len() == u + body.len());
    }

    proof fn lemma_decoded_unique(s: Seq<u8>, x1: &Array<T>, n1: int, x2: &Array<T>, n2: int) {
        match crate::types::var::spec_varint_decode(s) {
            crate::types::var::VarParse::Parsed(c, u) => {
                if c <= 0x7fffffff {
                    lemma_elements_unique::<T>(s.skip(u as int), x1.0@, n1 - u, x2.0@, n2 - u);
                }
            },
            crate::types::var::VarParse::TooBig => {},
            crate::types::var::VarParse::Incomplete => {},
        }
    }

    fn new(value: Vec<T>) -> (r: Self)
        ensures
            r.0 == value,
    {
        Array(value)
    }

    fn get(&self) -> (r: Vec<T>) {
        self.0.clone()
    }

    fn get_ref(&self) -> (r: &Vec<T>)
        ensures
            r == &self.0,
    {
        &self.0
    }

    /// Decode a VarInt count, then that many elements; a negative count
    /// reads no elements.
    #[verifier::loop_isolation(false)]
    fn decode(from: &mut VecDeque<u8>) -> (r: Result<Array<T>, DataTypeDecodeError>)
        ensures
            match crate::types::var::spec_varint_decode(old(from)@) {
                crate::types::var::VarParse::Parsed(n, _) => r matches Ok(a) ==> a.0@.len() == (
                if n <= 0x7fffffff {
                    n as int
                } else {
                    0
                }),
                crate::types::var::VarParse::TooBig => r == Err::<Array<T>, DataTypeDecodeError>(
                    DataTypeDecodeError::VarNumberTooBig,
                ),
                crate::types::var::VarParse::Incomplete => r == Err::<
                    Array<T>,
                    DataTypeDecodeError,
                >(DataTypeDecodeError::PrematureEndOfVarNumber),
            },
    {
        let ghost orig: Seq<u8> = from@;
        let dr: Result<crate::types::var::VarInt, DataTypeDecodeError> =
            crate::types::var::VarInt::decode(from);
        proof {
            assert(orig.skip(orig.len() as int) =~= Seq::<u8>::empty());
            assert(orig.skip(0) =~= orig);
        }
        let vi: crate::types::var::VarInt = match dr {
            Ok(v) => v,
            Err(e) => {
                return Err(e);
            },
        };
        let ghost u: int = orig.len() - from@.len();
        let n0: i32 = vi.0;
        proof {
            match crate::types::var::spec_varint_decode(orig) {
                crate::types::var::VarParse::Parsed(nvg, _) => {
                    assert(nvg as i32 == n0 ==> (n0 >= 0 <==> nvg <= 0x7fffffffu32) && (n0 >= 0
                        ==> n0 as int == nvg as int)) by (bit_vector);
                },
                crate::types::var::VarParse::TooBig => {},
                crate::types::var::VarParse::Incomplete => {},
            }
        }
        let mut result: Vec<T> = Vec::new();
        let mut i: i32 = 0;
        while i < n0
            invariant
                0 <= i,
                i <= n0 || n0 <= 0,
                n0 <= 0 ==> i == 0,
                result@.len() == i,
                0 <= u <= orig.len(),
                u <= orig.len() - from@.len(),
                from@.len() <= orig.len(),
                from@ == orig.skip((orig.len() - from@.len()) as int),
                spec_elements_decoded_as(orig.skip(u), result@, orig.len() - from@.len() - u),
            decreases n0 - i,
        {
            let ghost tc: int = orig.len() - from@.len();
            let ghost before: Seq<u8> = from@;
            let dri: Result<T, DataTypeDecodeError> = T::decode(from);
            proof {
                let k0 = choose|k: int|
                    0 <= k <= before.len() && from@ == #[trigger] before.skip(k);
                assert(from@ =~= orig.skip(tc + k0));
            }
            let item: T = match dri {
                Ok(x) => x,
                Err(e) => {
                    return Err(e);
                },
            };
            proof {
                let m0 = choose|m: int|
                    0 <= m <= before.len() && #[trigger] T::spec_decoded_as(before, &item, m)
                        && from@ == before.skip(m);
                assert(before =~= orig.skip(u).skip(tc - u));
                assert(T::spec_decoded_as(orig.skip(u).skip(tc - u), &item, m0));
                lemma_elements_decoded_push::<T>(orig.skip(u), result@, tc - u, item, m0);
                assert(from@ =~= orig.skip(tc + m0));
            }
            result.push(item);
            i = i + 1;
        }
        let r: Result<Array<T>, DataTypeDecodeError> = Ok(Array(result));
        proof {
            let tcf: int = orig.len() - from@.len();
            match &r {
                Ok(a) => {
                    assert(<Array<T> as DataType<Vec<T>>>::spec_decoded_as(orig, a, tcf));
                },
                Err(_) => {},
            }
        }
        r
    }

    /// Encode the element count as a VarInt, then each element in order; a
    /// run too long for the prefix is rejected and the sink left unchanged.
    #[verifier::loop_isolation(false)]
    fn encode(&self, to: &mut Vec<u8>) -> (r: Result<(), DataTypeEncodeError>)
        ensures
            self.0@.len() > 0x7fffffff ==> r == Err::<(), DataTypeEncodeError>(
                DataTypeEncodeError::TryFromIntError,
            ) && final(to)@ == old(to)@,
    {
        proof {
            assert(to@.take(to@.len() as int) =~= to@);
        }
        if self.0.len() > 0x7fffffff {
            return Err(DataTypeEncodeError::TryFromIntError);
        }
        let vi: crate::types::var::VarInt = crate::types::var::VarInt(self.0.len() as i32);
        proof {
            let len64 = self.0.len() as u64;
            assert(len64 <= 0x7fffffff ==> ((len64 as i32) as u32) == len64) by (bit_vector);
        }
        vi.encode(to)?;
        proof {
            assert(to@.take(old(to)@.len() as int) =~= old(to)@);
            assert(to@ =~= old(to)@ + crate::types::var::spec_varint_bytes(self.0@.len() as u32)
                + spec_elements_encoding(self.0@.take(0)));
        }
        let mut j: usize = 0;
        while j < self.0.len()
            invariant
                j <= self.0.len(),
                self.0@.len() <= 0x7fffffff,
                forall|q: int| 0 <= q < j ==> (#[trigger] self.0@[q]).spec_encodable(),
                to@ == old(to)@ + crate::types::var::spec_varint_bytes(self.0@.len() as u32)
                    + spec_elements_encoding(self.0@.take(j as int)),
                to@.len() >= old(to)@.len(),
                to@.take(old(to)@.len() as int) == old(to)@,
            decreases self.0.len() - j,
        {
            let ghost mid: Seq<u8> = to@;
            let item: &T = &self.0[j];
            let enc: Result<(), DataTypeEncodeError> = item.encode(to);
            proof {
                assert(to@.take(old(to)@.len() as int) =~= to@.take(mid.len() as int).take(
                    old(to)@.len() as int,
                ));
            }
            match enc {
                Ok(_) => {},
                Err(e) => {
                    return Err(e);
                },
            }
            proof {
                lemma_elements_encoding_push::<T>(self.0@.take(j as int), self.0@[j as int]);
                assert(self.0@.take(j as int).push(self.0@[j as int]) =~= self.0@.take(j + 1));
                assert(to@ =~= old(to)@ + crate::types::var::spec_varint_bytes(
                    self.0@.len() as u32,
                ) + spec_elements_encoding(self.0@.take(j + 1)));
            }
            j = j + 1;
        }
        proof {
            assert(self.0@.take(self.0@.len() as int) =~= self.0@);
        }
        Ok(())
    }
}

} // verus!
