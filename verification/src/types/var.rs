//! Variable-length wire types: VarInt, VarLong and VarString.

use vstd::prelude::*;
use vstd::string::StrSliceExecFns;
use vstd::utf8::valid_utf8;
use vstd::utf8::decode_utf8;
use vstd::utf8::encode_utf8;
use vstd::utf8::encode_utf8_valid_utf8;
use vstd::utf8::encode_utf8_decode_utf8;
use std::collections::VecDeque;
use crate::types::DataTypeDecodeError;
use crate::types::DataTypeEncodeError;
use crate::types::DataType;
use crate::types::drain;

verus! {

/// A variable-length signed 32-bit integer.
///
/// On the wire it is 1 to 5 bytes: 7 data bits per byte, least-significant
/// group first, with the high bit of each byte marking continuation.
#[derive(PartialEq, Eq, Structural, Debug, Clone, Copy)]
pub struct VarInt(pub i32);

/// The canonical (minimal-length) encoding of a 32-bit value.
pub open spec fn spec_varint_bytes(v: u32) -> Seq<u8>
    decreases v,
{
    if v < 0x80 {
        seq![v as u8]
    } else {
        proof {
            assert(v >= 0x80 ==> (v >> 7) < v) by (bit_vector);
        }
        seq![((v & 0x7f) | 0x80) as u8] + spec_varint_bytes(v >> 7)
    }
}

/// One decoding outcome of a variable-length number.
pub enum VarParse<T> {
    /// A terminating group was found: the value and how many bytes it took.
    Parsed(T, nat),
    /// The continuation bit was still set when the bit budget ran out.
    TooBig,
    /// The byte source ran out before a terminating group.
    Incomplete,
}

/// Decoding a 32-bit variable-length number from `s`, having already
/// accumulated `acc` with the next group due at bit position `pos`.
pub open spec fn spec_varint_decode_at(s: Seq<u8>, pos: u32, acc: u32) -> VarParse<u32>
    decreases s.len(),
{
    if s.len() == 0 {
        VarParse::Incomplete
    } else {
        let b = s[0];
        let acc2 = acc | (((b & 0x7f) as u32) << pos);
        if b & 0x80 == 0 {
            VarParse::Parsed(acc2, 1)
        } else if pos + 7 >= 32 {
            VarParse::TooBig
        } else {
            match spec_varint_decode_at(s.drop_first(), (pos + 7) as u32, acc2) {
                VarParse::Parsed(v, n) => VarParse::Parsed(v, n + 1),
                VarParse::TooBig => VarParse::TooBig,
                VarParse::Incomplete => VarParse::Incomplete,
            }
        }
    }
}

/// Decoding a 32-bit variable-length number from the front of `s`.
pub open spec fn spec_varint_decode(s: Seq<u8>) -> VarParse<u32> {
    spec_varint_decode_at(s, 0, 0)
}

impl VarInt {
    /// Wrap a value.
    pub fn new(value: i32) -> (r: Self)
        ensures
            r.0 == value,
    {
        VarInt(value)
    }

    /// The wrapped value.
    pub fn get(&self) -> (r: i32)
        ensures
            r == self.0,
    {
        self.0
    }

    /// Append the minimal wire encoding of this value to `to`.
    #[verifier::loop_isolation(false)]
    pub fn encode(&self, to: &mut Vec<u8>) -> (r: Result<(), DataTypeEncodeError>)
        ensures
            r == Ok::<(), DataTypeEncodeError>(()),
            final(to)@ == old(to)@ + spec_varint_bytes(self.0 as u32),
    {
        let mut value: u32 = self.0 as u32;
        loop
            invariant
                old(to)@ + spec_varint_bytes(self.0 as u32) == to@ + spec_varint_bytes(value),
            decreases value,
        {
            if (value & !0x7fu32) == 0 {
                proof {
                    assert(value & !0x7fu32 == 0 ==> value < 0x80) by (bit_vector);
                }
                to.push(value as u8);
                proof {
                    assert(to@ =~= old(to)@ + spec_varint_bytes(self.0 as u32));
                }
                return Ok(());
            }
            let ghost pre: Seq<u8> = to@;
            let b: u8 = ((value & 0x7f) | 0x80) as u8;
            to.push(b);
            proof {
                assert(value & !0x7fu32 != 0 ==> value >= 0x80) by (bit_vector);
                assert(value >= 0x80 ==> value >> 7 < value) by (bit_vector);
                assert(to@ + spec_varint_bytes(value >> 7) =~= pre + spec_varint_bytes(value));
            }
            value = value >> 7;
        }
    }

    /// Decode a VarInt off the front of `bytes`.
    #[verifier::loop_isolation(false)]
    pub fn decode(bytes: &mut VecDeque<u8>) -> (r: Result<VarInt, DataTypeDecodeError>)
        ensures
            match spec_varint_decode(old(bytes)@) {
                VarParse::Parsed(v, n) => (r matches Ok(vi) && vi.0 == v as i32 && n <= old(
                    bytes,
                )@.len() && final(bytes)@ == old(bytes)@.skip(n as int)),
                VarParse::TooBig => r == Err::<VarInt, DataTypeDecodeError>(
                    DataTypeDecodeError::VarNumberTooBig,
                ) && old(bytes)@.len() >= 5 && final(bytes)@ == old(bytes)@.skip(5),
                VarParse::Incomplete => r == Err::<VarInt, DataTypeDecodeError>(
                    DataTypeDecodeError::PrematureEndOfVarNumber,
                ) && final(bytes)@ == Seq::<u8>::empty(),
            },
    {
        let ghost orig: Seq<u8> = bytes@;
        let mut value: u32 = 0;
        let mut position: u32 = 0;
        loop
            invariant
                position <= 28,
                bytes@.len() <= orig.len(),
                position == 7 * (orig.len() - bytes@.len()),
                bytes@ == orig.skip((orig.len() - bytes@.len()) as int),
                spec_varint_decode(orig) == add_used(
                    spec_varint_decode_at(bytes@, position, value),
                    (orig.len() - bytes@.len()) as nat,
                ),
            decreases bytes@.len(),
        {
            let ghost consumed: int = orig.len() - bytes@.len();
            let b: u8 = match bytes.pop_front() {
                Some(b) => b,
                None => {
                    return Err(DataTypeDecodeError::PrematureEndOfVarNumber);
                },
            };
            proof {
                assert(bytes@ =~= orig.skip(consumed + 1));
            }
            value = value | (((b & 0x7f) as u32) << position);
            if b & 0x80 == 0 {
                return Ok(VarInt(value as i32));
            }
            position = position + 7;
            if position >= 32 {
                return Err(DataTypeDecodeError::VarNumberTooBig);
            }
        }
    }
}

/// Decoding from bit position `pos` with low bits `acc` already gathered
/// consumes exactly the encoding of `v` and recovers `acc` with `v` shifted
/// into the remaining bit positions, whatever bytes follow.
proof fn lemma_varint_decode_bytes(v: u32, pos: u32, acc: u32, rest: Seq<u8>)
    requires
        pos <= 28,
        pos % 7 == 0,
        (v << pos) >> pos == v,
        acc >> pos == 0,
    ensures
        spec_varint_decode_at(spec_varint_bytes(v) + rest, pos, acc) == VarParse::Parsed(
            (acc | (v << pos)) as u32,
            spec_varint_bytes(v).len() as nat,
        ),
    decreases v,
{
    let s = spec_varint_bytes(v) + rest;
    if v < 0x80 {
        assert(s[0] == v as u8);
        assert((v as u8) & 0x80 == 0 && (((v as u8) & 0x7f) as u32) == v) by (bit_vector)
            requires
                v < 0x80,
        ;
    } else {
        let b0 = ((v & 0x7f) | 0x80) as u8;
        assert(s[0] == b0);
        let pos7 = (pos + 7) as u32;
        let acc2 = (acc | (((b0 & 0x7f) as u32) << pos)) as u32;
        assert(b0 & 0x80 != 0 && pos7 <= 28 && pos7 % 7 == 0 && ((v >> 7) << pos7) >> pos7 == v
            >> 7 && acc2 >> pos7 == 0 && v >> 7 < v) by (bit_vector)
            requires
                v >= 0x80,
                pos <= 28,
                pos % 7 == 0,
                (v << pos) >> pos == v,
                acc >> pos == 0,
                b0 == ((v & 0x7f) | 0x80) as u8,
                pos7 == pos + 7,
                acc2 == (acc | (((b0 & 0x7f) as u32) << pos)) as u32,
        ;
        assert(s.drop_first() =~= spec_varint_bytes(v >> 7) + rest);
        lemma_varint_decode_bytes(v >> 7, pos7, acc2, rest);
        assert((acc2 | ((v >> 7) << pos7)) as u32 == (acc | (v << pos)) as u32) by (bit_vector)
            requires
                v >= 0x80,
                pos <= 28,
                (v << pos) >> pos == v,
                acc >> pos == 0,
                b0 == ((v & 0x7f) | 0x80) as u8,
                pos7 == pos + 7,
                acc2 == (acc | (((b0 & 0x7f) as u32) << pos)) as u32,
        ;
    }
}

/// Round trip: for every 32-bit value, decoding its minimal encoding (with
/// any bytes appended after it) yields the value back and consumes exactly
/// the encoding's length.
pub proof fn lemma_varint_round_trip(v: i32, rest: Seq<u8>)
    ensures
        spec_varint_decode(spec_varint_bytes(v as u32) + rest) == VarParse::Parsed(
            v as u32,
            spec_varint_bytes(v as u32).len() as nat,
        ),
        (v as u32) as i32 == v,
{
    assert(((v as u32) << 0u32) >> 0u32 == v as u32 && 0u32 >> 0u32 == 0 && (0u32 | ((v as u32)
        << 0u32)) as u32 == v as u32 && (v as u32) as i32 == v) by (bit_vector);
    lemma_varint_decode_bytes(v as u32, 0, 0, rest);
}

/// Overflow rejection: five leading bytes that all keep the continuation bit
/// set exceed the 32-bit budget, whatever follows them.
pub proof fn lemma_varint_overflow(s: Seq<u8>)
    requires
        s.len() >= 5,
        forall|i: int| 0 <= i < 5 ==> (#[trigger] s[i]) & 0x80 != 0,
    ensures
        spec_varint_decode(s) == VarParse::<u32>::TooBig,
{
    let s1 = s.drop_first();
    let s2 = s1.drop_first();
    let s3 = s2.drop_first();
    let s4 = s3.drop_first();
    assert(s1[0] == s[1] && s2[0] == s[2] && s3[0] == s[3] && s4[0] == s[4]);
    assert(spec_varint_decode_at(s4, 28, spec_acc(s, 4)) == VarParse::<u32>::TooBig);
    assert(spec_varint_decode_at(s3, 21, spec_acc(s, 3)) == VarParse::<u32>::TooBig);
    assert(spec_varint_decode_at(s2, 14, spec_acc(s, 2)) == VarParse::<u32>::TooBig);
    assert(spec_varint_decode_at(s1, 7, spec_acc(s, 1)) == VarParse::<u32>::TooBig);
    assert(spec_varint_decode_at(s, 0, spec_acc(s, 0)) == VarParse::<u32>::TooBig);
}

/// The accumulator after `k` groups of `s` have been folded in at their bit
/// positions, starting from zero.
spec fn spec_acc(s: Seq<u8>, k: int) -> u32
    decreases k,
{
    if k <= 0 {
        0
    } else {
        (spec_acc(s, k - 1) | (((s[k - 1] & 0x7f) as u32) << ((7 * (k - 1)) as u32))) as u32
    }
}

/// Every 32-bit value encodes to between one and five bytes.
pub proof fn lemma_varint_bytes_len(v: u32)
    ensures
        1 <= spec_varint_bytes(v).len() <= 5,
{
    let v1 = v >> 7;
    let v2 = v1 >> 7;
    let v3 = v2 >> 7;
    let v4 = v3 >> 7;
    assert((((v >> 7) >> 7) >> 7) >> 7 < 0x80) by (bit_vector);
    assert(spec_varint_bytes(v4).len() == 1);
    assert(spec_varint_bytes(v3).len() <= 2);
    assert(spec_varint_bytes(v2).len() <= 3);
    assert(spec_varint_bytes(v1).len() <= 4);
    assert(spec_varint_bytes(v).len() <= 5);
}

/// A variable-length signed 64-bit integer.
///
/// Same scheme as [`VarInt`], over 64 bits: 1 to 10 bytes on the wire.
#[derive(PartialEq, Eq, Structural, Debug, Clone, Copy)]
pub struct VarLong(pub i64);

/// The canonical (minimal-length) encoding of a 64-bit value.
pub open spec fn spec_varlong_bytes(v: u64) -> Seq<u8>
    decreases v,
{
    if v < 0x80 {
        seq![v as u8]
    } else {
        proof {
            assert(v >= 0x80 ==> (v >> 7) < v) by (bit_vector);
        }
        seq![((v & 0x7f) | 0x80) as u8] + spec_varlong_bytes(v >> 7)
    }
}

/// Decoding a 64-bit variable-length number from `s`, having already
/// accumulated `acc` with the next group due at bit position `pos`.
pub open spec fn spec_varlong_decode_at(s: Seq<u8>, pos: u32, acc: u64) -> VarParse<u64>
    decreases s.len(),
{
    if s.len() == 0 {
        VarParse::Incomplete
    } else {
        let b = s[0];
        let acc2 = acc | (((b & 0x7f) as u64) << pos);
        if b & 0x80 == 0 {
            VarParse::Parsed(acc2, 1)
        } else if pos + 7 >= 64 {
            VarParse::TooBig
        } else {
            match spec_varlong_decode_at(s.drop_first(), (pos + 7) as u32, acc2) {
                VarParse::Parsed(v, n) => VarParse::Parsed(v, n + 1),
                VarParse::TooBig => VarParse::TooBig,
                VarParse::Incomplete => VarParse::Incomplete,
            }
        }
    }
}

/// Decoding a 64-bit variable-length number from the front of `s`.
pub open spec fn spec_varlong_decode(s: Seq<u8>) -> VarParse<u64> {
    spec_varlong_decode_at(s, 0, 0)
}

impl VarLong {
    /// Wrap a value.
    pub fn new(value: i64) -> (r: Self)
        ensures
            r.0 == value,
    {
        VarLong(value)
    }

    /// The wrapped value.
    pub fn get(&self) -> (r: i64)
        ensures
            r == self.0,
    {
        self.0
    }

    /// Append the minimal wire encoding of this value to `to`.
    #[verifier::loop_isolation(false)]
    pub fn encode(&self, to: &mut Vec<u8>) -> (r: Result<(), DataTypeEncodeError>)
        ensures
            r == Ok::<(), DataTypeEncodeError>(()),
            final(to)@ == old(to)@ + spec_varlong_bytes(self.0 as u64),
    {
        let mut value: u64 = self.0 as u64;
        loop
            invariant
                old(to)@ + spec_varlong_bytes(self.0 as u64) == to@ + spec_varlong_bytes(value),
            decreases value,
        {
            if (value & !0x7fu64) == 0 {
                proof {
                    assert(value & !0x7fu64 == 0 ==> value < 0x80) by (bit_vector);
                }
                to.push(value as u8);
                proof {
                    assert(to@ =~= old(to)@ + spec_varlong_bytes(self.0 as u64));
                }
                return Ok(());
            }
            let ghost pre: Seq<u8> = to@;
            let b: u8 = ((value & 0x7f) | 0x80) as u8;
            to.push(b);
            proof {
                assert(value & !0x7fu64 != 0 ==> value >= 0x80) by (bit_vector);
                assert(value >= 0x80 ==> value >> 7 < value) by (bit_vector);
                assert(to@ + spec_varlong_bytes(value >> 7) =~= pre + spec_varlong_bytes(value));
            }
            value = value >> 7;
        }
    }

    /// Decode a VarLong off the front of `bytes`.
    #[verifier::loop_isolation(false)]
    pub fn decode(bytes: &mut VecDeque<u8>) -> (r: Result<VarLong, DataTypeDecodeError>)
        ensures
            match spec_varlong_decode(old(bytes)@) {
                VarParse::Parsed(v, n) => (r matches Ok(vl) && vl.0 == v as i64 && n <= old(
                    bytes,
                )@.len() && final(bytes)@ == old(bytes)@.skip(n as int)),
                VarParse::TooBig => r == Err::<VarLong, DataTypeDecodeError>(
                    DataTypeDecodeError::VarNumberTooBig,
                ) && old(bytes)@.len() >= 10 && final(bytes)@ == old(bytes)@.skip(10),
                VarParse::Incomplete => r == Err::<VarLong, DataTypeDecodeError>(
                    DataTypeDecodeError::PrematureEndOfVarNumber,
                ) && final(bytes)@ == Seq::<u8>::empty(),
            },
    {
        let ghost orig: Seq<u8> = bytes@;
        let mut value: u64 = 0;
        let mut position: u32 = 0;
        loop
            invariant
                position <= 63,
                bytes@.len() <= orig.len(),
                position == 7 * (orig.len() - bytes@.len()),
                bytes@ == orig.skip((orig.len() - bytes@.len()) as int),
                spec_varlong_decode(orig) == add_used(
                    spec_varlong_decode_at(bytes@, position, value),
                    (orig.len() - bytes@.len()) as nat,
                ),
            decreases bytes@.len(),
        {
            let ghost consumed: int = orig.len() - bytes@.len();
            let b: u8 = match bytes.pop_front() {
                Some(b) => b,
                None => {
                    return Err(DataTypeDecodeError::PrematureEndOfVarNumber);
                },
            };
            proof {
                assert(bytes@ =~= orig.skip(consumed + 1));
            }
            value = value | (((b & 0x7f) as u64) << position);
            if b & 0x80 == 0 {
                return Ok(VarLong(value as i64));
            }
            position = position + 7;
            if position >= 64 {
                return Err(DataTypeDecodeError::VarNumberTooBig);
            }
        }
    }
}

/// Decoding from bit position `pos` with low bits `acc` already gathered
/// consumes exactly the encoding of `v` and recovers `acc` with `v` shifted
/// into the remaining bit positions, whatever bytes follow.
proof fn lemma_varlong_decode_bytes(v: u64, pos: u32, acc: u64, rest: Seq<u8>)
    requires
        pos <= 63,
        pos % 7 == 0,
        (v << pos) >> pos == v,
        acc >> pos == 0,
    ensures
        spec_varlong_decode_at(spec_varlong_bytes(v) + rest, pos, acc) == VarParse::Parsed(
            (acc | (v << pos)) as u64,
            spec_varlong_bytes(v).len() as nat,
        ),
    decreases v,
{
    let s = spec_varlong_bytes(v) + rest;
    if v < 0x80 {
        assert(s[0] == v as u8);
        assert((v as u8) & 0x80 == 0 && (((v as u8) & 0x7f) as u64) == v) by (bit_vector)
            requires
                v < 0x80,
        ;
    } else {
        let b0 = ((v & 0x7f) | 0x80) as u8;
        assert(s[0] == b0);
        let pos7 = (pos + 7) as u32;
        let acc2 = (acc | (((b0 & 0x7f) as u64) << pos)) as u64;
        assert(b0 & 0x80 != 0 && pos7 <= 63 && pos7 % 7 == 0 && ((v >> 7) << pos7) >> pos7 == v
            >> 7 && acc2 >> pos7 == 0 && v >> 7 < v) by (bit_vector)
            requires
                v >= 0x80,
                pos <= 63,
                pos % 7 == 0,
                (v << pos) >> pos == v,
                acc >> pos == 0,
                b0 == ((v & 0x7f) | 0x80) as u8,
                pos7 == pos + 7,
                acc2 == (acc | (((b0 & 0x7f) as u64) << pos)) as u64,
        ;
        assert(s.drop_first() =~= spec_varlong_bytes(v >> 7) + rest);
        lemma_varlong_decode_bytes(v >> 7, pos7, acc2, rest);
        assert((acc2 | ((v >> 7) << pos7)) as u64 == (acc | (v << pos)) as u64) by (bit_vector)
            requires
                v >= 0x80,
                pos <= 63,
                pos % 7 == 0,
                (v << pos) >> pos == v,
                acc >> pos == 0,
                b0 == ((v & 0x7f) | 0x80) as u8,
                pos7 == pos + 7,
                acc2 == (acc | (((b0 & 0x7f) as u64) << pos)) as u64,
        ;
    }
}

/// Round trip: for every 64-bit value, decoding its minimal encoding (with
/// any bytes appended after it) yields the value back and consumes exactly
/// the encoding's length.
pub proof fn lemma_varlong_round_trip(v: i64, rest: Seq<u8>)
    ensures
        spec_varlong_decode(spec_varlong_bytes(v as u64) + rest) == VarParse::Parsed(
            v as u64,
            spec_varlong_bytes(v as u64).len() as nat,
        ),
        (v as u64) as i64 == v,
{
    assert(((v as u64) << 0u32) >> 0u32 == v as u64 && 0u64 >> 0u32 == 0 && (0u64 | ((v as u64)
        << 0u32)) as u64 == v as u64 && (v as u64) as i64 == v) by (bit_vector);
    lemma_varlong_decode_bytes(v as u64, 0, 0, rest);
}

/// A length-prefixed UTF-8 string.
///
/// On the wire it is a [`VarInt`] byte length followed by exactly that many
/// UTF-8 bytes.
#[derive(PartialEq, Eq, Debug, Clone)]
pub struct VarString(pub String);

impl View for VarString {
    type V = Seq<char>;

    open spec fn view(&self) -> Seq<char> {
        self.0@
    }
}

/// The wire encoding of a text: its UTF-8 byte length as a VarInt, then the
/// bytes themselves.
pub open spec fn spec_varstring_bytes(text: Seq<char>) -> Seq<u8> {
    spec_varint_bytes(encode_utf8(text).len() as u32) + encode_utf8(text)
}

/// A successful string decode off the front of `s`: the text and how many
/// bytes it took; `None` on any failure.
pub open spec fn spec_varstring_decode(s: Seq<u8>) -> Option<(Seq<char>, int)> {
    match spec_varint_decode(s) {
        VarParse::Parsed(nv, used) => if nv <= 0x7fffffff && used + nv <= s.len() && valid_utf8(
            s.subrange(used as int, used + nv),
        ) {
            Some((decode_utf8(s.subrange(used as int, used + nv)), used + nv))
        } else {
            None
        },
        VarParse::TooBig => None,
        VarParse::Incomplete => None,
    }
}

/// Relies on `String::from_utf8`: it succeeds exactly on the byte sequences
/// that are valid UTF-8 and returns the text those bytes encode.
#[verifier::external_body]
fn string_from_utf8(bytes: Vec<u8>) -> (r: Option<String>)
    ensures
        r matches Some(s) ==> valid_utf8(bytes@) && s@ == decode_utf8(bytes@),
        r is Some <==> valid_utf8(bytes@),
{
    String::from_utf8(bytes).ok()
}

impl VarString {
    /// Wrap a text.
    pub fn new(value: String) -> (r: Self)
        ensures
            r@ == value@,
    {
        VarString(value)
    }

    /// The text, as an owned copy.
    pub fn get(&self) -> (r: String)
        ensures
            r@ == self@,
    {
        self.0.clone()
    }

    /// The text, by reference.
    pub fn get_ref(&self) -> (r: &String)
        ensures
            r@ == self@,
    {
        &self.0
    }

    /// Decode a length-prefixed string off the front of `bytes`.
    pub fn decode(bytes: &mut VecDeque<u8>) -> (r: Result<VarString, DataTypeDecodeError>)
        ensures
            match spec_varint_decode(old(bytes)@) {
                VarParse::Parsed(nv, used) => if nv > 0x7fffffff {
                    r == Err::<VarString, DataTypeDecodeError>(DataTypeDecodeError::TryFromIntError)
                        && final(bytes)@ == old(bytes)@.skip(used as int)
                } else if old(bytes)@.len() < used + nv {
                    r == Err::<VarString, DataTypeDecodeError>(
                        DataTypeDecodeError::PrematureEndOfVarNumber,
                    ) && final(bytes)@ == Seq::<u8>::empty()
                } else if valid_utf8(old(bytes)@.subrange(used as int, used + nv)) {
                    (r matches Ok(vs) && vs@ == decode_utf8(
                        old(bytes)@.subrange(used as int, used + nv),
                    ) && final(bytes)@ == old(bytes)@.skip(used + nv))
                } else {
                    r == Err::<VarString, DataTypeDecodeError>(DataTypeDecodeError::FromUtf8Error)
                        && final(bytes)@ == old(bytes)@.skip(used + nv)
                },
                VarParse::TooBig => r == Err::<VarString, DataTypeDecodeError>(
                    DataTypeDecodeError::VarNumberTooBig,
                ) && old(bytes)@.len() >= 5 && final(bytes)@ == old(bytes)@.skip(5),
                VarParse::Incomplete => r == Err::<VarString, DataTypeDecodeError>(
                    DataTypeDecodeError::PrematureEndOfVarNumber,
                ) && final(bytes)@ == Seq::<u8>::empty(),
            },
    {
        let ghost orig: Seq<u8> = bytes@;
        let vi: VarInt = VarInt::decode(bytes)?;
        let n0: i32 = vi.0;
        proof {
            match spec_varint_decode(orig) {
                VarParse::Parsed(nvg, _) => {
                    assert(nvg as i32 == n0 ==> ((n0 < 0 <==> nvg > 0x7fffffffu32) && (n0 >= 0
                        ==> (n0 as usize) as u64 == nvg as u64))) by (bit_vector);
                },
                VarParse::TooBig => {},
                VarParse::Incomplete => {},
            }
        }
        if n0 < 0 {
            return Err(DataTypeDecodeError::TryFromIntError);
        }
        let count: usize = n0 as usize;
        let ghost used: int = orig.len() - bytes@.len();
        let raw: Vec<u8> = drain(bytes, count)?;
        proof {
            assert(raw@ =~= orig.subrange(used, used + count));
            assert(bytes@ =~= orig.skip(used + count));
        }
        match string_from_utf8(raw) {
            Some(s) => Ok(VarString(s)),
            None => Err(DataTypeDecodeError::FromUtf8Error),
        }
    }

    /// Append the wire encoding of this string to `to`: its UTF-8 byte
    /// length as a VarInt, then the bytes; a text too long for the prefix
    /// is rejected and `to` is left unchanged.
    pub fn encode(&self, to: &mut Vec<u8>) -> (r: Result<(), DataTypeEncodeError>)
        ensures
            encode_utf8(self@).len() <= 0x7fffffff ==> r == Ok::<(), DataTypeEncodeError>(())
                && final(to)@ == old(to)@ + spec_varstring_bytes(self@),
            encode_utf8(self@).len() > 0x7fffffff ==> r == Err::<(), DataTypeEncodeError>(
                DataTypeEncodeError::TryFromIntError,
            ) && final(to)@ == old(to)@,
    {
        let mut raw: Vec<u8> = self.0.as_str().as_bytes_vec();
        if raw.len() > 0x7fffffff {
            return Err(DataTypeEncodeError::TryFromIntError);
        }
        let n: i32 = raw.len() as i32;
        proof {
            let len64 = raw.len() as u64;
            assert(len64 <= 0x7fffffff ==> ((len64 as i32) as u32) == len64) by (bit_vector);
        }
        let vi: VarInt = VarInt(n);
        vi.encode(to)?;
        to.append(&mut raw);
        proof {
            assert(to@ =~= old(to)@ + spec_varstring_bytes(self@));
        }
        Ok(())
    }
}

/// String round trip: decoding an encoded text (with any bytes appended
/// after it) yields the same text and consumes the length prefix plus
/// exactly the text's UTF-8 bytes.
pub proof fn lemma_varstring_round_trip(text: Seq<char>, rest: Seq<u8>)
    requires
        encode_utf8(text).len() <= 0x7fffffff,
    ensures
        spec_varstring_decode(spec_varstring_bytes(text) + rest) == Some(
            (text, spec_varstring_bytes(text).len() as int),
        ),
{
    let b = encode_utf8(text);
    let nv = b.len() as u32;
    assert((nv << 0u32) >> 0u32 == nv && 0u32 >> 0u32 == 0 && (0u32 | (nv << 0u32)) as u32 == nv)
        by (bit_vector);
    lemma_varint_decode_bytes(nv, 0, 0, b + rest);
    let s = spec_varstring_bytes(text) + rest;
    assert(s =~= spec_varint_bytes(nv) + (b + rest));
    let used = spec_varint_bytes(nv).len() as int;
    assert(s.subrange(used, used + nv) =~= b);
    encode_utf8_valid_utf8(text);
    encode_utf8_decode_utf8(text);
}

/// Every 64-bit value encodes to between one and ten bytes.
pub proof fn lemma_varlong_bytes_len(v: u64)
    ensures
        1 <= spec_varlong_bytes(v).len() <= 10,
{
    let v1 = v >> 7;
    let v2 = v1 >> 7;
    let v3 = v2 >> 7;
    let v4 = v3 >> 7;
    let v5 = v4 >> 7;
    let v6 = v5 >> 7;
    let v7 = v6 >> 7;
    let v8 = v7 >> 7;
    let v9 = v8 >> 7;
    assert(((((((((v >> 7) >> 7) >> 7) >> 7) >> 7) >> 7) >> 7) >> 7) >> 7 < 0x80) by (bit_vector);
    assert(spec_varlong_bytes(v9).len() == 1);
    assert(spec_varlong_bytes(v8).len() <= 2);
    assert(spec_varlong_bytes(v7).len() <= 3);
    assert(spec_varlong_bytes(v6).len() <= 4);
    assert(spec_varlong_bytes(v5).len() <= 5);
    assert(spec_varlong_bytes(v4).len() <= 6);
    assert(spec_varlong_bytes(v3).len() <= 7);
    assert(spec_varlong_bytes(v2).len() <= 8);
    assert(spec_varlong_bytes(v1).len() <= 9);
    assert(spec_varlong_bytes(v).len() <= 10);
}

/// What one byte fed to a [`VarIntDecoder`] produced.
#[derive(PartialEq, Eq, Structural, Debug, Clone, Copy)]
pub enum VarIntStep {
    /// The byte had no continuation bit: the value is complete.
    Done(VarInt),
    /// The byte had its continuation bit set; more bytes are needed.
    More,
    /// The continuation bit was still set past the 32-bit budget.
    TooBig,
}

/// An incremental VarInt decoder for byte-at-a-time sources, used where no
/// buffer exists yet: a frame's own length must be read straight off the
/// connection, one byte per step.
///
/// After `Done` or `TooBig` the decoder is reset and ready for the next
/// number.
#[derive(Debug, Clone, Copy)]
pub struct VarIntDecoder {
    /// The bits accumulated so far.
    pub value: u32,
    /// The bit position the next group lands at; kept at most 28 by `step`.
    pub position: u32,
}

impl VarIntDecoder {
    /// A decoder with nothing accumulated.
    pub fn new() -> (r: Self)
        ensures
            r.value == 0 && r.position == 0,
    {
        VarIntDecoder { value: 0, position: 0 }
    }

    /// Feed one byte: fold its 7 data bits in at the current position, and
    /// report whether the number is complete, continues, or went past the
    /// 32-bit budget.
    pub fn step(&mut self, b: u8) -> (r: VarIntStep)
        ensures
            old(self).position > 28 ==> r == VarIntStep::TooBig && final(self).value == 0
                && final(self).position == 0,
            old(self).position <= 28 && b & 0x80 == 0 ==> r == VarIntStep::Done(
                VarInt((old(self).value | (((b & 0x7f) as u32) << old(self).position)) as i32),
            ) && final(self).value == 0 && final(self).position == 0,
            old(self).position <= 28 && b & 0x80 != 0 && old(self).position + 7 < 32 ==> r
                == VarIntStep::More && final(self).value == (old(self).value | (((b & 0x7f) as u32)
                << old(self).position)) && final(self).position == old(self).position + 7,
            old(self).position <= 28 && b & 0x80 != 0 && old(self).position + 7 >= 32 ==> r
                == VarIntStep::TooBig && final(self).value == 0 && final(self).position == 0,
    {
        if self.position > 28 {
            self.value = 0;
            self.position = 0;
            return VarIntStep::TooBig;
        }
        let v2: u32 = self.value | (((b & 0x7f) as u32) << self.position);
        if b & 0x80 == 0 {
            self.value = 0;
            self.position = 0;
            return VarIntStep::Done(VarInt(v2 as i32));
        }
        if self.position + 7 >= 32 {
            self.value = 0;
            self.position = 0;
            return VarIntStep::TooBig;
        }
        self.value = v2;
        self.position = self.position + 7;
        VarIntStep::More
    }
}

/// Shift the byte count of a successful parse by `k` consumed bytes.
pub open spec fn add_used<T>(w: VarParse<T>, k: nat) -> VarParse<T> {
    match w {
        VarParse::Parsed(v, n) => VarParse::Parsed(v, n + k),
        VarParse::TooBig => VarParse::TooBig,
        VarParse::Incomplete => VarParse::Incomplete,
    }
}

/// A successful variable-length parse consumed at least one byte and no more
/// than the source holds.
proof fn lemma_varint_used_le(s: Seq<u8>, pos: u32, acc: u32)
    ensures
        spec_varint_decode_at(s, pos, acc) matches VarParse::Parsed(v, n) ==> 1 <= n <= s.len(),
    decreases s.len(),
{
    if s.len() > 0 && s[0] & 0x80 != 0 && pos + 7 < 32 {
        lemma_varint_used_le(
            s.drop_first(),
            (pos + 7) as u32,
            acc | (((s[0] & 0x7f) as u32) << pos),
        );
    }
}

/// A successful VarInt parse consumed between 1 byte and the whole source.
pub proof fn lemma_varint_parsed_len(s: Seq<u8>)
    ensures
        spec_varint_decode(s) matches VarParse::Parsed(v, n) ==> 1 <= n <= s.len(),
{
    lemma_varint_used_le(s, 0, 0);
}

impl DataType<i32> for VarInt {
    open spec fn wire_eq(x: &VarInt, y: &VarInt) -> bool {
        x == y
    }

    open spec fn spec_encodable(&self) -> bool {
        true
    }

    open spec fn spec_encoding(&self) -> Seq<u8> {
        spec_varint_bytes(self.0 as u32)
    }

    open spec fn spec_decoded_as(s: Seq<u8>, x: &VarInt, n: int) -> bool {
        match spec_varint_decode(s) {
            VarParse::Parsed(v, m) => x.0 == v as i32 && n == m,
            VarParse::TooBig => false,
            VarParse::Incomplete => false,
        }
    }

    proof fn lemma_encoding_round_trip(&self, rest: Seq<u8>) {
        lemma_varint_round_trip(self.0, rest);
    }

    proof fn lemma_decoded_unique(s: Seq<u8>, x1: &VarInt, n1: int, x2: &VarInt, n2: int) {
    }

    fn new(value: i32) -> (r: Self)
        ensures
            r.0 == value,
    {
        VarInt(value)
    }

    fn get(&self) -> (r: i32)
        ensures
            r == self.0,
    {
        self.0
    }

    fn get_ref(&self) -> (r: &i32)
        ensures
            r == self.0,
    {
        &self.0
    }

    fn decode(from: &mut VecDeque<u8>) -> (r: Result<VarInt, DataTypeDecodeError>) {
        proof {
            assert(from@.skip(from@.len() as int) =~= Seq::<u8>::empty());
        }
        let r: Result<VarInt, DataTypeDecodeError> = VarInt::decode(from);
        proof {
            match &r {
                Ok(vi) => match spec_varint_decode(old(from)@) {
                    VarParse::Parsed(v, m) => {
                        assert(<VarInt as DataType<i32>>::spec_decoded_as(
                            old(from)@,
                            vi,
                            m as int,
                        ));
                    },
                    VarParse::TooBig => {},
                    VarParse::Incomplete => {},
                },
                Err(_) => {},
            }
        }
        r
    }

    fn encode(&self, to: &mut Vec<u8>) -> (r: Result<(), DataTypeEncodeError>) {
        let r: Result<(), DataTypeEncodeError> = VarInt::encode(self, to);
        proof {
            assert(to@.take(old(to)@.len() as int) =~= old(to)@);
        }
        r
    }
}

impl DataType<i64> for VarLong {
    open spec fn wire_eq(x: &VarLong, y: &VarLong) -> bool {
        x == y
    }

    open spec fn spec_encodable(&self) -> bool {
        true
    }

    open spec fn spec_encoding(&self) -> Seq<u8> {
        spec_varlong_bytes(self.0 as u64)
    }

    open spec fn spec_decoded_as(s: Seq<u8>, x: &VarLong, n: int) -> bool {
        match spec_varlong_decode(s) {
            VarParse::Parsed(v, m) => x.0 == v as i64 && n == m,
            VarParse::TooBig => false,
            VarParse::Incomplete => false,
        }
    }

    proof fn lemma_encoding_round_trip(&self, rest: Seq<u8>) {
        lemma_varlong_round_trip(self.0, rest);
    }

    proof fn lemma_decoded_unique(s: Seq<u8>, x1: &VarLong, n1: int, x2: &VarLong, n2: int) {
    }

    fn new(value: i64) -> (r: Self)
        ensures
            r.0 == value,
    {
        VarLong(value)
    }

    fn get(&self) -> (r: i64)
        ensures
            r == self.0,
    {
        self.0
    }

    fn get_ref(&self) -> (r: &i64)
        ensures
            r == self.0,
    {
        &self.0
    }

    fn decode(from: &mut VecDeque<u8>) -> (r: Result<VarLong, DataTypeDecodeError>) {
        proof {
            assert(from@.skip(from@.len() as int) =~= Seq::<u8>::empty());
        }
        let r: Result<VarLong, DataTypeDecodeError> = VarLong::decode(from);
        proof {
            match &r {
                Ok(vl) => match spec_varlong_decode(old(from)@) {
                    VarParse::Parsed(v, m) => {
                        assert(<VarLong as DataType<i64>>::spec_decoded_as(
                            old(from)@,
                            vl,
                            m as int,
                        ));
                    },
                    VarParse::TooBig => {},
                    VarParse::Incomplete => {},
                },
                Err(_) => {},
            }
        }
        r
    }

    fn encode(&self, to: &mut Vec<u8>) -> (r: Result<(), DataTypeEncodeError>) {
        let r: Result<(), DataTypeEncodeError> = VarLong::encode(self, to);
        proof {
            assert(to@.take(old(to)@.len() as int) =~= old(to)@);
        }
        r
    }
}

impl DataType<String> for VarString {
    open spec fn wire_eq(x: &VarString, y: &VarString) -> bool {
        x@ == y@
    }

    open spec fn spec_encodable(&self) -> bool {
        encode_utf8(self@).len() <= 0x7fffffff
    }

    open spec fn spec_encoding(&self) -> Seq<u8> {
        spec_varstring_bytes(self@)
    }

    open spec fn spec_decoded_as(s: Seq<u8>, x: &VarString, n: int) -> bool {
        match spec_varstring_decode(s) {
            Some((t, m)) => x@ == t && n == m,
            None => false,
        }
    }

    proof fn lemma_encoding_round_trip(&self, rest: Seq<u8>) {
        lemma_varstring_round_trip(self@, rest);
    }

    proof fn lemma_decoded_unique(s: Seq<u8>, x1: &VarString, n1: int, x2: &VarString, n2: int) {
    }

    fn new(value: String) -> (r: Self)
        ensures
            r@ == value@,
    {
        VarString(value)
    }

    fn get(&self) -> (r: String)
        ensures
            r@ == self@,
    {
        self.0.clone()
    }

    fn get_ref(&self) -> (r: &String)
        ensures
            r@ == self@,
    {
        &self.0
    }

    fn decode(from: &mut VecDeque<u8>) -> (r: Result<VarString, DataTypeDecodeError>) {
        proof {
            lemma_varint_parsed_len(from@);
            assert(from@.skip(from@.len() as int) =~= Seq::<u8>::empty());
        }
        let r: Result<VarString, DataTypeDecodeError> = VarString::decode(from);
        proof {
            match &r {
                Ok(vs) => match spec_varint_decode(old(from)@) {
                    VarParse::Parsed(nv, used) => {
                        if nv <= 0x7fffffff && old(from)@.len() >= used + nv && valid_utf8(
                            old(from)@.subrange(used as int, used + nv),
                        ) {
                            assert(<VarString as DataType<String>>::spec_decoded_as(
                                old(from)@,
                                vs,
                                used + nv,
                            ));
                        }
                    },
                    VarParse::TooBig => {},
                    VarParse::Incomplete => {},
                },
                Err(_) => {},
            }
        }
        r
    }

    fn encode(&self, to: &mut Vec<u8>) -> (r: Result<(), DataTypeEncodeError>) {
        let r: Result<(), DataTypeEncodeError> = VarString::encode(self, to);
        proof {
            assert(to@.take(old(to)@.len() as int) =~= old(to)@);
        }
        r
    }
}

} // verus!
