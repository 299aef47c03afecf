//! The witness codec: a versioned, byte-exact binary encoding of a list of
//! field elements.
//!
//! Layout: one version byte, a 32-bit little-endian entry count, then each
//! element as 32 bytes (four 64-bit little-endian limbs, least significant
//! first). Decoding accepts exactly the byte strings this layout produces
//! with every entry canonical, so encoding then decoding gives the original
//! list back.

use vstd::prelude::*;
use vstd::arithmetic::div_mod::lemma_div_denominator;
use crate::errors::Error;
use crate::field::{FieldElement, Limbs, limbs_lt, limbs_value, modulus, modulus_limbs};

verus! {

/// The version tag this codec writes.
pub const WIRE_VERSION: u8 = 1;

/// The little-endian bytes of a 64-bit limb.
pub open spec fn u64_le_bytes(x: u64) -> Seq<u8> {
    seq![
        (x as int % 256) as u8,
        (x as int / 0x100 % 256) as u8,
        (x as int / 0x10000 % 256) as u8,
        (x as int / 0x1000000 % 256) as u8,
        (x as int / 0x100000000 % 256) as u8,
        (x as int / 0x10000000000 % 256) as u8,
        (x as int / 0x1000000000000 % 256) as u8,
        (x as int / 0x100000000000000 % 256) as u8,
    ]
}

/// The value eight little-endian bytes denote.
pub open spec fn u64_from_le(b: Seq<u8>) -> int {
    b[0] + b[1] * 0x100 + b[2] * 0x10000 + b[3] * 0x1000000 + b[4] * 0x100000000
        + b[5] * 0x10000000000 + b[6] * 0x1000000000000 + b[7] * 0x100000000000000
}

/// The little-endian bytes of the entry count.
pub open spec fn u32_le_bytes(x: u32) -> Seq<u8> {
    seq![
        (x as int % 256) as u8,
        (x as int / 0x100 % 256) as u8,
        (x as int / 0x10000 % 256) as u8,
        (x as int / 0x1000000 % 256) as u8,
    ]
}

/// The value four little-endian bytes denote.
pub open spec fn u32_from_le(b: Seq<u8>) -> int {
    b[0] + b[1] * 0x100 + b[2] * 0x10000 + b[3] * 0x1000000
}

/// Reading the eight bytes of a limb back gives the limb.
proof fn lemma_u64_le_round_trip(x: u64)
    ensures
        u64_from_le(u64_le_bytes(x)) == x,
{
    lemma_div_denominator(x as int, 0x100, 0x100);
    lemma_div_denominator(x as int, 0x10000, 0x100);
    lemma_div_denominator(x as int, 0x1000000, 0x100);
    lemma_div_denominator(x as int, 0x100000000, 0x100);
    lemma_div_denominator(x as int, 0x10000000000, 0x100);
    lemma_div_denominator(x as int, 0x1000000000000, 0x100);
    lemma_div_denominator(x as int, 0x100000000000000, 0x100);
    assert(x as int / 0x100000000000000 / 0x100 == 0);
}

/// Reading the four bytes of the count back gives the count.
proof fn lemma_u32_le_round_trip(x: u32)
    ensures
        u32_from_le(u32_le_bytes(x)) == x,
{
    lemma_div_denominator(x as int, 0x100, 0x100);
    lemma_div_denominator(x as int, 0x10000, 0x100);
    assert(x as int / 0x1000000 / 0x100 == 0);
}

/// The 32 bytes of one element.
pub open spec fn fe_le_bytes(fe: FieldElement) -> Seq<u8> {
    u64_le_bytes(fe.limbs.w0) + u64_le_bytes(fe.limbs.w1) + u64_le_bytes(fe.limbs.w2)
        + u64_le_bytes(fe.limbs.w3)
}

/// The bytes of all entries, in order.
pub open spec fn entries_bytes(s: Seq<FieldElement>) -> Seq<u8>
    decreases s.len(),
{
    if s.len() == 0 {
        Seq::empty()
    } else {
        entries_bytes(s.drop_last()) + fe_le_bytes(s.last())
    }
}

proof fn lemma_entries_bytes_len(s: Seq<FieldElement>)
    ensures
        entries_bytes(s).len() == 32 * s.len(),
    decreases s.len(),
{
    if s.len() > 0 {
        lemma_entries_bytes_len(s.drop_last());
    }
}

proof fn lemma_entries_bytes_index(s: Seq<FieldElement>, i: int)
    requires
        0 <= i < s.len(),
    ensures
        entries_bytes(s).subrange(32 * i, 32 * i + 32) == fe_le_bytes(s[i]),
    decreases s.len(),
{
    lemma_entries_bytes_len(s.drop_last());
    if i == s.len() - 1 {
        assert(entries_bytes(s).subrange(32 * i, 32 * i + 32) =~= fe_le_bytes(s[i]));
    } else {
        lemma_entries_bytes_index(s.drop_last(), i);
        assert(entries_bytes(s).subrange(32 * i, 32 * i + 32) =~= entries_bytes(
            s.drop_last(),
        ).subrange(32 * i, 32 * i + 32));
    }
}

/// The full encoding of a witness-value list.
pub open spec fn serialize_spec(s: Seq<FieldElement>) -> Seq<u8> {
    seq![WIRE_VERSION] + u32_le_bytes(s.len() as u32) + entries_bytes(s)
}

/// The entry count a byte string claims.
pub open spec fn wire_count(b: Seq<u8>) -> int {
    u32_from_le(b.subrange(1, 5))
}

/// The limbs stored at entry `i` of a byte string.
pub open spec fn entry_limbs(b: Seq<u8>, i: int) -> Limbs {
    Limbs {
        w0: u64_from_le(b.subrange(5 + 32 * i, 5 + 32 * i + 8)) as u64,
        w1: u64_from_le(b.subrange(5 + 32 * i + 8, 5 + 32 * i + 16)) as u64,
        w2: u64_from_le(b.subrange(5 + 32 * i + 16, 5 + 32 * i + 24)) as u64,
        w3: u64_from_le(b.subrange(5 + 32 * i + 24, 5 + 32 * i + 32)) as u64,
    }
}

/// The byte strings the decoder accepts: the exact layout above, with the
/// claimed count matching the length and every entry canonical.
pub open spec fn valid_encoding(b: Seq<u8>) -> bool {
    b.len() >= 5 && b[0] == WIRE_VERSION && b.len() == 5 + 32 * wire_count(b) && (forall|i: int|
        0 <= i < wire_count(b) ==> limbs_value(#[trigger] entry_limbs(b, i)) < modulus())
}

/// The entries a valid byte string holds.
pub open spec fn decoded_entries(b: Seq<u8>) -> Seq<FieldElement> {
    Seq::new(wire_count(b) as nat, |i: int| FieldElement { limbs: entry_limbs(b, i) })
}

/// What decoding returns, for every byte string.
pub open spec fn deserialize_spec(b: Seq<u8>) -> Option<Seq<FieldElement>> {
    if valid_encoding(b) {
        Some(decoded_entries(b))
    } else {
        None
    }
}

/// One entry of the encoding reads back as the element it came from.
#[verifier::rlimit(50)]
proof fn lemma_entry_round_trip(b: Seq<u8>, values: Seq<FieldElement>, i: int)
    requires
        0 <= i < values.len(),
        b == serialize_spec(values),
    ensures
        entry_limbs(b, i) == values[i].limbs,
{
    lemma_entries_bytes_len(values);
    lemma_entries_bytes_index(values, i);
    let fe = values[i];
    assert(b.subrange(5 + 32 * i, 5 + 32 * i + 8) =~= fe_le_bytes(fe).subrange(0, 8));
    assert(b.subrange(5 + 32 * i + 8, 5 + 32 * i + 16) =~= fe_le_bytes(fe).subrange(8, 16));
    assert(b.subrange(5 + 32 * i + 16, 5 + 32 * i + 24) =~= fe_le_bytes(fe).subrange(16, 24));
    assert(b.subrange(5 + 32 * i + 24, 5 + 32 * i + 32) =~= fe_le_bytes(fe).subrange(24, 32));
    assert(fe_le_bytes(fe).subrange(0, 8) =~= u64_le_bytes(fe.limbs.w0));
    assert(fe_le_bytes(fe).subrange(8, 16) =~= u64_le_bytes(fe.limbs.w1));
    assert(fe_le_bytes(fe).subrange(16, 24) =~= u64_le_bytes(fe.limbs.w2));
    assert(fe_le_bytes(fe).subrange(24, 32) =~= u64_le_bytes(fe.limbs.w3));
    lemma_u64_le_round_trip(fe.limbs.w0);
    lemma_u64_le_round_trip(fe.limbs.w1);
    lemma_u64_le_round_trip(fe.limbs.w2);
    lemma_u64_le_round_trip(fe.limbs.w3);
}

/// Encoding then decoding gives the original list back, for every list of
/// canonical elements whose length fits the count field.
#[verifier::rlimit(100)]
pub proof fn lemma_codec_round_trip(values: Seq<FieldElement>)
    requires
        values.len() < 0x100000000,
        forall|i: int| 0 <= i < values.len() ==> #[trigger] values[i].wf(),
    ensures
        deserialize_spec(serialize_spec(values)) == Some(values),
{
    let b = serialize_spec(values);
    lemma_entries_bytes_len(values);
    assert(b.subrange(1, 5) =~= u32_le_bytes(values.len() as u32));
    lemma_u32_le_round_trip(values.len() as u32);
    assert(wire_count(b) == values.len());
    assert forall|i: int| 0 <= i < values.len() implies entry_limbs(b, i)
        == values[i].limbs by {
        lemma_entry_round_trip(b, values, i);
    }
    assert forall|i: int|
        0 <= i < wire_count(b) implies limbs_value(#[trigger] entry_limbs(b, i))
        < modulus() by {
        assert(entry_limbs(b, i) == values[i].limbs);
        assert(values[i].wf());
    }
    assert(valid_encoding(b));
    assert(decoded_entries(b) =~= values);
}

/// Appends the eight little-endian bytes of one limb.
fn push_u64_le(out: &mut Vec<u8>, x: u64)
    ensures
        final(out)@ == old(out)@ + u64_le_bytes(x),
{
    out.push((x % 0x100) as u8);
    out.push((x / 0x100 % 0x100) as u8);
    out.push((x / 0x10000 % 0x100) as u8);
    out.push((x / 0x1000000 % 0x100) as u8);
    out.push((x / 0x100000000 % 0x100) as u8);
    out.push((x / 0x10000000000 % 0x100) as u8);
    out.push((x / 0x1000000000000 % 0x100) as u8);
    out.push((x / 0x100000000000000 % 0x100) as u8);
    proof {
        assert(out@ =~= old(out)@ + u64_le_bytes(x));
    }
}

/// Appends the four little-endian bytes of the count.
fn push_u32_le(out: &mut Vec<u8>, x: u32)
    ensures
        final(out)@ == old(out)@ + u32_le_bytes(x),
{
    out.push((x % 0x100) as u8);
    out.push((x / 0x100 % 0x100) as u8);
    out.push((x / 0x10000 % 0x100) as u8);
    out.push((x / 0x1000000 % 0x100) as u8);
    proof {
        assert(out@ =~= old(out)@ + u32_le_bytes(x));
    }
}

/// Encodes a list of witness values. The count field is 32 bits wide, so
/// the list must not outgrow it.
#[verifier::rlimit(50)]
pub fn serialize_values(values: &Vec<FieldElement>) -> (r: Vec<u8>)
    requires
        values@.len() < 0x100000000,
    ensures
        r@ == serialize_spec(values@),
{
    let mut out: Vec<u8> = Vec::new();
    out.push(WIRE_VERSION);
    push_u32_le(&mut out, values.len() as u32);
    proof {
        assert(out@ =~= seq![WIRE_VERSION] + u32_le_bytes(values@.len() as u32));
        assert(values@.take(0) =~= Seq::<FieldElement>::empty());
    }
    let mut i: usize = 0;
    while i < values.len()
        invariant
            i <= values@.len(),
            values@.len() < 0x100000000,
            out@ == seq![WIRE_VERSION] + u32_le_bytes(values@.len() as u32) + entries_bytes(
                values@.take(i as int),
            ),
        decreases values@.len() - i,
    {
        let fe = values[i];
        push_u64_le(&mut out, fe.limbs.w0);
        push_u64_le(&mut out, fe.limbs.w1);
        push_u64_le(&mut out, fe.limbs.w2);
        push_u64_le(&mut out, fe.limbs.w3);
        proof {
            assert(values@.take(i + 1).drop_last() =~= values@.take(i as int));
            assert(values@.take(i + 1).last() == values@[i as int]);
            assert(out@ =~= seq![WIRE_VERSION] + u32_le_bytes(values@.len() as u32)
                + entries_bytes(values@.take(i + 1)));
        }
        i = i + 1;
    }
    proof {
        assert(values@.take(values@.len() as int) =~= values@);
    }
    out
}

/// Reads one limb at a byte offset.
fn read_u64_le(b: &Vec<u8>, off: usize) -> (x: u64)
    requires
        off + 8 <= b@.len(),
    ensures
        x as int == u64_from_le(b@.subrange(off as int, off as int + 8)),
{
    let n = b.len();
    let x = (b[off] as u64) + (b[off + 1] as u64) * 0x100 + (b[off + 2] as u64) * 0x10000 + (b[off
        + 3] as u64) * 0x1000000 + (b[off + 4] as u64) * 0x100000000 + (b[off + 5] as u64)
        * 0x10000000000 + (b[off + 6] as u64) * 0x1000000000000 + (b[off + 7] as u64)
        * 0x100000000000000;
    x
}

/// Reads the count field.
fn read_u32_le(b: &Vec<u8>, off: usize) -> (x: u32)
    requires
        off + 4 <= b@.len(),
    ensures
        x as int == u32_from_le(b@.subrange(off as int, off as int + 4)),
{
    let n = b.len();
    (b[off] as u32) + (b[off + 1] as u32) * 0x100 + (b[off + 2] as u32) * 0x10000 + (b[off
        + 3] as u32) * 0x1000000
}

/// Decodes a list of witness values, accepting exactly the byte strings the
/// encoder produces with every entry canonical. Anything else — a wrong
/// version byte, a count that does not match the length, a non-canonical
/// entry — is rejected whole.
pub fn deserialize_values(bytes: &Vec<u8>) -> (r: Result<Vec<FieldElement>, Error>)
    ensures
        match r {
            Ok(v) => deserialize_spec(bytes@) == Some(v@) && (forall|i: int|
                0 <= i < v@.len() ==> #[trigger] v@[i].wf()),
            Err(e) => deserialize_spec(bytes@) is None && e == Error::WitnessFormat,
        },
{
    if bytes.len() < 5 {
        return Err(Error::WitnessFormat);
    }
    if bytes[0] != WIRE_VERSION {
        return Err(Error::WitnessFormat);
    }
    let count = read_u32_le(bytes, 1);
    let count_us = count as usize;
    if (bytes.len() as u64) != 5u64 + 32u64 * (count as u64) {
        return Err(Error::WitnessFormat);
    }
    assert(bytes@.len() == 5 + 32 * wire_count(bytes@));
    let mut vals: Vec<FieldElement> = Vec::new();
    let mut i: usize = 0;
    while i < count_us
        invariant
            i <= count_us,
            vals@.len() == i,
            count_us == wire_count(bytes@),
            bytes@.len() == 5 + 32 * count_us,
            forall|j: int|
                0 <= j < i ==> (#[trigger] vals@[j]) == (FieldElement {
                    limbs: entry_limbs(bytes@, j),
                }) && vals@[j].wf(),
        decreases count_us - i,
    {
        let total = bytes.len();
        let off = 5 + 32 * i;
        let w0 = read_u64_le(bytes, off);
        let w1 = read_u64_le(bytes, off + 8);
        let w2 = read_u64_le(bytes, off + 16);
        let w3 = read_u64_le(bytes, off + 24);
        let limbs = Limbs { w0, w1, w2, w3 };
        assert(limbs == entry_limbs(bytes@, i as int));
        if !limbs_lt(&limbs, &modulus_limbs()) {
            // Entry `i` is at or above the modulus, so no canonical list
            // encodes to these bytes.
            assert(!valid_encoding(bytes@));
            return Err(Error::WitnessFormat);
        }
        vals.push(FieldElement { limbs });
        i = i + 1;
    }
    proof {
        assert forall|j: int| 0 <= j < wire_count(bytes@) implies limbs_value(
            #[trigger] entry_limbs(bytes@, j),
        ) < modulus() by {
            assert(vals@[j].wf() && vals@[j].limbs == entry_limbs(bytes@, j));
        }
        assert(valid_encoding(bytes@));
        assert(decoded_entries(bytes@) =~= vals@);
    }
    Ok(vals)
}

} // verus!
