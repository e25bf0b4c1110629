//! The scalars of the wire format: bytes, booleans, and little-endian integers.

use vstd::prelude::*;

use crate::model::HasModel;

use super::{BinaryData, BinaryReader, BinaryWriter, DecodeFailure, Parsed, ProtoResult};

verus! {

/// The `n` least significant bytes of `v`, least significant first.
pub open spec fn le_bytes(v: nat, n: nat) -> Seq<u8>
    decreases n,
{
    if n == 0 {
        Seq::empty()
    } else {
        seq![(v % 256) as u8] + le_bytes(v / 256, (n - 1) as nat)
    }
}

/// The number whose bytes, least significant first, are `bytes`.
pub open spec fn le_value(bytes: Seq<u8>) -> nat
    decreases bytes.len(),
{
    if bytes.len() == 0 {
        0
    } else {
        bytes[0] as nat + 256 * le_value(bytes.drop_first())
    }
}

/// 256 to the power of `n`: the number of values that `n` bytes can hold.
pub open spec fn le_range(n: nat) -> nat
    decreases n,
{
    if n == 0 {
        1
    } else {
        256 * le_range((n - 1) as nat)
    }
}

/// A little-endian number of `n` bytes.
pub open spec fn parse_le(data: Seq<u8>, pos: int, n: nat) -> Parsed<nat> {
    match super::parse_bytes(data, pos, n as int) {
        (Err(e), p) => (Err(e), p),
        (Ok(bytes), p) => (Ok(le_value(bytes)), p),
    }
}

proof fn lemma_le_bytes_len(v: nat, n: nat)
    ensures
        le_bytes(v, n).len() == n,
    decreases n,
{
    if n > 0 {
        lemma_le_bytes_len(v / 256, (n - 1) as nat);
    }
}

/// The bytes of a number that fits add up to the number.
pub proof fn le_value_inverts(v: nat, n: nat)
    requires
        v < le_range(n),
    ensures
        le_value(le_bytes(v, n)) == v,
    decreases n,
{
    if n > 0 {
        let rest = le_bytes(v / 256, (n - 1) as nat);
        assert((seq![(v % 256) as u8] + rest).drop_first() =~= rest);
        le_value_inverts(v / 256, (n - 1) as nat);
    }
}

proof fn lemma_le_value_bound(bytes: Seq<u8>)
    ensures
        le_value(bytes) < le_range(bytes.len()),
    decreases bytes.len(),
{
    if bytes.len() > 0 {
        lemma_le_value_bound(bytes.drop_first());
    }
}

proof fn lemma_le_ranges()
    ensures
        le_range(2) == 0x1_0000,
        le_range(4) == 0x1_0000_0000,
        le_range(8) == 0x1_0000_0000_0000_0000,
{
    reveal_with_fuel(le_range, 9);
}

proof fn lemma_le_inverts(v: nat, n: nat, data: Seq<u8>, pos: int)
    requires
        v < le_range(n),
        0 <= pos,
        pos + le_bytes(v, n).len() <= data.len(),
        data.subrange(pos, pos + le_bytes(v, n).len()) == le_bytes(v, n),
    ensures
        parse_le(data, pos, n) == (Ok::<nat, DecodeFailure>(v), pos + n),
        le_bytes(v, n).len() == n,
{
    lemma_le_bytes_len(v, n);
    le_value_inverts(v, n);
}

/// Reads a little-endian number of at most eight bytes.
fn read_le(r: &mut BinaryReader<'_>, n: usize) -> (res: ProtoResult<u64>)
    requires
        n <= 8,
    ensures
        final(r).data() == old(r).data(),
        match res {
            Ok(v) => parse_le(old(r).data(), old(r).pos(), n as nat) == (
                Ok::<nat, DecodeFailure>(v as nat),
                final(r).pos(),
            ) && v < le_range(n as nat),
            Err(e) => parse_le(old(r).data(), old(r).pos(), n as nat) == (
                Err::<nat, DecodeFailure>(e@),
                final(r).pos(),
            ),
        },
{
    let bytes = match r.take(n) {
        Ok(bytes) => bytes,
        Err(e) => {
            return Err(e);
        },
    };
    let mut v: u64 = 0;
    let mut i: usize = n;
    assert(bytes@.skip(n as int) =~= Seq::<u8>::empty());
    while i > 0
        invariant
            i <= n <= 8,
            bytes@.len() == n,
            v == le_value(bytes@.skip(i as int)),
        decreases i,
    {
        i = i - 1;
        proof {
            let rest = bytes@.skip(i as int);
            assert(rest.drop_first() =~= bytes@.skip(i + 1));
            lemma_le_value_bound(rest);
            reveal_with_fuel(le_range, 9);
        }
        v = v * 256 + bytes[i] as u64;
    }
    proof {
        assert(bytes@.skip(0) =~= bytes@);
        lemma_le_value_bound(bytes@);
    }
    Ok(v)
}

/// Writes the `n` least significant bytes of `v`, least significant first.
fn write_le(w: &mut BinaryWriter<'_>, v: u64, n: usize)
    ensures
        final(w).0@ == old(w).0@ + le_bytes(v as nat, n as nat),
        *final(final(w).0) == *final(old(w).0),
{
    let mut left: u64 = v;
    let mut i: usize = n;
    while i > 0
        invariant
            i <= n,
            w.0@ + le_bytes(left as nat, i as nat) == old(w).0@ + le_bytes(v as nat, n as nat),
            *final(w.0) == *final(old(w).0),
        decreases i,
    {
        let ghost before = w.0@;
        w.0.push((left % 256) as u8);
        assert(before + le_bytes(left as nat, i as nat) =~= w.0@ + le_bytes(
            (left / 256) as nat,
            (i - 1) as nat,
        ));
        left = left / 256;
        i = i - 1;
    }
    assert(w.0@ =~= old(w).0@ + le_bytes(v as nat, n as nat));
}

impl BinaryData for () {
    open spec fn encoding(&self) -> Seq<u8> {
        Seq::empty()
    }

    open spec fn parse(data: Seq<u8>, pos: int) -> Parsed<()> {
        (Ok(()), pos)
    }

    open spec fn takes_space() -> bool {
        false
    }

    open spec fn readable(&self) -> bool {
        true
    }

    proof fn parse_advances(data: Seq<u8>, pos: int) {
    }

    proof fn parse_extends(data: Seq<u8>, more: Seq<u8>, pos: int) {
    }

    proof fn encoding_takes_space(&self) {
    }

    proof fn parse_inverts(&self, data: Seq<u8>, pos: int) {
    }

    fn read_binary(r: &mut BinaryReader<'_>) -> (res: ProtoResult<Self>) {
        Ok(())
    }

    fn write_binary(&self, w: &mut BinaryWriter<'_>) -> (res: ProtoResult<()>) {
        assert(w.0@ + Seq::<u8>::empty() =~= w.0@);
        Ok(())
    }
}

impl BinaryData for u8 {
    open spec fn encoding(&self) -> Seq<u8> {
        seq![*self]
    }

    open spec fn parse(data: Seq<u8>, pos: int) -> Parsed<u8> {
        super::parse_byte(data, pos)
    }

    open spec fn takes_space() -> bool {
        true
    }

    open spec fn readable(&self) -> bool {
        true
    }

    proof fn parse_advances(data: Seq<u8>, pos: int) {
    }

    proof fn parse_extends(data: Seq<u8>, more: Seq<u8>, pos: int) {
    }

    proof fn encoding_takes_space(&self) {
    }

    proof fn parse_inverts(&self, data: Seq<u8>, pos: int) {
        assert(data[pos] == data.subrange(pos, pos + 1)[0]);
    }

    fn read_binary(r: &mut BinaryReader<'_>) -> (res: ProtoResult<Self>) {
        r.byte()
    }

    fn write_binary(&self, w: &mut BinaryWriter<'_>) -> (res: ProtoResult<()>) {
        w.0.push(*self);
        Ok(())
    }
}

impl BinaryData for i8 {
    /// The byte that is the two's complement of the number.
    open spec fn encoding(&self) -> Seq<u8> {
        seq![*self as u8]
    }

    open spec fn parse(data: Seq<u8>, pos: int) -> Parsed<i8> {
        super::map_parsed(super::parse_byte(data, pos), |b: u8| b as i8)
    }

    open spec fn takes_space() -> bool {
        true
    }

    open spec fn readable(&self) -> bool {
        true
    }

    proof fn parse_advances(data: Seq<u8>, pos: int) {
    }

    proof fn parse_extends(data: Seq<u8>, more: Seq<u8>, pos: int) {
    }

    proof fn encoding_takes_space(&self) {
    }

    proof fn parse_inverts(&self, data: Seq<u8>, pos: int) {
        assert(data[pos] == data.subrange(pos, pos + 1)[0]);
        let v: i8 = *self;
        assert((v as u8) as i8 == v) by (bit_vector);
    }

    fn read_binary(r: &mut BinaryReader<'_>) -> (res: ProtoResult<Self>) {
        match r.byte() {
            Ok(b) => Ok(b as i8),
            Err(e) => Err(e),
        }
    }

    fn write_binary(&self, w: &mut BinaryWriter<'_>) -> (res: ProtoResult<()>) {
        w.0.push(*self as u8);
        Ok(())
    }
}

impl BinaryData for bool {
    open spec fn encoding(&self) -> Seq<u8> {
        seq![if *self { 1u8 } else { 0u8 }]
    }

    /// A byte other than one reads as `false`.
    open spec fn parse(data: Seq<u8>, pos: int) -> Parsed<bool> {
        super::map_parsed(super::parse_byte(data, pos), |b: u8| b == 1)
    }

    open spec fn takes_space() -> bool {
        true
    }

    open spec fn readable(&self) -> bool {
        true
    }

    proof fn parse_advances(data: Seq<u8>, pos: int) {
    }

    proof fn parse_extends(data: Seq<u8>, more: Seq<u8>, pos: int) {
    }

    proof fn encoding_takes_space(&self) {
    }

    proof fn parse_inverts(&self, data: Seq<u8>, pos: int) {
        assert(data[pos] == data.subrange(pos, pos + 1)[0]);
    }

    fn read_binary(r: &mut BinaryReader<'_>) -> (res: ProtoResult<Self>) {
        match r.byte() {
            Ok(b) => Ok(b == 1),
            Err(e) => Err(e),
        }
    }

    fn write_binary(&self, w: &mut BinaryWriter<'_>) -> (res: ProtoResult<()>) {
        if *self {
            w.0.push(1);
        } else {
            w.0.push(0);
        }
        Ok(())
    }
}

impl BinaryData for u16 {
    open spec fn encoding(&self) -> Seq<u8> {
        le_bytes(*self as nat, 2)
    }

    open spec fn parse(data: Seq<u8>, pos: int) -> Parsed<u16> {
        super::map_parsed(parse_le(data, pos, 2), |v: nat| v as u16)
    }

    open spec fn takes_space() -> bool {
        true
    }

    open spec fn readable(&self) -> bool {
        true
    }

    proof fn parse_advances(data: Seq<u8>, pos: int) {
    }

    proof fn parse_extends(data: Seq<u8>, more: Seq<u8>, pos: int) {
        super::lemma_bytes_extend(data, more, pos, 2);
    }

    proof fn encoding_takes_space(&self) {
        lemma_le_bytes_len(*self as nat, 2);
    }

    proof fn parse_inverts(&self, data: Seq<u8>, pos: int) {
        lemma_le_ranges();
        lemma_le_inverts(*self as nat, 2, data, pos);
    }

    fn read_binary(r: &mut BinaryReader<'_>) -> (res: ProtoResult<Self>) {
        proof {
            lemma_le_ranges();
        }
        match read_le(r, 2) {
            Ok(v) => Ok(v as u16),
            Err(e) => Err(e),
        }
    }

    fn write_binary(&self, w: &mut BinaryWriter<'_>) -> (res: ProtoResult<()>) {
        write_le(w, *self as u64, 2);
        Ok(())
    }
}

impl BinaryData for u32 {
    open spec fn encoding(&self) -> Seq<u8> {
        le_bytes(*self as nat, 4)
    }

    open spec fn parse(data: Seq<u8>, pos: int) -> Parsed<u32> {
        super::map_parsed(parse_le(data, pos, 4), |v: nat| v as u32)
    }

    open spec fn takes_space() -> bool {
        true
    }

    open spec fn readable(&self) -> bool {
        true
    }

    proof fn parse_advances(data: Seq<u8>, pos: int) {
    }

    proof fn parse_extends(data: Seq<u8>, more: Seq<u8>, pos: int) {
        super::lemma_bytes_extend(data, more, pos, 4);
    }

    proof fn encoding_takes_space(&self) {
        lemma_le_bytes_len(*self as nat, 4);
    }

    proof fn parse_inverts(&self, data: Seq<u8>, pos: int) {
        lemma_le_ranges();
        lemma_le_inverts(*self as nat, 4, data, pos);
    }

    fn read_binary(r: &mut BinaryReader<'_>) -> (res: ProtoResult<Self>) {
        proof {
            lemma_le_ranges();
        }
        match read_le(r, 4) {
            Ok(v) => Ok(v as u32),
            Err(e) => Err(e),
        }
    }

    fn write_binary(&self, w: &mut BinaryWriter<'_>) -> (res: ProtoResult<()>) {
        write_le(w, *self as u64, 4);
        Ok(())
    }
}

impl BinaryData for u64 {
    open spec fn encoding(&self) -> Seq<u8> {
        le_bytes(*self as nat, 8)
    }

    open spec fn parse(data: Seq<u8>, pos: int) -> Parsed<u64> {
        super::map_parsed(parse_le(data, pos, 8), |v: nat| v as u64)
    }

    open spec fn takes_space() -> bool {
        true
    }

    open spec fn readable(&self) -> bool {
        true
    }

    proof fn parse_advances(data: Seq<u8>, pos: int) {
    }

    proof fn parse_extends(data: Seq<u8>, more: Seq<u8>, pos: int) {
        super::lemma_bytes_extend(data, more, pos, 8);
    }

    proof fn encoding_takes_space(&self) {
        lemma_le_bytes_len(*self as nat, 8);
    }

    proof fn parse_inverts(&self, data: Seq<u8>, pos: int) {
        lemma_le_ranges();
        lemma_le_inverts(*self as nat, 8, data, pos);
    }

    fn read_binary(r: &mut BinaryReader<'_>) -> (res: ProtoResult<Self>) {
        proof {
            lemma_le_ranges();
        }
        match read_le(r, 8) {
            Ok(v) => Ok(v),
            Err(e) => Err(e),
        }
    }

    fn write_binary(&self, w: &mut BinaryWriter<'_>) -> (res: ProtoResult<()>) {
        write_le(w, *self, 8);
        Ok(())
    }
}

impl BinaryData for i32 {
    open spec fn encoding(&self) -> Seq<u8> {
        le_bytes((*self as u32) as nat, 4)
    }

    open spec fn parse(data: Seq<u8>, pos: int) -> Parsed<i32> {
        super::map_parsed(parse_le(data, pos, 4), |v: nat| (v as u32) as i32)
    }

    open spec fn takes_space() -> bool {
        true
    }

    open spec fn readable(&self) -> bool {
        true
    }

    proof fn parse_advances(data: Seq<u8>, pos: int) {
    }

    proof fn parse_extends(data: Seq<u8>, more: Seq<u8>, pos: int) {
        super::lemma_bytes_extend(data, more, pos, 4);
    }

    proof fn encoding_takes_space(&self) {
        lemma_le_bytes_len((*self as u32) as nat, 4);
    }

    proof fn parse_inverts(&self, data: Seq<u8>, pos: int) {
        lemma_le_ranges();
        lemma_le_inverts((*self as u32) as nat, 4, data, pos);
        let v: i32 = *self;
        assert((v as u32) as i32 == v) by (bit_vector);
    }

    fn read_binary(r: &mut BinaryReader<'_>) -> (res: ProtoResult<Self>) {
        proof {
            lemma_le_ranges();
        }
        match read_le(r, 4) {
            Ok(v) => Ok((v as u32) as i32),
            Err(e) => Err(e),
        }
    }

    fn write_binary(&self, w: &mut BinaryWriter<'_>) -> (res: ProtoResult<()>) {
        write_le(w, (*self as u32) as u64, 4);
        Ok(())
    }
}

impl BinaryData for i64 {
    open spec fn encoding(&self) -> Seq<u8> {
        le_bytes((*self as u64) as nat, 8)
    }

    open spec fn parse(data: Seq<u8>, pos: int) -> Parsed<i64> {
        super::map_parsed(parse_le(data, pos, 8), |v: nat| (v as u64) as i64)
    }

    open spec fn takes_space() -> bool {
        true
    }

    open spec fn readable(&self) -> bool {
        true
    }

    proof fn parse_advances(data: Seq<u8>, pos: int) {
    }

    proof fn parse_extends(data: Seq<u8>, more: Seq<u8>, pos: int) {
        super::lemma_bytes_extend(data, more, pos, 8);
    }

    proof fn encoding_takes_space(&self) {
        lemma_le_bytes_len((*self as u64) as nat, 8);
    }

    proof fn parse_inverts(&self, data: Seq<u8>, pos: int) {
        lemma_le_ranges();
        lemma_le_inverts((*self as u64) as nat, 8, data, pos);
        let v: i64 = *self;
        assert((v as u64) as i64 == v) by (bit_vector);
    }

    fn read_binary(r: &mut BinaryReader<'_>) -> (res: ProtoResult<Self>) {
        proof {
            lemma_le_ranges();
        }
        match read_le(r, 8) {
            Ok(v) => Ok(v as i64),
            Err(e) => Err(e),
        }
    }

    fn write_binary(&self, w: &mut BinaryWriter<'_>) -> (res: ProtoResult<()>) {
        write_le(w, *self as u64, 8);
        Ok(())
    }
}

} // verus!
