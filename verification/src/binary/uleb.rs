//! ULEB128: a number as groups of seven bits, least significant first, where the high bit of a
//! byte says that another group follows.

use vstd::arithmetic::power2::*;
use vstd::bits::*;
use vstd::prelude::*;

use super::{BinaryReader, BinaryWriter, DecodeError, DecodeFailure, Parsed, ProtoResult};

verus! {

/// The groups of `v`.
pub open spec fn uleb_encoding(v: nat) -> Seq<u8>
    decreases v,
{
    if v < 128 {
        seq![v as u8]
    } else {
        seq![(v % 128 + 128) as u8] + uleb_encoding(v / 128)
    }
}

/// Reads at most `groups` groups and adds them up.
pub open spec fn uleb_scan(data: Seq<u8>, pos: int, groups: nat) -> Parsed<nat>
    decreases groups,
{
    if groups == 0 {
        (Err(DecodeFailure::UlebOverflow), pos)
    } else {
        match super::parse_byte(data, pos) {
            (Err(e), p) => (Err(e), p),
            (Ok(b), p) => if b < 128 {
                (Ok(b as nat), p)
            } else {
                match uleb_scan(data, p, (groups - 1) as nat) {
                    (Err(e), q) => (Err(e), q),
                    (Ok(rest), q) => (Ok((b - 128 + 128 * rest) as nat), q),
                }
            },
        }
    }
}

/// Reads a number of at most ten groups. One that does not fit into 64 bits is refused.
pub open spec fn parse_uleb(data: Seq<u8>, pos: int) -> Parsed<u64> {
    match uleb_scan(data, pos, 10) {
        (Err(e), q) => (Err(e), q),
        (Ok(n), q) => if n > u64::MAX {
            (Err(DecodeFailure::UlebOverflow), q)
        } else {
            (Ok(n as u64), q)
        },
    }
}

proof fn lemma_scan_advances(data: Seq<u8>, pos: int, groups: nat)
    requires
        0 <= pos <= data.len(),
    ensures
        pos <= uleb_scan(data, pos, groups).1 <= data.len(),
    decreases groups,
{
    if groups > 0 && pos < data.len() && data[pos] >= 128 {
        lemma_scan_advances(data, pos + 1, (groups - 1) as nat);
    }
}

/// Reading a number only moves forward, and never past the end of the data.
pub proof fn lemma_uleb_advances(data: Seq<u8>, pos: int)
    requires
        0 <= pos <= data.len(),
    ensures
        pos <= parse_uleb(data, pos).1 <= data.len(),
{
    lemma_scan_advances(data, pos, 10);
}

proof fn lemma_scan_extends(data: Seq<u8>, more: Seq<u8>, pos: int, groups: nat)
    requires
        0 <= pos <= data.len(),
    ensures
        super::ran_out(uleb_scan(data, pos, groups).0) || uleb_scan(data + more, pos, groups)
            == uleb_scan(data, pos, groups),
    decreases groups,
{
    if groups > 0 && pos < data.len() && data[pos] >= 128 {
        lemma_scan_extends(data, more, pos + 1, (groups - 1) as nat);
    }
}

/// Reading a number is not changed by more data.
pub proof fn lemma_uleb_extends(data: Seq<u8>, more: Seq<u8>, pos: int)
    requires
        0 <= pos <= data.len(),
    ensures
        super::ran_out(parse_uleb(data, pos).0) || parse_uleb(data + more, pos) == parse_uleb(
            data,
            pos,
        ),
{
    lemma_scan_extends(data, more, pos, 10);
}

/// A number has at least one group.
pub proof fn lemma_uleb_takes_space(v: nat)
    ensures
        uleb_encoding(v).len() > 0,
{
}

proof fn lemma_scan_inverts(v: nat, groups: nat, data: Seq<u8>, pos: int)
    requires
        groups > 0,
        v < pow2(7 * groups),
        0 <= pos,
        pos + uleb_encoding(v).len() <= data.len(),
        data.subrange(pos, pos + uleb_encoding(v).len()) == uleb_encoding(v),
    ensures
        uleb_scan(data, pos, groups) == (
            Ok::<nat, DecodeFailure>(v),
            pos + uleb_encoding(v).len(),
        ),
    decreases groups,
{
    let enc = uleb_encoding(v);
    assert(data[pos] == data.subrange(pos, pos + enc.len())[0]);
    if v >= 128 {
        let rest = uleb_encoding(v / 128);
        assert(enc == seq![(v % 128 + 128) as u8] + rest);
        assert(data.subrange(pos + 1, pos + 1 + rest.len()) =~= rest) by {
            assert forall|i: int| 0 <= i < rest.len() implies data[pos + 1 + i] == rest[i] by {
                assert(data.subrange(pos, pos + enc.len())[i + 1] == enc[i + 1]);
            }
        }
        lemma2_to64();
        lemma_pow2_adds(7, (7 * (groups - 1)) as nat);
        lemma_scan_inverts(v / 128, (groups - 1) as nat, data, pos + 1);
    }
}

/// Reading back the groups of a 64-bit number gives the number.
pub proof fn lemma_uleb_inverts(v: u64, data: Seq<u8>, pos: int)
    requires
        0 <= pos,
        pos + uleb_encoding(v as nat).len() <= data.len(),
        data.subrange(pos, pos + uleb_encoding(v as nat).len()) == uleb_encoding(v as nat),
    ensures
        parse_uleb(data, pos) == (
            Ok::<u64, DecodeFailure>(v),
            pos + uleb_encoding(v as nat).len(),
        ),
{
    lemma2_to64();
    lemma2_to64_rest();
    lemma_pow2_strictly_increases(64, 70);
    lemma_scan_inverts(v as nat, 10, data, pos);
}

/// Setting the bits of a group above all bits that are set already adds the group's value.
proof fn lemma_set_group(acc: u64, group: u64, shift: u64)
    requires
        group < 128,
        shift <= 56 || shift == 63 && group <= 1,
        acc < pow2(shift as nat),
    ensures
        acc | (group << shift) == acc + pow2(shift as nat) * group,
        shift <= 56 ==> acc | (group << shift) < pow2((shift + 7) as nat),
{
    lemma2_to64();
    lemma2_to64_rest();
    if shift < 56 {
        lemma_pow2_strictly_increases(shift as nat, 56);
    }
    if shift <= 56 {
        lemma_pow2_adds(shift as nat, 7);
        assert(1 * pow2(shift as nat) <= u64::MAX);
        assert(group * pow2(shift as nat) <= 127 * pow2(shift as nat)) by (nonlinear_arith)
            requires
                group < 128,
        ;
        assert(pow2(shift as nat) * group == group * pow2(shift as nat)) by (nonlinear_arith);
        lemma_u64_shl_is_mul(1, shift);
        lemma_u64_shl_is_mul(group, shift);
        assert(acc | (group << shift) == acc + (group << shift)) by (bit_vector)
            requires
                group < 128,
                shift <= 56,
                acc < (1u64 << shift),
        ;
    } else {
        assert(acc | (group << 63u64) == acc + group * 0x8000_0000_0000_0000) by (bit_vector)
            requires
                group <= 1,
                acc < 0x8000_0000_0000_0000,
        ;
    }
}

impl<'a> BinaryReader<'a> {
    /// Reads a ULEB128 number. One of more than 64 bits is refused.
    #[verifier::spinoff_prover]
    pub fn uleb(&mut self) -> (res: ProtoResult<u64>)
        ensures
            final(self).data() == old(self).data(),
            (super::result_model(res), final(self).pos()) == parse_uleb(
                old(self).data(),
                old(self).pos(),
            ),
    {
        let mut result: u64 = 0;
        let mut shift: u64 = 0;
        let ghost start = self.pos();
        let ghost data = self.data();
        let ghost mut done: nat = 0;
        proof {
            lemma2_to64();
        }
        loop
            invariant
                self.data() == data,
                done <= 9,
                shift == 7 * done,
                result < pow2(shift as nat),
                match uleb_scan(data, self.pos(), (10 - done) as nat) {
                    (Err(e), q) => uleb_scan(data, start, 10) == (Err::<nat, DecodeFailure>(e), q),
                    (Ok(n), q) => uleb_scan(data, start, 10) == (
                        Ok::<nat, DecodeFailure>((result + pow2(shift as nat) * n) as nat),
                        q,
                    ),
                },
                data == old(self).data(),
                start == old(self).pos(),
            decreases 10 - done,
        {
            let ghost at = self.pos();
            let byte: u8 = match self.byte() {
                Ok(b) => b,
                Err(e) => {
                    return Err(e);
                },
            };
            let group: u64 = (byte % 128) as u64;
            if shift == 63 && (byte >= 128 || group > 1) {
                proof {
                    lemma2_to64_rest();
                    let last = uleb_scan(data, self.pos(), 0);
                    assert(last == (Err::<nat, DecodeFailure>(DecodeFailure::UlebOverflow), at + 1));
                    assert(pow2(shift as nat) * group == 0x8000_0000_0000_0000 * group);
                }
                return Err(DecodeError::UlebOverflow);
            }
            proof {
                lemma_set_group(result, group, shift);
            }
            let ghost before = result;
            result = result | (group << shift);
            if byte < 128 {
                return Ok(result);
            }
            proof {
                let rest = uleb_scan(data, self.pos(), (9 - done) as nat);
                let scale = pow2(shift as nat);
                lemma_pow2_adds(shift as nat, 7);
                lemma2_to64();
                assert(pow2((shift + 7) as nat) == scale * 128);
                assert(result == before + scale * group);
                if let (Ok(n), q) = rest {
                    assert(uleb_scan(data, at, (10 - done) as nat) == (
                        Ok::<nat, DecodeFailure>((group + 128 * n) as nat),
                        q,
                    ));
                    assert(scale * (group + 128 * n) == scale * group + (scale * 128) * n)
                        by (nonlinear_arith);
                } else {
                    assert(uleb_scan(data, at, (10 - done) as nat) == rest);
                }
                done = done + 1;
            }
            shift = shift + 7;
        }
    }
}

impl<'a> BinaryWriter<'a> {
    /// Writes a ULEB128 number.
    pub fn uleb(&mut self, v: u64) -> (res: ProtoResult<()>)
        ensures
            res is Ok,
            final(self).0@ == old(self).0@ + uleb_encoding(v as nat),
            *final(final(self).0) == *final(old(self).0),
    {
        let mut left: u64 = v;
        loop
            invariant
                self.0@ + uleb_encoding(left as nat) == old(self).0@ + uleb_encoding(v as nat),
                *final(self.0) == *final(old(self).0),
            decreases left,
        {
            let group: u8 = (left % 128) as u8;
            if left < 128 {
                self.0.push(group);
                assert(self.0@ =~= old(self).0@ + uleb_encoding(v as nat));
                return Ok(());
            }
            let ghost before = self.0@;
            let ghost rest = uleb_encoding((left / 128) as nat);
            self.0.push(group + 128);
            assert(before + uleb_encoding(left as nat) =~= self.0@ + rest);
            left = left / 128;
        }
    }
}

} // verus!
