//! Laws of the wire format: what the bytes of a value are, and what is read from given bytes,
//! byte by byte.

use std::collections::HashMap;

use vstd::arithmetic::div_mod::*;
use vstd::arithmetic::power::*;
use vstd::prelude::*;
use vstd::utf8::*;

use crate::model::HasModel;

use super::{BinaryData, DecodeError, DecodeFailure, Parsed, ProtoResult};

verus! {

/// Whether these bytes are the bytes of a number, least significant first.
pub open spec fn little_endian(v: int, bytes: Seq<u8>) -> bool {
    &&& 0 <= v < pow(256, bytes.len())
    &&& forall|i: int|
        0 <= i < bytes.len() ==> (#[trigger] bytes[i]) as int == v / pow(256, i as nat) % 256
}

/// A signed number of 32 bits as an unsigned one: two's complement.
pub open spec fn unsigned32(v: i32) -> int {
    if v < 0 {
        v + 0x1_0000_0000
    } else {
        v as int
    }
}

/// A signed number of 64 bits as an unsigned one: two's complement.
pub open spec fn unsigned64(v: i64) -> int {
    if v < 0 {
        v + 0x1_0000_0000_0000_0000
    } else {
        v as int
    }
}

/// A signed number of 8 bits as an unsigned one: two's complement.
pub open spec fn unsigned8(v: i8) -> int {
    if v < 0 {
        v + 0x100
    } else {
        v as int
    }
}

proof fn lemma_unsigned(a: i8, b: i32, c: i64)
    ensures
        a as u8 == unsigned8(a),
        b as u32 == unsigned32(b),
        c as u64 == unsigned64(c),
{
    assert(a < 0 ==> a as u8 == a + 0x100) by (bit_vector);
    assert(a >= 0 ==> a as u8 == a) by (bit_vector);
    assert(b < 0 ==> b as u32 == b + 0x1_0000_0000) by (bit_vector);
    assert(b >= 0 ==> b as u32 == b) by (bit_vector);
    assert(c < 0 ==> c as u64 == c + 0x1_0000_0000_0000_0000) by (bit_vector);
    assert(c >= 0 ==> c as u64 == c) by (bit_vector);
}

proof fn lemma_signed(a: u8, b: u32, c: u64)
    ensures
        unsigned8(a as i8) == a,
        unsigned32(b as i32) == b,
        unsigned64(c as i64) == c,
{
    assert((a as i8) as u8 == a) by (bit_vector);
    assert((b as i32) as u32 == b) by (bit_vector);
    assert((c as i64) as u64 == c) by (bit_vector);
    lemma_unsigned(a as i8, b as i32, c as i64);
}

proof fn lemma_digit_above(v: int, base: int, i: nat)
    requires
        v >= 0,
        base > 1,
    ensures
        v / pow(base, (i + 1) as nat) == (v / base) / pow(base, i),
        pow(base, (i + 1) as nat) == base * pow(base, i),
        pow(base, i) > 0,
        pow(base, 0) == 1,
        v / pow(base, 0) == v,
{
    reveal(pow);
    lemma_pow_positive(base, i);
    lemma_div_basics(v);
    lemma_div_denominator(v, base, pow(base, i));
}

proof fn lemma_le_digits(v: nat, n: nat)
    ensures
        super::scalar::le_bytes(v, n).len() == n,
        forall|i: int|
            0 <= i < n ==> (#[trigger] super::scalar::le_bytes(v, n)[i]) as int == v as int / pow(
                256,
                i as nat,
            ) % 256,
    decreases n,
{
    if n > 0 {
        let rest = super::scalar::le_bytes(v / 256, (n - 1) as nat);
        let bytes = super::scalar::le_bytes(v, n);
        lemma_le_digits(v / 256, (n - 1) as nat);
        assert forall|i: int| 0 <= i < n implies (#[trigger] bytes[i]) as int == v as int / pow(
            256,
            i as nat,
        ) % 256 by {
            lemma_digit_above(v as int, 256, 0);
            if i > 0 {
                lemma_digit_above(v as int, 256, (i - 1) as nat);
                assert(bytes[i] == rest[i - 1]);
            }
        }
    }
}

proof fn lemma_le_value(bytes: Seq<u8>)
    ensures
        little_endian(super::scalar::le_value(bytes) as int, bytes),
    decreases bytes.len(),
{
    reveal(pow);
    let v = super::scalar::le_value(bytes) as int;
    if bytes.len() > 0 {
        let rest = bytes.drop_first();
        lemma_le_value(rest);
        let w = super::scalar::le_value(rest) as int;
        assert(v == bytes[0] + 256 * w);
        lemma_digit_above(v, 256, rest.len());
        assert(v < 256 * pow(256, rest.len()));
        assert forall|i: int| 0 <= i < bytes.len() implies (#[trigger] bytes[i]) as int == v / pow(
            256,
            i as nat,
        ) % 256 by {
            lemma_digit_above(v, 256, 0);
            if i > 0 {
                lemma_digit_above(v, 256, (i - 1) as nat);
                assert(bytes[i] == rest[i - 1]);
                assert(v / 256 == w);
            }
        }
    }
}

proof fn lemma_powers()
    ensures
        pow(256, 0) == 1,
        pow(256, 1) == 0x100,
        pow(256, 2) == 0x1_0000,
        pow(256, 3) == 0x100_0000,
        pow(256, 4) == 0x1_0000_0000,
        pow(256, 8) == 0x1_0000_0000_0000_0000,
{
    reveal(pow);
    reveal_with_fuel(pow, 9);
}

/// Numbers are written in as many bytes as they have, least significant first; signed ones in two's
/// complement.
pub proof fn numbers_are_little_endian(a: u16, b: u32, c: u64, d: i32, e: i64)
    ensures
        a.encoding().len() == 2,
        little_endian(a as int, a.encoding()),
        b.encoding().len() == 4,
        little_endian(b as int, b.encoding()),
        c.encoding().len() == 8,
        little_endian(c as int, c.encoding()),
        d.encoding().len() == 4,
        little_endian(unsigned32(d), d.encoding()),
        e.encoding().len() == 8,
        little_endian(unsigned64(e), e.encoding()),
{
    lemma_powers();
    lemma_unsigned(0, d, e);
    lemma_le_digits(a as nat, 2);
    lemma_le_digits(b as nat, 4);
    lemma_le_digits(c as nat, 8);
    lemma_le_digits((d as u32) as nat, 4);
    lemma_le_digits((e as u64) as nat, 8);
}

/// The four bytes of a signed number, one by one.
pub proof fn user_ids_are_four_bytes(v: i32)
    ensures
        v.encoding() == seq![
            (unsigned32(v) % 0x100) as u8,
            (unsigned32(v) / 0x100 % 0x100) as u8,
            (unsigned32(v) / 0x1_0000 % 0x100) as u8,
            (unsigned32(v) / 0x100_0000 % 0x100) as u8,
        ],
{
    lemma_powers();
    numbers_are_little_endian(0, 0, 0, v, 0);
    assert(v.encoding() =~= seq![
        v.encoding()[0],
        v.encoding()[1],
        v.encoding()[2],
        v.encoding()[3],
    ]);
}

/// Whether a number of this many bytes was read: its bytes are the next ones, least significant
/// first, or there are too few.
pub open spec fn reads_number(
    data: Seq<u8>,
    pos: int,
    n: nat,
    read: Result<int, DecodeFailure>,
    end: int,
) -> bool {
    if pos + n <= data.len() {
        &&& end == pos + n
        &&& read matches Ok(v) && little_endian(v, data.subrange(pos, pos + n))
    } else {
        &&& end == pos
        &&& read == Err::<int, _>(DecodeFailure::Eof)
    }
}

proof fn lemma_reads_number(data: Seq<u8>, pos: int, n: nat)
    requires
        0 <= pos <= data.len(),
    ensures
        ({
            let parsed = super::scalar::parse_le(data, pos, n);
            reads_number(
                data,
                pos,
                n,
                match parsed.0 {
                    Ok(v) => Ok(v as int),
                    Err(e) => Err(e),
                },
                parsed.1,
            )
        }),
        super::scalar::parse_le(data, pos, n).0 matches Ok(v) ==> v < pow(256, n),
{
    if pos + n <= data.len() {
        lemma_le_value(data.subrange(pos, pos + n));
    }
}

/// Numbers are read from as many bytes as they have, least significant first; signed ones in two's
/// complement.
pub proof fn numbers_are_read_little_endian(data: Seq<u8>, pos: int)
    requires
        0 <= pos <= data.len(),
    ensures
        reads_number(
            data,
            pos,
            2,
            match u16::parse(data, pos).0 {
                Ok(v) => Ok(v as int),
                Err(e) => Err(e),
            },
            u16::parse(data, pos).1,
        ),
        reads_number(
            data,
            pos,
            4,
            match u32::parse(data, pos).0 {
                Ok(v) => Ok(v as int),
                Err(e) => Err(e),
            },
            u32::parse(data, pos).1,
        ),
        reads_number(
            data,
            pos,
            8,
            match u64::parse(data, pos).0 {
                Ok(v) => Ok(v as int),
                Err(e) => Err(e),
            },
            u64::parse(data, pos).1,
        ),
        reads_number(
            data,
            pos,
            4,
            match i32::parse(data, pos).0 {
                Ok(v) => Ok(unsigned32(v)),
                Err(e) => Err(e),
            },
            i32::parse(data, pos).1,
        ),
        reads_number(
            data,
            pos,
            8,
            match i64::parse(data, pos).0 {
                Ok(v) => Ok(unsigned64(v)),
                Err(e) => Err(e),
            },
            i64::parse(data, pos).1,
        ),
{
    lemma_powers();
    lemma_reads_number(data, pos, 2);
    lemma_reads_number(data, pos, 4);
    lemma_reads_number(data, pos, 8);
    let four = super::scalar::parse_le(data, pos, 4).0;
    let eight = super::scalar::parse_le(data, pos, 8).0;
    if four is Ok {
        lemma_signed(0, four->Ok_0 as u32, 0);
    }
    if eight is Ok {
        lemma_signed(0, 0, eight->Ok_0 as u64);
    }
}

/// Small values are one byte: a number is itself, or its two's complement; the truth is one, and
/// only one is read as true. Nothing at all takes no byte.
pub proof fn small_values_are_one_byte(a: u8, b: i8, c: bool, data: Seq<u8>, pos: int)
    requires
        0 <= pos <= data.len(),
    ensures
        a.encoding() == seq![a],
        b.encoding() == seq![unsigned8(b) as u8],
        c.encoding() == seq![if c { 1u8 } else { 0u8 }],
        ().encoding() == Seq::<u8>::empty(),
        <()>::parse(data, pos) == (Ok::<(), DecodeFailure>(()), pos),
        pos < data.len() ==> {
            &&& u8::parse(data, pos) == (Ok::<u8, DecodeFailure>(data[pos]), pos + 1)
            &&& bool::parse(data, pos) == (Ok::<bool, DecodeFailure>(data[pos] == 1), pos + 1)
            &&& (i8::parse(data, pos).0 matches Ok(v) && unsigned8(v) == data[pos])
            &&& i8::parse(data, pos).1 == pos + 1
        },
        pos == data.len() ==> {
            &&& u8::parse(data, pos) == (Err::<u8, _>(DecodeFailure::Eof), pos)
            &&& bool::parse(data, pos) == (Err::<bool, _>(DecodeFailure::Eof), pos)
            &&& i8::parse(data, pos) == (Err::<i8, _>(DecodeFailure::Eof), pos)
        },
{
    lemma_unsigned(b, 0, 0);
    if pos < data.len() {
        lemma_signed(data[pos], 0, 0);
    }
}

/// A length is written in groups of seven bits, least significant first, in as few as it takes; all
/// but the last one have the high bit set.
pub proof fn lengths_are_groups_of_seven_bits(v: nat)
    ensures
        ({
            let bytes = super::uleb::uleb_encoding(v);
            &&& bytes.len() >= 1
            &&& v < pow(128, bytes.len())
            &&& bytes.len() > 1 ==> v >= pow(128, (bytes.len() - 1) as nat)
            &&& forall|i: int|
                0 <= i < bytes.len() ==> (#[trigger] bytes[i]) as int == v as int / pow(
                    128,
                    i as nat,
                ) % 128 + if i < bytes.len() - 1 {
                    128int
                } else {
                    0
                }
        }),
    decreases v,
{
    let bytes = super::uleb::uleb_encoding(v);
    lemma_digit_above(v as int, 128, 0);
    if v >= 128 {
        let rest = super::uleb::uleb_encoding(v / 128);
        lengths_are_groups_of_seven_bits(v / 128);
        lemma_digit_above(v as int, 128, rest.len());
        lemma_digit_above(v as int, 128, (rest.len() - 1) as nat);
        assert forall|i: int| 0 <= i < bytes.len() implies (#[trigger] bytes[i]) as int
            == v as int / pow(128, i as nat) % 128 + if i < bytes.len() - 1 {
            128int
        } else {
            0
        } by {
            if i > 0 {
                lemma_digit_above(v as int, 128, (i - 1) as nat);
                assert(bytes[i] == rest[i - 1]);
            }
        }
    }
}

/// Whether the bytes from one position up to another are groups of which the last one is the end
/// of a number.
pub open spec fn is_number(data: Seq<u8>, pos: int, end: int) -> bool {
    &&& pos < end <= data.len()
    &&& data[end - 1] < 128
    &&& forall|i: int| pos <= i < end - 1 ==> (#[trigger] data[i]) >= 128
}

proof fn lemma_scan(data: Seq<u8>, pos: int, groups: nat)
    requires
        0 <= pos <= data.len(),
    ensures
        match super::uleb::uleb_scan(data, pos, groups) {
            (Ok(v), end) => {
                &&& is_number(data, pos, end)
                &&& end - pos <= groups
                &&& v < pow(128, (end - pos) as nat)
                &&& forall|i: int|
                    pos <= i < end ==> (#[trigger] data[i]) as int % 128 == v as int / pow(
                        128,
                        (i - pos) as nat,
                    ) % 128
            },
            (Err(e), end) => {
                &&& forall|i: int| pos <= i < end ==> (#[trigger] data[i]) >= 128
                &&& (e is Eof && end == data.len() && end - pos < groups) || (e is UlebOverflow
                    && end == pos + groups && end <= data.len())
            },
        },
    decreases groups,
{
    if groups > 0 && pos < data.len() {
        let b = data[pos];
        if b < 128 {
            lemma_digit_above(b as int, 128, 0);
        } else {
            lemma_scan(data, pos + 1, (groups - 1) as nat);
            if let (Ok(rest), end) = super::uleb::uleb_scan(data, pos + 1, (groups - 1) as nat) {
                let v = b - 128 + 128 * rest;
                assert(super::uleb::uleb_scan(data, pos, groups) == (
                    Ok::<nat, DecodeFailure>(v as nat),
                    end,
                ));
                lemma_digit_above(v, 128, 0);
                lemma_digit_above(v, 128, (end - pos - 1) as nat);
                assert forall|i: int| pos <= i < end implies (#[trigger] data[i]) as int % 128 == v
                    / pow(128, (i - pos) as nat) % 128 by {
                    if i > pos {
                        lemma_digit_above(v, 128, (i - pos - 1) as nat);
                        assert(v / 128 == rest);
                    }
                }
            }
        }
    }
}

/// A length is read from groups of seven bits up to the first one without the high bit. There are
/// ten at most, and of the tenth only the lowest bit is left: what goes beyond that is refused.
pub proof fn lengths_are_read_by_groups(data: Seq<u8>, pos: int)
    requires
        0 <= pos <= data.len(),
    ensures
        match super::uleb::parse_uleb(data, pos) {
            (Ok(v), end) => {
                &&& is_number(data, pos, end)
                &&& end - pos < 10 || (end - pos == 10 && data[end - 1] < 2)
                &&& v < pow(128, (end - pos) as nat)
                &&& forall|i: int|
                    pos <= i < end ==> (#[trigger] data[i]) as int % 128 == v as int / pow(
                        128,
                        (i - pos) as nat,
                    ) % 128
            },
            (Err(DecodeFailure::Eof), end) => {
                &&& end == data.len()
                &&& end - pos < 10
                &&& forall|i: int| pos <= i < end ==> (#[trigger] data[i]) >= 128
            },
            (Err(DecodeFailure::UlebOverflow), end) => {
                &&& end == pos + 10
                &&& end <= data.len()
                &&& data[end - 1] >= 2
                &&& forall|i: int| pos <= i < end - 1 ==> (#[trigger] data[i]) >= 128
            },
            _ => false,
        },
{
    lemma_scan(data, pos, 10);
    assert(pow(128, 9) == 0x8000_0000_0000_0000 && pow(128, 10) == 0x40_0000_0000_0000_0000) by {
        reveal(pow);
        reveal_with_fuel(pow, 11);
    }
    if let (Ok(v), end) = super::uleb::uleb_scan(data, pos, 10) {
        let n = (end - pos) as nat;
        if n < 10 {
            lemma_pow_increases(128, n, 9);
        } else {
            let last = data[end - 1] as int;
            assert(last % 128 == v as int / pow(128, (end - 1 - pos) as nat) % 128);
            assert(v as int / pow(128, 9) == v as int / 0x8000_0000_0000_0000);
            assert(last == v as int / 0x8000_0000_0000_0000);
        }
    }
}

/// Two values are written one after the other, and read one after the other.
pub proof fn pairs_are_two_values<A: BinaryData, B: BinaryData>(
    v: (A, B),
    data: Seq<u8>,
    pos: int,
)
    ensures
        v.encoding() == v.0.encoding() + v.1.encoding(),
        match A::parse(data, pos) {
            (Err(e), p) => <(A, B)>::parse(data, pos) == (Err::<(A::Model, B::Model), _>(e), p),
            (Ok(a), p) => match B::parse(data, p) {
                (Err(e), q) => <(A, B)>::parse(data, pos) == (Err::<(A::Model, B::Model), _>(e), q),
                (Ok(b), q) => <(A, B)>::parse(data, pos) == (Ok::<_, DecodeFailure>((a, b)), q),
            },
        },
{
}

/// Something that may be there is a one and then the value, or a zero.
pub proof fn options_say_whether_there_is_a_value<T: BinaryData>(
    v: T,
    data: Seq<u8>,
    pos: int,
)
    requires
        0 <= pos < data.len(),
    ensures
        Some(v).encoding() == seq![1u8] + v.encoding(),
        None::<T>.encoding() == seq![0u8],
        data[pos] != 1 ==> <Option<T>>::parse(data, pos) == (
            Ok::<Option<T::Model>, DecodeFailure>(None),
            pos + 1,
        ),
        data[pos] == 1 ==> match T::parse(data, pos + 1) {
            (Err(e), p) => <Option<T>>::parse(data, pos) == (Err::<Option<T::Model>, _>(e), p),
            (Ok(v), p) => <Option<T>>::parse(data, pos) == (Ok::<_, DecodeFailure>(Some(v)), p),
        },
{
}

/// A result is a one and then the value, or a zero and then the error.
pub proof fn results_say_whether_they_succeeded<A: BinaryData, B: BinaryData>(
    v: A,
    w: B,
    data: Seq<u8>,
    pos: int,
)
    requires
        0 <= pos < data.len(),
    ensures
        Ok::<A, B>(v).encoding() == seq![1u8] + v.encoding(),
        Err::<A, B>(w).encoding() == seq![0u8] + w.encoding(),
        data[pos] == 1 ==> match A::parse(data, pos + 1) {
            (Err(e), p) => <Result<A, B>>::parse(data, pos) == (
                Err::<Result<A::Model, B::Model>, _>(e),
                p,
            ),
            (Ok(v), p) => <Result<A, B>>::parse(data, pos) == (
                Ok::<Result<A::Model, B::Model>, DecodeFailure>(Ok(v)),
                p,
            ),
        },
        data[pos] != 1 ==> match B::parse(data, pos + 1) {
            (Err(e), p) => <Result<A, B>>::parse(data, pos) == (
                Err::<Result<A::Model, B::Model>, _>(e),
                p,
            ),
            (Ok(v), p) => <Result<A, B>>::parse(data, pos) == (
                Ok::<Result<A::Model, B::Model>, DecodeFailure>(Err(v)),
                p,
            ),
        },
{
}

/// Where there is no byte left, there is no option and no result.
pub proof fn options_and_results_need_a_byte<A: BinaryData, B: BinaryData>(
    data: Seq<u8>,
)
    ensures
        <Option<A>>::parse(data, data.len() as int) == (
            Err::<Option<A::Model>, _>(DecodeFailure::Eof),
            data.len() as int,
        ),
        <Result<A, B>>::parse(data, data.len() as int) == (
            Err::<Result<A::Model, B::Model>, _>(DecodeFailure::Eof),
            data.len() as int,
        ),
{
}

/// Items are written one after the other, in their order.
pub proof fn items_follow_each_other<T: BinaryData>(items: Seq<T>, item: T)
    ensures
        super::seq_encoding(Seq::<T>::empty()) == Seq::<u8>::empty(),
        super::seq_encoding(items.push(item)) == super::seq_encoding(items) + item.encoding(),
{
    assert(items.push(item).drop_last() =~= items);
}

/// An array is the number of its items, and then the items.
pub proof fn arrays_begin_with_their_length<T: BinaryData>(items: Vec<T>)
    ensures
        items.encoding() == super::uleb::uleb_encoding(items@.len()) + super::seq_encoding(items@),
        std::sync::Arc::new(items).encoding() == items.encoding(),
{
}

/// An array is read as a number and then as many items; a number that exceeds the bytes that
/// follow it is refused at once.
pub proof fn arrays_are_read_by_their_length<T: BinaryData>(data: Seq<u8>, pos: int)
    ensures
        <std::sync::Arc<Vec<T>>>::parse(data, pos) == <Vec<T>>::parse(data, pos),
        match super::uleb::parse_uleb(data, pos) {
            (Err(e), p) => <Vec<T>>::parse(data, pos) == (Err::<Seq<T::Model>, _>(e), p),
            (Ok(len), p) => if len <= data.len() - p {
                <Vec<T>>::parse(data, pos) == super::parse_seq::<T>(data, p, len as nat)
            } else {
                <Vec<T>>::parse(data, pos) == (
                    Err::<Seq<T::Model>, _>(
                        DecodeFailure::ArrayTooLarge { len, remaining: (data.len() - p) as u64 },
                    ),
                    p,
                )
            },
        },
{
}

/// Items are read one after the other, until there are enough of them or one cannot be read.
pub proof fn items_are_read_in_order<T: BinaryData>(data: Seq<u8>, pos: int, n: nat)
    ensures
        super::parse_seq::<T>(data, pos, 0) == (
            Ok::<Seq<T::Model>, DecodeFailure>(Seq::empty()),
            pos,
        ),
        match super::parse_seq::<T>(data, pos, n) {
            (Err(e), p) => super::parse_seq::<T>(data, pos, n + 1) == (
                Err::<Seq<T::Model>, _>(e),
                p,
            ),
            (Ok(items), p) => match T::parse(data, p) {
                (Err(e), q) => super::parse_seq::<T>(data, pos, n + 1) == (
                    Err::<Seq<T::Model>, _>(e),
                    q,
                ),
                (Ok(item), q) => super::parse_seq::<T>(data, pos, n + 1) == (
                    Ok::<Seq<T::Model>, DecodeFailure>(items.push(item)),
                    q,
                ),
            },
        },
{
}

/// A text is the number of its bytes in UTF-8, and then the bytes.
pub proof fn texts_begin_with_their_length(text: String)
    ensures
        text.encoding() == super::uleb::uleb_encoding(encode_utf8(text@).len()) + encode_utf8(
            text@,
        ),
{
}

/// A text is read as a number and then as many bytes, which are taken for UTF-8 where they are.
pub proof fn texts_are_read_by_their_length(data: Seq<u8>, pos: int)
    ensures
        match super::uleb::parse_uleb(data, pos) {
            (Err(e), p) => String::parse(data, pos) == (Err::<Seq<char>, _>(e), p),
            (Ok(len), p) => {
                let n = (len as usize) as int;
                if n <= data.len() - p {
                    &&& String::parse(data, pos).1 == p + n
                    &&& String::parse(data, pos).0 is Ok
                    &&& valid_utf8(data.subrange(p, p + n)) ==> String::parse(data, pos).0
                        == Ok::<Seq<char>, DecodeFailure>(decode_utf8(data.subrange(p, p + n)))
                    &&& !valid_utf8(data.subrange(p, p + n)) ==> String::parse(data, pos).0
                        == Ok::<Seq<char>, DecodeFailure>(
                        super::container::utf8_replaced(data.subrange(p, p + n)),
                    )
                } else {
                    String::parse(data, pos) == (Err::<Seq<char>, _>(DecodeFailure::Eof), p)
                }
            },
        },
{
}

/// A map is an array of its entries, in ascending order of their keys.
pub proof fn maps_are_sorted_arrays<V: BinaryData>(map: HashMap<i32, V>) -> (es: Seq<(i32, V)>)
    ensures
        map.encoding() == super::uleb::uleb_encoding(es.len()) + super::seq_encoding(es),
        forall|i: int, j: int|
            0 <= i < j < es.len() ==> (#[trigger] es[i]).0 < (#[trigger] es[j]).0,
        forall|i: int|
            0 <= i < es.len() ==> map@.contains_key((#[trigger] es[i]).0) && map@[es[i].0]
                == es[i].1,
        forall|k: i32| #[trigger]
            map@.contains_key(k) ==> exists|i: int|
                0 <= i < es.len() && (#[trigger] es[i]).0 == k,
{
    broadcast use vstd::std_specs::hash::group_hash_axioms;

    super::map::lemma_sorted_keys(map@.dom());
    let keys = super::map::sorted_keys(map@.dom());
    let es = super::map::entries(map@);
    assert forall|i: int, j: int| 0 <= i < j < es.len() implies (#[trigger] es[i]).0 < (
    #[trigger] es[j]).0 by {
        assert(super::map::MapKey::rank(&keys[i]) < super::map::MapKey::rank(&keys[j]));
    }
    assert forall|i: int| 0 <= i < es.len() implies map@.contains_key((#[trigger] es[i]).0) by {
        assert(keys.contains(keys[i]));
        assert(keys.to_set().contains(keys[i]));
    }
    assert forall|k: i32| #[trigger] map@.contains_key(k) implies exists|i: int|
        0 <= i < es.len() && (#[trigger] es[i]).0 == k by {
        assert(keys.to_set().contains(k));
        let i = choose|i: int| 0 <= i < keys.len() && keys[i] == k;
        assert(es[i].0 == k);
    }
    es
}

/// A map is read as an array of entries. Where a key occurs more than once, the last entry counts.
pub proof fn last_entries_count<V: BinaryData>(data: Seq<u8>, pos: int, i: int)
    ensures
        match <Vec<(i32, V)>>::parse(data, pos) {
            (Err(e), p) => <HashMap<i32, V>>::parse(data, pos) == (
                Err::<Map<i32, V::Model>, _>(e),
                p,
            ),
            (Ok(es), p) => {
                &&& <HashMap<i32, V>>::parse(data, pos).1 == p
                &&& (<HashMap<i32, V>>::parse(data, pos).0 matches Ok(map) && {
                    &&& forall|k: i32| #[trigger]
                        map.contains_key(k) <==> exists|j: int|
                            0 <= j < es.len() && (#[trigger] es[j]).0 == k
                    &&& 0 <= i < es.len() && (forall|j: int|
                        i < j < es.len() ==> (#[trigger] es[j]).0 != es[i].0) ==> map[es[i].0]
                        == es[i].1
                })
            },
        },
{
    if let (Ok(es), p) = <Vec<(i32, V)>>::parse(data, pos) {
        super::map::lemma_map_of(es);
        if 0 <= i < es.len() && forall|j: int|
            i < j < es.len() ==> (#[trigger] es[j]).0 != es[i].0 {
            lemma_last_entry(es, i);
        }
    }
}

proof fn lemma_last_entry<V>(es: Seq<(i32, V)>, i: int)
    requires
        0 <= i < es.len(),
        forall|j: int| i < j < es.len() ==> (#[trigger] es[j]).0 != es[i].0,
    ensures
        super::map::map_of(es)[es[i].0] == es[i].1,
    decreases es.len(),
{
    if i < es.len() - 1 {
        let front = es.drop_last();
        assert(es[es.len() - 1].0 != es[i].0);
        assert forall|j: int| i < j < front.len() implies (#[trigger] front[j]).0 != front[i].0 by {
            assert(es[j].0 != es[i].0);
        }
        lemma_last_entry(front, i);
    }
}

/// What is made of a value that was read does not change whether it was read, nor how far.
pub proof fn changed_values_are_read_alike<A, B>(parsed: Parsed<A>, f: spec_fn(A) -> B)
    ensures
        match parsed {
            (Err(e), p) => super::map_parsed(parsed, f) == (Err::<B, _>(e), p),
            (Ok(v), p) => super::map_parsed(parsed, f) == (Ok::<B, DecodeFailure>(f(v)), p),
        },
{
}

/// What a read came to is told as it is: the content of the value, or why there is none.
pub proof fn results_are_told_as_they_are<T: BinaryData>(v: T, e: DecodeError)
    ensures
        super::result_model(ProtoResult::<T>::Ok(v)) == Ok::<T::Model, DecodeFailure>(v.model()),
        super::result_model(ProtoResult::<T>::Err(e)) == Err::<T::Model, DecodeFailure>(e@),
        e@ == match e {
            DecodeError::Eof => DecodeFailure::Eof,
            DecodeError::InvalidTag(tag) => DecodeFailure::InvalidTag(tag),
            DecodeError::StringTooLong { max, len } => DecodeFailure::StringTooLong { max, len },
            DecodeError::InvalidRoomId(id) => DecodeFailure::InvalidRoomId(id@),
            DecodeError::UlebOverflow => DecodeFailure::UlebOverflow,
            DecodeError::ArrayTooLarge { len, remaining } => DecodeFailure::ArrayTooLarge {
                len,
                remaining,
            },
        },
{
}

/// The next bytes are those that follow; where there are too few, none is taken.
pub proof fn bytes_are_taken_as_they_are(data: Seq<u8>, pos: int, n: int)
    requires
        0 <= pos <= data.len(),
        0 <= n,
    ensures
        match super::parse_bytes(data, pos, n) {
            (Ok(bytes), end) => {
                &&& pos + n <= data.len()
                &&& end == pos + n
                &&& bytes.len() == n
                &&& forall|i: int| 0 <= i < n ==> (#[trigger] bytes[i]) == data[pos + i]
            },
            (Err(e), end) => pos + n > data.len() && e is Eof && end == pos,
        },
        match super::parse_byte(data, pos) {
            (Ok(byte), end) => pos < data.len() && byte == data[pos] && end == pos + 1,
            (Err(e), end) => pos == data.len() && e is Eof && end == pos,
        },
{
}

/// Items in a slice are written and read as those of an array.
pub proof fn slices_are_arrays<T: BinaryData>(items: Seq<T>, data: Seq<u8>, pos: int)
    ensures
        super::array_encoding(items) == super::uleb::uleb_encoding(items.len())
            + super::seq_encoding(items),
        super::parse_array::<T>(data, pos) == <Vec<T>>::parse(data, pos),
{
}

/// Data ran out if it ended within a value, or was too short for the items of an array.
pub proof fn data_runs_out_in_two_ways<A>(res: Result<A, DecodeFailure>)
    ensures
        super::ran_out(res) <==> (res == Err::<A, _>(DecodeFailure::Eof) || (res matches Err(
            DecodeFailure::ArrayTooLarge { .. },
        ))),
{
}

} // verus!
