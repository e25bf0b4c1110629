//! The binary wire format: little-endian integers, ULEB128 lengths, and the containers built
//! from them.
//!
//! Every type that goes over the wire implements [`BinaryData`]. The trait pairs the executable
//! reader and writer with their mathematical meaning: `encoding` is the byte string a value is
//! written as, `parse` is what a reader makes of an arbitrary byte string, and `parse_inverts`
//! is the law that ties the two together.

use vstd::prelude::*;
use vstd::slice::slice_subrange;
use vstd::string::*;

use crate::model::HasModel;
use crate::text;

pub mod container;
pub mod format;
pub mod map;
pub mod scalar;
pub mod uleb;

verus! {

/// Why a packet could not be decoded.
#[allow(inconsistent_fields)]
#[derive(Debug, PartialEq, Eq)]
pub enum DecodeError {
    /// The data ended before the value did.
    Eof,
    /// No variant of the enum has this tag.
    InvalidTag(u8),
    /// A bounded string is longer than its bound: its length field exceeds it, or the text does
    /// after bytes in it that are not UTF-8 were replaced.
    StringTooLong {
        /// The number of bytes the type allows.
        max: usize,
        /// The value of the length field, or the number of bytes of the text after bytes in it
        /// were replaced.
        len: usize,
    },
    /// The string is not a room id.
    InvalidRoomId(String),
    /// A ULEB128 number goes on past 64 bits.
    UlebOverflow,
    /// The length field of a container exceeds the number of bytes that are left.
    ArrayTooLarge {
        /// The value of the length field.
        len: u64,
        /// The number of bytes after the length field.
        remaining: u64,
    },
}

/// The mathematical content of a [`DecodeError`].
#[allow(inconsistent_fields)]
#[verifier::ext_equal]
pub enum DecodeFailure {
    Eof,
    InvalidTag(u8),
    StringTooLong { max: usize, len: usize },
    InvalidRoomId(Seq<char>),
    UlebOverflow,
    ArrayTooLarge { len: u64, remaining: u64 },
}

impl View for DecodeError {
    type V = DecodeFailure;

    open spec fn view(&self) -> DecodeFailure {
        match self {
            DecodeError::Eof => DecodeFailure::Eof,
            DecodeError::InvalidTag(tag) => DecodeFailure::InvalidTag(*tag),
            DecodeError::StringTooLong { max, len } => DecodeFailure::StringTooLong {
                max: *max,
                len: *len,
            },
            DecodeError::InvalidRoomId(id) => DecodeFailure::InvalidRoomId(id@),
            DecodeError::UlebOverflow => DecodeFailure::UlebOverflow,
            DecodeError::ArrayTooLarge { len, remaining } => DecodeFailure::ArrayTooLarge {
                len: *len,
                remaining: *remaining,
            },
        }
    }
}

impl DecodeFailure {
    /// The error in words.
    pub open spec fn words(self) -> Seq<char> {
        match self {
            DecodeFailure::Eof => "unexpected EOF"@,
            DecodeFailure::InvalidTag(tag) => "invalid enum tag: "@ + text::decimal(tag as nat),
            DecodeFailure::StringTooLong { max, len } => "string too long: "@ + text::decimal(
                len as nat,
            ) + " > "@ + text::decimal(max as nat),
            DecodeFailure::InvalidRoomId(id) => "invalid room id: "@ + id,
            DecodeFailure::UlebOverflow => "ULEB128 overflow"@,
            DecodeFailure::ArrayTooLarge { len, remaining } => "array length "@ + text::decimal(
                len as nat,
            ) + " exceeds remaining "@ + text::decimal(remaining as nat) + " bytes"@,
        }
    }
}

impl Clone for DecodeError {
    fn clone(&self) -> (res: Self)
        ensures
            res == *self,
    {
        match self {
            DecodeError::Eof => DecodeError::Eof,
            DecodeError::InvalidTag(tag) => DecodeError::InvalidTag(*tag),
            DecodeError::StringTooLong { max, len } => DecodeError::StringTooLong {
                max: *max,
                len: *len,
            },
            DecodeError::InvalidRoomId(id) => DecodeError::InvalidRoomId(id.clone()),
            DecodeError::UlebOverflow => DecodeError::UlebOverflow,
            DecodeError::ArrayTooLarge { len, remaining } => DecodeError::ArrayTooLarge {
                len: *len,
                remaining: *remaining,
            },
        }
    }
}

impl DecodeError {
    /// The error in words.
    pub fn message(&self) -> (res: String)
        ensures
            res@ == self@.words(),
    {
        match self {
            DecodeError::Eof => "unexpected EOF".to_owned(),
            DecodeError::InvalidTag(tag) => {
                let mut res: String = "invalid enum tag: ".to_owned();
                text::push_decimal(&mut res, *tag as u64);
                res
            },
            DecodeError::StringTooLong { max, len } => {
                let mut res: String = "string too long: ".to_owned();
                text::push_decimal(&mut res, *len as u64);
                res.append(" > ");
                text::push_decimal(&mut res, *max as u64);
                res
            },
            DecodeError::InvalidRoomId(id) => text::join("invalid room id: ", id.as_str()),
            DecodeError::UlebOverflow => "ULEB128 overflow".to_owned(),
            DecodeError::ArrayTooLarge { len, remaining } => {
                let mut res: String = "array length ".to_owned();
                text::push_decimal(&mut res, *len);
                res.append(" exceeds remaining ");
                text::push_decimal(&mut res, *remaining);
                res.append(" bytes");
                res
            },
        }
    }
}

/// The result of reading or writing on the wire.
pub type ProtoResult<T> = Result<T, DecodeError>;

/// What a parser makes of a byte string: a value or a failure, and the position it stopped at.
pub type Parsed<M> = (Result<M, DecodeFailure>, int);

/// A read-only cursor over a byte slice.
pub struct BinaryReader<'a>(&'a [u8], usize);

/// An appending cursor over a byte vector.
pub struct BinaryWriter<'a>(pub &'a mut Vec<u8>);

/// A type that goes over the wire.
pub trait BinaryData: HasModel {
    /// The bytes this value is written as.
    spec fn encoding(&self) -> Seq<u8>;

    /// What a reader at position `pos` of `data` makes of the bytes from there on.
    spec fn parse(data: Seq<u8>, pos: int) -> Parsed<Self::Model>;

    /// Whether every encoding of the type takes at least one byte.
    spec fn takes_space() -> bool;

    /// Whether reading the encoding of this value gives the value back.
    ///
    /// It excludes arrays of elements that take no space, whose length field always exceeds the
    /// bytes that follow it, and strings that are longer than their type allows.
    spec fn readable(&self) -> bool;

    /// A parser only moves forward, and never past the end of the data.
    proof fn parse_advances(data: Seq<u8>, pos: int)
        requires
            0 <= pos <= data.len(),
        ensures
            pos <= Self::parse(data, pos).1 <= data.len(),
    ;

    /// A parser that succeeds has not looked at what follows the value, and one that fails had
    /// seen enough to fail, unless the data ended too early: more data changes nothing.
    proof fn parse_extends(data: Seq<u8>, more: Seq<u8>, pos: int)
        requires
            0 <= pos <= data.len(),
        ensures
            ran_out(Self::parse(data, pos).0) || Self::parse(data + more, pos) == Self::parse(
                data,
                pos,
            ),
    ;

    /// An encoding takes space if the type says so.
    proof fn encoding_takes_space(&self)
        ensures
            Self::takes_space() ==> self.encoding().len() > 0,
    ;

    /// Reading back what was written gives the value that was written, and leaves the reader
    /// right behind it, whatever stands before or after it in the data.
    proof fn parse_inverts(&self, data: Seq<u8>, pos: int)
        requires
            self.readable(),
            0 <= pos,
            pos + self.encoding().len() <= data.len(),
            data.subrange(pos, pos + self.encoding().len()) == self.encoding(),
        ensures
            Self::parse(data, pos) == (
                Ok::<Self::Model, DecodeFailure>(self.model()),
                pos + self.encoding().len(),
            ),
    ;

    /// Reads one value.
    fn read_binary(r: &mut BinaryReader<'_>) -> (res: ProtoResult<Self>)
        ensures
            final(r).data() == old(r).data(),
            (result_model(res), final(r).pos()) == Self::parse(old(r).data(), old(r).pos()),
    ;

    /// Writes this value. Writing to memory does not fail.
    fn write_binary(&self, w: &mut BinaryWriter<'_>) -> (res: ProtoResult<()>)
        ensures
            res is Ok,
            final(w).0@ == old(w).0@ + self.encoding(),
            *final(final(w).0) == *final(old(w).0),
    ;
}

/// Whether reading failed because the data ended too early: a value, or the items of an array,
/// did not fit into what was left.
pub open spec fn ran_out<A>(res: Result<A, DecodeFailure>) -> bool {
    res matches Err(e) && (e is Eof || e is ArrayTooLarge)
}

/// The mathematical content of a read's result.
pub open spec fn result_model<T: HasModel>(res: ProtoResult<T>) -> Result<
    T::Model,
    DecodeFailure,
> {
    match res {
        Ok(v) => Ok(v.model()),
        Err(e) => Err(e@),
    }
}

/// Changes the value of a successful parse.
pub open spec fn map_parsed<A, B>(parsed: Parsed<A>, f: spec_fn(A) -> B) -> Parsed<B> {
    match parsed {
        (Err(e), p) => (Err(e), p),
        (Ok(v), p) => (Ok(f(v)), p),
    }
}

/// One byte.
pub open spec fn parse_byte(data: Seq<u8>, pos: int) -> Parsed<u8> {
    if pos < data.len() {
        (Ok(data[pos]), pos + 1)
    } else {
        (Err(DecodeFailure::Eof), pos)
    }
}

/// The next `n` bytes.
pub open spec fn parse_bytes(data: Seq<u8>, pos: int, n: int) -> Parsed<Seq<u8>> {
    if pos + n <= data.len() {
        (Ok(data.subrange(pos, pos + n)), pos + n)
    } else {
        (Err(DecodeFailure::Eof), pos)
    }
}

/// The length field of a container.
pub open spec fn parse_length(data: Seq<u8>, pos: int) -> Parsed<u64> {
    match uleb::parse_uleb(data, pos) {
        (Err(e), p) => (Err(e), p),
        (Ok(len), p) => if len > data.len() - p {
            (
                Err(
                    DecodeFailure::ArrayTooLarge { len, remaining: (data.len() - p) as u64 },
                ),
                p,
            )
        } else {
            (Ok(len), p)
        },
    }
}

/// `n` values, one after the other. The first failure is the failure of the whole.
pub open spec fn parse_seq<T: BinaryData>(data: Seq<u8>, pos: int, n: nat) -> Parsed<Seq<T::Model>>
    decreases n,
{
    if n == 0 {
        (Ok(Seq::empty()), pos)
    } else {
        match parse_seq::<T>(data, pos, (n - 1) as nat) {
            (Err(e), p) => (Err(e), p),
            (Ok(items), p) => match T::parse(data, p) {
                (Err(e), q) => (Err(e), q),
                (Ok(item), q) => (Ok(items.push(item)), q),
            },
        }
    }
}

/// A length field, and then that many values.
pub open spec fn parse_array<T: BinaryData>(data: Seq<u8>, pos: int) -> Parsed<Seq<T::Model>> {
    match parse_length(data, pos) {
        (Err(e), p) => (Err(e), p),
        (Ok(len), p) => parse_seq::<T>(data, p, len as nat),
    }
}

/// The encodings of the items, one after the other.
pub open spec fn seq_encoding<T: BinaryData>(items: Seq<T>) -> Seq<u8>
    decreases items.len(),
{
    if items.len() == 0 {
        Seq::empty()
    } else {
        seq_encoding(items.drop_last()) + items.last().encoding()
    }
}

/// The number of items, and then their encodings.
pub open spec fn array_encoding<T: BinaryData>(items: Seq<T>) -> Seq<u8> {
    uleb::uleb_encoding(items.len()) + seq_encoding(items)
}

/// Whether an array of these items can be read back.
pub open spec fn array_readable<T: BinaryData>(items: Seq<T>) -> bool {
    &&& items.len() <= u64::MAX
    &&& T::takes_space() || items.len() == 0
    &&& forall|i: int| 0 <= i < items.len() ==> (#[trigger] items[i]).readable()
}

proof fn lemma_length_advances(data: Seq<u8>, pos: int)
    requires
        0 <= pos <= data.len(),
    ensures
        pos <= parse_length(data, pos).1 <= data.len(),
{
    uleb::lemma_uleb_advances(data, pos);
}

proof fn lemma_seq_advances<T: BinaryData>(data: Seq<u8>, pos: int, n: nat)
    requires
        0 <= pos <= data.len(),
    ensures
        pos <= parse_seq::<T>(data, pos, n).1 <= data.len(),
    decreases n,
{
    if n > 0 {
        lemma_seq_advances::<T>(data, pos, (n - 1) as nat);
        T::parse_advances(data, parse_seq::<T>(data, pos, (n - 1) as nat).1);
    }
}

proof fn lemma_array_advances<T: BinaryData>(data: Seq<u8>, pos: int)
    requires
        0 <= pos <= data.len(),
    ensures
        pos <= parse_array::<T>(data, pos).1 <= data.len(),
{
    lemma_length_advances(data, pos);
    if let (Ok(len), p) = parse_length(data, pos) {
        lemma_seq_advances::<T>(data, p, len as nat);
    }
}

/// Taking bytes is not changed by more data.
pub(crate) proof fn lemma_bytes_extend(data: Seq<u8>, more: Seq<u8>, pos: int, n: int)
    requires
        0 <= pos,
        0 <= n,
    ensures
        ran_out(parse_bytes(data, pos, n).0) || parse_bytes(data + more, pos, n) == parse_bytes(
            data,
            pos,
            n,
        ),
{
    assert(pos + n <= data.len() ==> (data + more).subrange(pos, pos + n) =~= data.subrange(pos, pos + n));
}

proof fn lemma_seq_extends<T: BinaryData>(data: Seq<u8>, more: Seq<u8>, pos: int, n: nat)
    requires
        0 <= pos <= data.len(),
    ensures
        ran_out(parse_seq::<T>(data, pos, n).0) || parse_seq::<T>(data + more, pos, n)
            == parse_seq::<T>(data, pos, n),
    decreases n,
{
    if n > 0 {
        lemma_seq_advances::<T>(data, pos, (n - 1) as nat);
        lemma_seq_extends::<T>(data, more, pos, (n - 1) as nat);
        T::parse_extends(data, more, parse_seq::<T>(data, pos, (n - 1) as nat).1);
    }
}

proof fn lemma_array_extends<T: BinaryData>(data: Seq<u8>, more: Seq<u8>, pos: int)
    requires
        0 <= pos <= data.len(),
    ensures
        ran_out(parse_array::<T>(data, pos).0) || parse_array::<T>(data + more, pos)
            == parse_array::<T>(data, pos),
{
    lemma_length_advances(data, pos);
    uleb::lemma_uleb_extends(data, more, pos);
    if let (Ok(len), p) = parse_length(data, pos) {
        lemma_seq_extends::<T>(data, more, p, len as nat);
    }
}

/// Once an item fails, reading more items fails in the same way.
proof fn lemma_seq_fails<T: BinaryData>(data: Seq<u8>, pos: int, n: nat, more: nat)
    requires
        n <= more,
        parse_seq::<T>(data, pos, n).0 is Err,
    ensures
        parse_seq::<T>(data, pos, more) == parse_seq::<T>(data, pos, n),
    decreases more,
{
    if n < more {
        lemma_seq_fails::<T>(data, pos, n, (more - 1) as nat);
    }
}

proof fn lemma_seq_takes_space<T: BinaryData>(items: Seq<T>)
    requires
        T::takes_space(),
    ensures
        seq_encoding(items).len() >= items.len(),
    decreases items.len(),
{
    if items.len() > 0 {
        lemma_seq_takes_space(items.drop_last());
        items.last().encoding_takes_space();
    }
}

proof fn lemma_seq_inverts<T: BinaryData>(items: Seq<T>, data: Seq<u8>, pos: int)
    requires
        forall|i: int| 0 <= i < items.len() ==> (#[trigger] items[i]).readable(),
        0 <= pos,
        pos + seq_encoding(items).len() <= data.len(),
        data.subrange(pos, pos + seq_encoding(items).len()) == seq_encoding(items),
    ensures
        parse_seq::<T>(data, pos, items.len()) == (
            Ok::<Seq<T::Model>, DecodeFailure>(crate::model::models(items)),
            pos + seq_encoding(items).len(),
        ),
    decreases items.len(),
{
    if items.len() == 0 {
        assert(crate::model::models(items) =~= Seq::<T::Model>::empty());
    } else {
        let head = seq_encoding(items.drop_last());
        let tail = items.last().encoding();
        lemma_split(data, pos, head, tail);
        assert forall|i: int| 0 <= i < items.drop_last().len() implies (
        #[trigger] items.drop_last()[i]).readable() by {
            assert(items.drop_last()[i] == items[i]);
        }
        lemma_seq_inverts(items.drop_last(), data, pos);
        items.last().parse_inverts(data, pos + head.len());
        assert(crate::model::models(items) =~= crate::model::models(items.drop_last()).push(items.last().model()));
    }
}

/// An array whose items take space, or that is empty, is read back as it was written.
proof fn lemma_array_inverts<T: BinaryData>(items: Seq<T>, data: Seq<u8>, pos: int)
    requires
        array_readable(items),
        0 <= pos,
        pos + array_encoding(items).len() <= data.len(),
        data.subrange(pos, pos + array_encoding(items).len()) == array_encoding(items),
    ensures
        parse_array::<T>(data, pos) == (
            Ok::<Seq<T::Model>, DecodeFailure>(crate::model::models(items)),
            pos + array_encoding(items).len(),
        ),
{
    let head = uleb::uleb_encoding(items.len());
    lemma_split(data, pos, head, seq_encoding(items));
    uleb::lemma_uleb_inverts(items.len() as u64, data, pos);
    if T::takes_space() {
        lemma_seq_takes_space(items);
    }
    lemma_seq_inverts(items, data, pos + head.len());
}

/// Two byte strings that stand in the data as one stand there one after the other.
pub(crate) proof fn lemma_split(data: Seq<u8>, pos: int, head: Seq<u8>, tail: Seq<u8>)
    requires
        0 <= pos,
        pos + (head + tail).len() <= data.len(),
        data.subrange(pos, pos + (head + tail).len()) == head + tail,
    ensures
        data.subrange(pos, pos + head.len()) == head,
        data.subrange(pos + head.len(), pos + head.len() + tail.len()) == tail,
{
    let both = data.subrange(pos, pos + (head + tail).len());
    assert(data.subrange(pos, pos + head.len()) =~= both.subrange(0, head.len() as int));
    assert(both.subrange(0, head.len() as int) =~= head);
    assert(data.subrange(pos + head.len(), pos + head.len() + tail.len()) =~= both.subrange(
        head.len() as int,
        both.len() as int,
    ));
    assert(both.subrange(head.len() as int, both.len() as int) =~= tail);
}

/// The mathematical content of the result of taking bytes.
pub open spec fn bytes_model(res: ProtoResult<&[u8]>) -> Result<Seq<u8>, DecodeFailure> {
    match res {
        Ok(bytes) => Ok(bytes@),
        Err(e) => Err(e@),
    }
}

impl<'a> BinaryReader<'a> {
    /// The bytes under the cursor.
    pub closed spec fn data(&self) -> Seq<u8> {
        self.0@
    }

    /// The position of the next byte to read.
    pub closed spec fn pos(&self) -> int {
        self.1 as int
    }

    #[verifier::type_invariant]
    spec fn in_range(&self) -> bool {
        self.1 <= self.0@.len()
    }

    /// Creates a cursor at the start of `data`.
    pub fn new(data: &'a [u8]) -> (r: Self)
        ensures
            r.data() == data@,
            r.pos() == 0,
    {
        Self(data, 0)
    }

    /// Reads one byte.
    pub fn byte(&mut self) -> (res: ProtoResult<u8>)
        ensures
            final(self).data() == old(self).data(),
            (result_model(res), final(self).pos()) == parse_byte(
                old(self).data(),
                old(self).pos(),
            ),
    {
        proof {
            use_type_invariant(&*self);
        }
        if self.1 < self.0.len() {
            let b: u8 = self.0[self.1];
            self.1 = self.1 + 1;
            Ok(b)
        } else {
            Err(DecodeError::Eof)
        }
    }

    /// Takes the next `n` bytes.
    pub fn take(&mut self, n: usize) -> (res: ProtoResult<&'a [u8]>)
        ensures
            final(self).data() == old(self).data(),
            (bytes_model(res), final(self).pos()) == parse_bytes(
                old(self).data(),
                old(self).pos(),
                n as int,
            ),
            res matches Ok(bytes) ==> bytes@.len() == n,
    {
        proof {
            use_type_invariant(&*self);
        }
        if n <= self.0.len() - self.1 {
            let bytes = slice_subrange(self.0, self.1, self.1 + n);
            self.1 = self.1 + n;
            Ok(bytes)
        } else {
            Err(DecodeError::Eof)
        }
    }

    /// Reads one value.
    pub fn read<T: BinaryData>(&mut self) -> (res: ProtoResult<T>)
        ensures
            final(self).data() == old(self).data(),
            (result_model(res), final(self).pos()) == T::parse(old(self).data(), old(self).pos()),
    {
        T::read_binary(self)
    }

    /// Reads a length field, and then that many values.
    pub fn array<T: BinaryData>(&mut self) -> (res: ProtoResult<Vec<T>>)
        ensures
            final(self).data() == old(self).data(),
            (result_model(res), final(self).pos()) == parse_array::<T>(
                old(self).data(),
                old(self).pos(),
            ),
    {
        let ghost data = self.data();
        let len: u64 = match self.length() {
            Ok(len) => len,
            Err(e) => {
                return Err(e);
            },
        };
        let ghost start = self.pos();
        let mut items: Vec<T> = Vec::new();
        let mut count: u64 = 0;
        assert(crate::model::models(items@) =~= Seq::<T::Model>::empty());
        while count < len
            invariant
                count <= len,
                self.data() == data,
                parse_seq::<T>(data, start, count as nat) == (
                    Ok::<Seq<T::Model>, DecodeFailure>(crate::model::models(items@)),
                    self.pos(),
                ),
                data == old(self).data(),
                parse_length(data, old(self).pos()) == (Ok::<u64, DecodeFailure>(len), start),
            decreases len - count,
        {
            let ghost before = items@;
            match self.read::<T>() {
                Ok(item) => {
                    items.push(item);
                },
                Err(e) => {
                    proof {
                        lemma_seq_fails::<T>(data, start, (count + 1) as nat, len as nat);
                    }
                    return Err(e);
                },
            }
            assert(crate::model::models(items@) =~= crate::model::models(before).push(items@.last().model()));
            count = count + 1;
        }
        Ok(items)
    }

    /// Reads the length field of a container. A container has no more items than there are bytes
    /// left, so a larger length is refused before anything is allocated.
    fn length(&mut self) -> (res: ProtoResult<u64>)
        ensures
            final(self).data() == old(self).data(),
            (result_model(res), final(self).pos()) == parse_length(
                old(self).data(),
                old(self).pos(),
            ),
    {
        let len: u64 = match self.uleb() {
            Ok(len) => len,
            Err(e) => {
                return Err(e);
            },
        };
        proof {
            use_type_invariant(&*self);
        }
        let remaining: u64 = (self.0.len() - self.1) as u64;
        if len > remaining {
            return Err(DecodeError::ArrayTooLarge { len, remaining });
        }
        Ok(len)
    }
}

impl<'a> BinaryWriter<'a> {
    /// Creates a cursor at the end of `vec`.
    pub fn new(vec: &'a mut Vec<u8>) -> (w: Self)
        ensures
            w.0@ == old(vec)@,
            *final(w.0) == *final(vec),
    {
        Self(vec)
    }

    /// Writes a length field, and then the values.
    pub fn array<T: BinaryData>(&mut self, v: &[T]) -> (res: ProtoResult<()>)
        ensures
            res is Ok,
            final(self).0@ == old(self).0@ + array_encoding(v@),
            *final(final(self).0) == *final(old(self).0),
    {
        let _ = self.uleb(v.len() as u64);
        let ghost head = self.0@;
        let mut i: usize = 0;
        assert(self.0@ =~= head + seq_encoding(v@.take(0)));
        while i < v.len()
            invariant
                i <= v.len(),
                self.0@ == head + seq_encoding(v@.take(i as int)),
                *final(self.0) == *final(old(self).0),
                head == old(self).0@ + uleb::uleb_encoding(v@.len()),
            decreases v.len() - i,
        {
            let ghost before = self.0@;
            let _ = v[i].write_binary(self);
            proof {
                assert(v@.take(i + 1).drop_last() =~= v@.take(i as int));
                assert(self.0@ =~= head + seq_encoding(v@.take(i + 1)));
            }
            i = i + 1;
        }
        assert(v@.take(v@.len() as int) =~= v@);
        assert(self.0@ =~= old(self).0@ + array_encoding(v@));
        Ok(())
    }

    /// Writes a value by reference.
    pub fn write<T: BinaryData>(&mut self, v: &T) -> (res: ProtoResult<()>)
        ensures
            res is Ok,
            final(self).0@ == old(self).0@ + v.encoding(),
            *final(final(self).0) == *final(old(self).0),
    {
        v.write_binary(self)
    }

    /// Writes a value.
    pub fn write_val<T: BinaryData>(&mut self, v: T) -> (res: ProtoResult<()>)
        ensures
            res is Ok,
            final(self).0@ == old(self).0@ + v.encoding(),
            *final(final(self).0) == *final(old(self).0),
    {
        v.write_binary(self)
    }

    /// Writes bytes as they are.
    pub fn write_raw(&mut self, bytes: &[u8]) -> (res: ProtoResult<()>)
        ensures
            res is Ok,
            final(self).0@ == old(self).0@ + bytes@,
            *final(final(self).0) == *final(old(self).0),
    {
        let ghost before = self.0@;
        self.0.extend_from_slice(bytes);
        assert(self.0@ =~= before + bytes@);
        Ok(())
    }
}

/// Encodes a packet: appends the encoding of `payload` to `vec`.
pub fn encode_packet<T: BinaryData>(payload: &T, vec: &mut Vec<u8>)
    ensures
        final(vec)@ == old(vec)@ + payload.encoding(),
{
    let mut w = BinaryWriter::new(vec);
    let _ = w.write(payload);
}

/// Decodes a packet. Bytes after the value are ignored.
pub fn decode_packet<T: BinaryData>(data: &[u8]) -> (res: ProtoResult<T>)
    ensures
        result_model(res) == T::parse(data@, 0).0,
{
    let mut r = BinaryReader::new(data);
    r.read::<T>()
}

/// What was encoded decodes to what was encoded, whatever is appended to the packet.
pub proof fn decode_inverts_encode<T: BinaryData>(payload: T, trailing: Seq<u8>)
    requires
        payload.readable(),
    ensures
        T::parse(payload.encoding() + trailing, 0).0 == Ok::<T::Model, DecodeFailure>(
            payload.model(),
        ),
{
    let data = payload.encoding() + trailing;
    assert(data.subrange(0, payload.encoding().len() as int) =~= payload.encoding());
    payload.parse_inverts(data, 0);
}

/// No packet is the beginning of another: what a packet is known by is complete in itself.
pub proof fn no_packet_begins_another<T: BinaryData>(a: T, b: T, rest: Seq<u8>)
    requires
        a.readable(),
        b.readable(),
        b.encoding() == a.encoding() + rest,
    ensures
        rest.len() == 0,
        a.model() == b.model(),
{
    let data = b.encoding();
    assert(data.subrange(0, a.encoding().len() as int) =~= a.encoding());
    assert(data.subrange(0, data.len() as int) =~= data);
    a.parse_inverts(data, 0);
    b.parse_inverts(data, 0);
}

/// Packets of different contents are different.
pub proof fn encoding_determines_value<T: BinaryData>(a: T, b: T)
    requires
        a.readable(),
        b.readable(),
        a.encoding() == b.encoding(),
    ensures
        a.model() == b.model(),
{
    assert(a.encoding() + Seq::<u8>::empty() =~= b.encoding());
    no_packet_begins_another(a, b, Seq::empty());
}

/// A packet that was cut off is refused for want of data, wherever it was cut.
pub proof fn cut_off_packets_are_refused<T: BinaryData>(payload: T, len: int)
    requires
        payload.readable(),
        0 <= len < payload.encoding().len(),
    ensures
        T::parse(payload.encoding().take(len), 0).0 matches Err(e) && (e is Eof
            || e is ArrayTooLarge),
{
    let whole = payload.encoding();
    let part = whole.take(len);
    T::parse_advances(part, 0);
    T::parse_extends(part, whole.skip(len), 0);
    assert(part + whole.skip(len) =~= whole);
    assert(whole.subrange(0, whole.len() as int) =~= whole);
    payload.parse_inverts(whole, 0);
}

/// A packet that was refused for another reason than want of data stays refused, for the same
/// reason, whatever follows it in a stream.
pub proof fn refusals_are_final<T: BinaryData>(data: Seq<u8>, more: Seq<u8>)
    requires
        T::parse(data, 0).0 is Err,
        !ran_out(T::parse(data, 0).0),
    ensures
        T::parse(data + more, 0) == T::parse(data, 0),
{
    T::parse_extends(data, more, 0);
}

/// What a packet decodes to does not depend on what follows it in a stream.
pub proof fn later_data_changes_nothing<T: BinaryData>(data: Seq<u8>, more: Seq<u8>)
    requires
        T::parse(data, 0).0 is Ok,
    ensures
        T::parse(data + more, 0) == T::parse(data, 0),
{
    T::parse_extends(data, more, 0);
}

/// A decoder stops where the value ends: what it makes of a packet and how far it reads do not
/// change when the packet is one of several in a stream.
pub proof fn decode_stops_at_end<T: BinaryData>(before: Seq<u8>, payload: T, after: Seq<u8>)
    requires
        payload.readable(),
    ensures
        T::parse(before + payload.encoding() + after, before.len() as int) == (
            Ok::<T::Model, DecodeFailure>(payload.model()),
            (before.len() + payload.encoding().len()) as int,
        ),
{
    let data = before + payload.encoding() + after;
    let pos = before.len() as int;
    assert(data.subrange(pos, pos + payload.encoding().len()) =~= payload.encoding());
    payload.parse_inverts(data, pos);
}

} // verus!
