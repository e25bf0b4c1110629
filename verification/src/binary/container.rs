//! The containers of the wire format: strings, pairs, options, results and arrays.

use std::sync::Arc;

use vstd::prelude::*;
use vstd::utf8::*;

use crate::model::HasModel;

use super::{BinaryData, BinaryReader, BinaryWriter, DecodeFailure, Parsed, ProtoResult};

verus! {

/// What `String::from_utf8_lossy` makes of bytes that are not UTF-8.
pub uninterp spec fn utf8_replaced(bytes: Seq<u8>) -> Seq<char>;

/// The text that a reader takes `bytes` for.
pub open spec fn text_of(bytes: Seq<u8>) -> Seq<char> {
    if valid_utf8(bytes) {
        decode_utf8(bytes)
    } else {
        utf8_replaced(bytes)
    }
}

/// `String::from_utf8_lossy`: UTF-8 is decoded as it is. In bytes that are not UTF-8 the invalid
/// sequences are replaced by U+FFFD, so that at least one such character is in the result; which
/// bytes one replacement character stands for is left to the standard library, and has a name
/// here. The function returns for every byte string.
#[verifier::external_body]
pub(crate) fn decode_lossy(bytes: &[u8]) -> (text: String)
    ensures
        text@ == (if valid_utf8(bytes@) {
            decode_utf8(bytes@)
        } else {
            utf8_replaced(bytes@)
        }),
        !valid_utf8(bytes@) ==> text@.contains('\u{FFFD}'),
{
    String::from_utf8_lossy(bytes).into_owned()
}

/// The length of a string in bytes, and then its bytes.
pub open spec fn text_encoding(text: Seq<char>) -> Seq<u8> {
    super::uleb::uleb_encoding(encode_utf8(text).len()) + encode_utf8(text)
}

/// A length field, and then that many bytes of text.
pub open spec fn parse_text(data: Seq<u8>, pos: int) -> Parsed<Seq<char>> {
    match super::uleb::parse_uleb(data, pos) {
        (Err(e), p) => (Err(e), p),
        (Ok(len), p) => super::map_parsed(
            super::parse_bytes(data, p, (len as usize) as int),
            |bytes: Seq<u8>| text_of(bytes),
        ),
    }
}

/// A text is read back as it was written.
pub proof fn lemma_text_inverts(text: Seq<char>, data: Seq<u8>, pos: int)
    requires
        encode_utf8(text).len() <= usize::MAX,
        0 <= pos,
        pos + text_encoding(text).len() <= data.len(),
        data.subrange(pos, pos + text_encoding(text).len()) == text_encoding(text),
    ensures
        super::uleb::parse_uleb(data, pos) == (
            Ok::<u64, DecodeFailure>(encode_utf8(text).len() as u64),
            pos + super::uleb::uleb_encoding(encode_utf8(text).len()).len(),
        ),
        parse_text(data, pos) == (
            Ok::<Seq<char>, DecodeFailure>(text),
            pos + text_encoding(text).len(),
        ),
{
    let bytes = encode_utf8(text);
    let head = super::uleb::uleb_encoding(bytes.len());
    super::lemma_split(data, pos, head, bytes);
    super::uleb::lemma_uleb_inverts(bytes.len() as u64, data, pos);
    encode_utf8_valid_utf8(text);
    encode_utf8_decode_utf8(text);
}

impl BinaryData for String {
    open spec fn encoding(&self) -> Seq<u8> {
        text_encoding(self@)
    }

    open spec fn parse(data: Seq<u8>, pos: int) -> Parsed<Seq<char>> {
        parse_text(data, pos)
    }

    open spec fn takes_space() -> bool {
        true
    }

    open spec fn readable(&self) -> bool {
        encode_utf8(self@).len() <= usize::MAX
    }

    proof fn parse_advances(data: Seq<u8>, pos: int) {
        super::uleb::lemma_uleb_advances(data, pos);
    }

    proof fn parse_extends(data: Seq<u8>, more: Seq<u8>, pos: int) {
        super::uleb::lemma_uleb_advances(data, pos);
        super::uleb::lemma_uleb_extends(data, more, pos);
        if let (Ok(len), p) = super::uleb::parse_uleb(data, pos) {
            super::lemma_bytes_extend(data, more, p, (len as usize) as int);
        }
    }

    proof fn encoding_takes_space(&self) {
        super::uleb::lemma_uleb_takes_space(encode_utf8(self@).len());
    }

    proof fn parse_inverts(&self, data: Seq<u8>, pos: int) {
        lemma_text_inverts(self@, data, pos);
    }

    fn read_binary(r: &mut BinaryReader<'_>) -> (res: ProtoResult<Self>) {
        let len: u64 = match r.uleb() {
            Ok(len) => len,
            Err(e) => {
                return Err(e);
            },
        };
        match r.take(len as usize) {
            Ok(bytes) => Ok(decode_lossy(bytes)),
            Err(e) => Err(e),
        }
    }

    fn write_binary(&self, w: &mut BinaryWriter<'_>) -> (res: ProtoResult<()>) {
        let bytes = self.as_str().as_bytes();
        let ghost start = w.0@;
        let _ = w.uleb(bytes.len() as u64);
        let _ = w.write_raw(bytes);
        assert(w.0@ =~= start + self.encoding());
        Ok(())
    }
}

impl<A: BinaryData, B: BinaryData> BinaryData for (A, B) {
    open spec fn encoding(&self) -> Seq<u8> {
        self.0.encoding() + self.1.encoding()
    }

    open spec fn parse(data: Seq<u8>, pos: int) -> Parsed<(A::Model, B::Model)> {
        match A::parse(data, pos) {
            (Err(e), p) => (Err(e), p),
            (Ok(a), p) => super::map_parsed(B::parse(data, p), |b: B::Model| (a, b)),
        }
    }

    open spec fn takes_space() -> bool {
        A::takes_space() || B::takes_space()
    }

    open spec fn readable(&self) -> bool {
        self.0.readable() && self.1.readable()
    }

    proof fn parse_advances(data: Seq<u8>, pos: int) {
        A::parse_advances(data, pos);
        B::parse_advances(data, A::parse(data, pos).1);
    }

    proof fn parse_extends(data: Seq<u8>, more: Seq<u8>, pos: int) {
        A::parse_advances(data, pos);
        A::parse_extends(data, more, pos);
        B::parse_advances(data, A::parse(data, pos).1);
        B::parse_extends(data, more, A::parse(data, pos).1);
    }

    proof fn encoding_takes_space(&self) {
        self.0.encoding_takes_space();
        self.1.encoding_takes_space();
    }

    proof fn parse_inverts(&self, data: Seq<u8>, pos: int) {
        super::lemma_split(data, pos, self.0.encoding(), self.1.encoding());
        self.0.parse_inverts(data, pos);
        self.1.parse_inverts(data, pos + self.0.encoding().len());
    }

    fn read_binary(r: &mut BinaryReader<'_>) -> (res: ProtoResult<Self>) {
        let first: A = match r.read() {
            Ok(v) => v,
            Err(e) => {
                return Err(e);
            },
        };
        match r.read() {
            Ok(second) => Ok((first, second)),
            Err(e) => Err(e),
        }
    }

    fn write_binary(&self, w: &mut BinaryWriter<'_>) -> (res: ProtoResult<()>) {
        let ghost start = w.0@;
        let _ = w.write(&self.0);
        let _ = w.write(&self.1);
        assert(w.0@ =~= start + self.encoding());
        Ok(())
    }
}

impl<T: BinaryData> BinaryData for Option<T> {
    open spec fn encoding(&self) -> Seq<u8> {
        match self {
            Some(v) => true.encoding() + v.encoding(),
            None => false.encoding(),
        }
    }

    open spec fn parse(data: Seq<u8>, pos: int) -> Parsed<Option<T::Model>> {
        match bool::parse(data, pos) {
            (Err(e), p) => (Err(e), p),
            (Ok(true), p) => super::map_parsed(T::parse(data, p), |v: T::Model| Some(v)),
            (Ok(false), p) => (Ok(None), p),
        }
    }

    open spec fn takes_space() -> bool {
        true
    }

    open spec fn readable(&self) -> bool {
        self matches Some(v) ==> v.readable()
    }

    proof fn parse_advances(data: Seq<u8>, pos: int) {
        T::parse_advances(data, bool::parse(data, pos).1);
    }

    proof fn parse_extends(data: Seq<u8>, more: Seq<u8>, pos: int) {
        T::parse_advances(data, bool::parse(data, pos).1);
        T::parse_extends(data, more, bool::parse(data, pos).1);
    }

    proof fn encoding_takes_space(&self) {
    }

    proof fn parse_inverts(&self, data: Seq<u8>, pos: int) {
        match self {
            Some(v) => {
                super::lemma_split(data, pos, true.encoding(), v.encoding());
                true.parse_inverts(data, pos);
                v.parse_inverts(data, pos + 1);
            },
            None => {
                false.parse_inverts(data, pos);
            },
        }
    }

    fn read_binary(r: &mut BinaryReader<'_>) -> (res: ProtoResult<Self>) {
        let present: bool = match r.read() {
            Ok(v) => v,
            Err(e) => {
                return Err(e);
            },
        };
        if present {
            match r.read() {
                Ok(v) => Ok(Some(v)),
                Err(e) => Err(e),
            }
        } else {
            Ok(None)
        }
    }

    fn write_binary(&self, w: &mut BinaryWriter<'_>) -> (res: ProtoResult<()>) {
        let ghost start = w.0@;
        match self {
            Some(v) => {
                let _ = w.write_val(true);
                let _ = w.write(v);
            },
            None => {
                let _ = w.write_val(false);
            },
        }
        assert(w.0@ =~= start + self.encoding());
        Ok(())
    }
}

impl<A: BinaryData, B: BinaryData> BinaryData for Result<A, B> {
    open spec fn encoding(&self) -> Seq<u8> {
        match self {
            Ok(v) => true.encoding() + v.encoding(),
            Err(e) => false.encoding() + e.encoding(),
        }
    }

    open spec fn parse(data: Seq<u8>, pos: int) -> Parsed<Result<A::Model, B::Model>> {
        match bool::parse(data, pos) {
            (Err(e), p) => (Err(e), p),
            (Ok(true), p) => super::map_parsed(A::parse(data, p), |v: A::Model| Ok(v)),
            (Ok(false), p) => super::map_parsed(B::parse(data, p), |v: B::Model| Err(v)),
        }
    }

    open spec fn takes_space() -> bool {
        true
    }

    open spec fn readable(&self) -> bool {
        match self {
            Ok(v) => v.readable(),
            Err(e) => e.readable(),
        }
    }

    proof fn parse_advances(data: Seq<u8>, pos: int) {
        A::parse_advances(data, bool::parse(data, pos).1);
        B::parse_advances(data, bool::parse(data, pos).1);
    }

    proof fn parse_extends(data: Seq<u8>, more: Seq<u8>, pos: int) {
        A::parse_advances(data, bool::parse(data, pos).1);
        A::parse_extends(data, more, bool::parse(data, pos).1);
        B::parse_advances(data, bool::parse(data, pos).1);
        B::parse_extends(data, more, bool::parse(data, pos).1);
    }

    proof fn encoding_takes_space(&self) {
    }

    proof fn parse_inverts(&self, data: Seq<u8>, pos: int) {
        match self {
            Ok(v) => {
                super::lemma_split(data, pos, true.encoding(), v.encoding());
                true.parse_inverts(data, pos);
                v.parse_inverts(data, pos + 1);
            },
            Err(e) => {
                super::lemma_split(data, pos, false.encoding(), e.encoding());
                false.parse_inverts(data, pos);
                e.parse_inverts(data, pos + 1);
            },
        }
    }

    fn read_binary(r: &mut BinaryReader<'_>) -> (res: ProtoResult<Self>) {
        let success: bool = match r.read() {
            Ok(v) => v,
            Err(e) => {
                return Err(e);
            },
        };
        if success {
            match r.read() {
                Ok(v) => Ok(Ok(v)),
                Err(e) => Err(e),
            }
        } else {
            match r.read() {
                Ok(v) => Ok(Err(v)),
                Err(e) => Err(e),
            }
        }
    }

    fn write_binary(&self, w: &mut BinaryWriter<'_>) -> (res: ProtoResult<()>) {
        let ghost start = w.0@;
        match self {
            Ok(v) => {
                let _ = w.write_val(true);
                let _ = w.write(v);
            },
            Err(e) => {
                let _ = w.write_val(false);
                let _ = w.write(e);
            },
        }
        assert(w.0@ =~= start + self.encoding());
        Ok(())
    }
}

impl<T: BinaryData> BinaryData for Vec<T> {
    open spec fn encoding(&self) -> Seq<u8> {
        super::array_encoding(self@)
    }

    open spec fn parse(data: Seq<u8>, pos: int) -> Parsed<Seq<T::Model>> {
        super::parse_array::<T>(data, pos)
    }

    open spec fn takes_space() -> bool {
        true
    }

    open spec fn readable(&self) -> bool {
        super::array_readable(self@)
    }

    proof fn parse_advances(data: Seq<u8>, pos: int) {
        super::lemma_array_advances::<T>(data, pos);
    }

    proof fn parse_extends(data: Seq<u8>, more: Seq<u8>, pos: int) {
        super::lemma_array_extends::<T>(data, more, pos);
    }

    proof fn encoding_takes_space(&self) {
        super::uleb::lemma_uleb_takes_space(self@.len());
    }

    proof fn parse_inverts(&self, data: Seq<u8>, pos: int) {
        super::lemma_array_inverts(self@, data, pos);
    }

    fn read_binary(r: &mut BinaryReader<'_>) -> (res: ProtoResult<Self>) {
        r.array()
    }

    fn write_binary(&self, w: &mut BinaryWriter<'_>) -> (res: ProtoResult<()>) {
        w.array(self.as_slice())
    }
}

impl<T: BinaryData> BinaryData for Arc<T> {
    open spec fn encoding(&self) -> Seq<u8> {
        (**self).encoding()
    }

    open spec fn parse(data: Seq<u8>, pos: int) -> Parsed<T::Model> {
        T::parse(data, pos)
    }

    open spec fn takes_space() -> bool {
        T::takes_space()
    }

    open spec fn readable(&self) -> bool {
        (**self).readable()
    }

    proof fn parse_advances(data: Seq<u8>, pos: int) {
        T::parse_advances(data, pos);
    }

    proof fn parse_extends(data: Seq<u8>, more: Seq<u8>, pos: int) {
        T::parse_advances(data, pos);
        T::parse_extends(data, more, pos);
    }

    proof fn encoding_takes_space(&self) {
        (**self).encoding_takes_space();
    }

    proof fn parse_inverts(&self, data: Seq<u8>, pos: int) {
        (**self).parse_inverts(data, pos);
    }

    fn read_binary(r: &mut BinaryReader<'_>) -> (res: ProtoResult<Self>) {
        match r.read() {
            Ok(v) => Ok(Arc::new(v)),
            Err(e) => Err(e),
        }
    }

    fn write_binary(&self, w: &mut BinaryWriter<'_>) -> (res: ProtoResult<()>) {
        (**self).write_binary(w)
    }
}

} // verus!
