//! Reading and writing of 9P message fields.

use crate::bytes;
use crate::bytes::{push_bytes, push_le, read_le};
use crate::ninep::{Errno, NodeKind, Qid, HEADER_BYTES, QID_DIRECTORY};
use crate::text::utf8_str;
use vstd::prelude::*;
use vstd::slice::slice_subrange;
use vstd::string::*;

verus! {

// Fields of a message body, each with the offset behind it.

pub open spec fn taken(body: Seq<u8>, at: int, count: int) -> Result<(Seq<u8>, int), Errno> {
    if at + count > usize::MAX {
        Err(Errno::MessageTooLarge)
    } else if at + count > body.len() {
        Err(Errno::InvalidArgument)
    } else {
        Ok((body.subrange(at, at + count), at + count))
    }
}

pub open spec fn u16_at(body: Seq<u8>, at: int) -> Result<(u16, int), Errno> {
    match taken(body, at, 2) {
        Ok((digits, next)) => Ok((bytes::le_value(digits) as u16, next)),
        Err(error) => Err(error),
    }
}

pub open spec fn u32_at(body: Seq<u8>, at: int) -> Result<(u32, int), Errno> {
    match taken(body, at, 4) {
        Ok((digits, next)) => Ok((bytes::le_value(digits) as u32, next)),
        Err(error) => Err(error),
    }
}

pub open spec fn u64_at(body: Seq<u8>, at: int) -> Result<(u64, int), Errno> {
    match taken(body, at, 8) {
        Ok((digits, next)) => Ok((bytes::le_value(digits) as u64, next)),
        Err(error) => Err(error),
    }
}

/// A string with its length in front.
pub open spec fn text_at(body: Seq<u8>, at: int) -> Result<(Seq<char>, int), Errno> {
    match u16_at(body, at) {
        Err(error) => Err(error),
        Ok((length, next)) => match taken(body, next, length as int) {
            Err(error) => Err(error),
            Ok((text, end)) => if vstd::utf8::valid_utf8(text) {
                Ok((vstd::utf8::decode_utf8(text), end))
            } else {
                Err(Errno::InvalidArgument)
            },
        },
    }
}

/// Cursor over the fields of a message body.
pub struct Reader<'a> {
    pub bytes: &'a [u8],
    pub offset: usize,
}

/// What reading one field does to a cursor.
pub open spec fn steps<T>(
    before: Reader,
    after: Reader,
    r: Result<T, Errno>,
    field: Result<(T, int), Errno>,
) -> bool {
    &&& after.bytes == before.bytes
    &&& after.wf()
    &&& match field {
        Ok((value, next)) => r == Ok::<T, Errno>(value) && after.offset == next,
        Err(error) => r == Err::<T, Errno>(error),
    }
}

impl<'a> Reader<'a> {
    pub open spec fn wf(&self) -> bool {
        self.offset <= self.bytes@.len()
    }

    pub fn new(bytes: &'a [u8]) -> (r: Self)
        ensures
            r.bytes == bytes,
            r.offset == 0,
            r.wf(),
    {
        Reader { bytes, offset: 0 }
    }

    pub fn is_empty(&self) -> (r: bool)
        ensures
            r == (self.offset == self.bytes@.len()),
    {
        self.offset == self.bytes.len()
    }

    pub fn bytes(&mut self, count: usize) -> (r: Result<&'a [u8], Errno>)
        requires
            old(self).wf(),
        ensures
            final(self).bytes == old(self).bytes,
            final(self).wf(),
            match (r, taken(old(self).bytes@, old(self).offset as int, count as int)) {
                (Ok(value), Ok((model, next))) => value@ == model && final(self).offset == next,
                (Err(error), Err(model)) => error == model,
                _ => false,
            },
    {
        let end: usize = match self.offset.checked_add(count) {
            Some(end) => end,
            None => {
                return Err(Errno::MessageTooLarge);
            },
        };
        if end > self.bytes.len() {
            return Err(Errno::InvalidArgument);
        }
        let value = slice_subrange(self.bytes, self.offset, end);
        self.offset = end;
        Ok(value)
    }

    pub fn u16(&mut self) -> (r: Result<u16, Errno>)
        requires
            old(self).wf(),
        ensures
            steps(
                *old(self),
                *final(self),
                r,
                u16_at(old(self).bytes@, old(self).offset as int),
            ),
    {
        let digits = self.bytes(2)?;
        proof {
            bytes::lemma_le_value_bound(digits@);
            bytes::lemma_limits();
            assert(digits@.subrange(0, 2) =~= digits@);
        }
        Ok(read_le(digits, 0, 2) as u16)
    }

    pub fn u32(&mut self) -> (r: Result<u32, Errno>)
        requires
            old(self).wf(),
        ensures
            steps(
                *old(self),
                *final(self),
                r,
                u32_at(old(self).bytes@, old(self).offset as int),
            ),
    {
        let digits = self.bytes(4)?;
        proof {
            bytes::lemma_le_value_bound(digits@);
            bytes::lemma_limits();
            assert(digits@.subrange(0, 4) =~= digits@);
        }
        Ok(read_le(digits, 0, 4) as u32)
    }

    pub fn u64(&mut self) -> (r: Result<u64, Errno>)
        requires
            old(self).wf(),
        ensures
            steps(
                *old(self),
                *final(self),
                r,
                u64_at(old(self).bytes@, old(self).offset as int),
            ),
    {
        let digits = self.bytes(8)?;
        proof {
            bytes::lemma_le_value_bound(digits@);
            bytes::lemma_limits();
            assert(digits@.subrange(0, 8) =~= digits@);
        }
        Ok(read_le(digits, 0, 8))
    }

    pub fn string(&mut self) -> (r: Result<&'a str, Errno>)
        requires
            old(self).wf(),
        ensures
            final(self).bytes == old(self).bytes,
            final(self).wf(),
            match (r, text_at(old(self).bytes@, old(self).offset as int)) {
                (Ok(value), Ok((model, next))) => value@ == model && final(self).offset == next,
                (Err(error), Err(model)) => error == model,
                _ => false,
            },
    {
        let count: u16 = self.u16()?;
        let text = self.bytes(count as usize)?;
        match utf8_str(text) {
            Some(value) => Ok(value),
            None => Err(Errno::InvalidArgument),
        }
    }

    pub fn finish(&self) -> (r: Result<(), Errno>)
        ensures
            r == (if self.offset == self.bytes@.len() {
                Ok::<(), Errno>(())
            } else {
                Err(Errno::InvalidArgument)
            }),
    {
        if self.is_empty() {
            Ok(())
        } else {
            Err(Errno::InvalidArgument)
        }
    }
}

/// A string with its length in front.
pub open spec fn text_bytes(text: Seq<char>) -> Seq<u8> {
    let encoded = vstd::utf8::encode_utf8(text);
    bytes::le_bytes(encoded.len(), 2) + encoded
}

pub open spec fn qid_bytes(qid: Qid) -> Seq<u8> {
    seq![
        match qid.kind {
            NodeKind::File => 0u8,
            NodeKind::Directory => QID_DIRECTORY,
        },
    ] + bytes::le_bytes(qid.version as nat, 4) + bytes::le_bytes(qid.path as nat, 8)
}

/// Header and body of one message.
pub open spec fn message(message_type: u8, tag: u16, body: Seq<u8>) -> Seq<u8> {
    bytes::le_bytes((HEADER_BYTES + body.len()) as nat, 4) + seq![message_type] + bytes::le_bytes(
        tag as nat,
        2,
    ) + body
}

/// Message under construction.
pub struct Writer {
    pub bytes: Vec<u8>,
}

impl Writer {
    pub open spec fn view(&self) -> Seq<u8> {
        self.bytes@
    }

    /// Start of a message whose size is filled in at the end.
    pub fn response(message_type: u8, tag: u16) -> (r: Self)
        ensures
            r@ == bytes::le_bytes(0, 4) + seq![message_type] + bytes::le_bytes(tag as nat, 2),
    {
        let mut writer = Writer::plain();
        writer.u32(0);
        writer.u8(message_type);
        writer.u16(tag);
        assert(writer@ =~= bytes::le_bytes(0, 4) + seq![message_type] + bytes::le_bytes(
            tag as nat,
            2,
        ));
        writer
    }

    pub fn plain() -> (r: Self)
        ensures
            r@ == Seq::<u8>::empty(),
    {
        Writer { bytes: Vec::new() }
    }

    pub fn len(&self) -> (r: usize)
        ensures
            r == self@.len(),
    {
        self.bytes.len()
    }

    pub fn into_bytes(self) -> (r: Vec<u8>)
        ensures
            r@ == self@,
    {
        self.bytes
    }

    pub fn extend(&mut self, source: &[u8])
        ensures
            final(self)@ == old(self)@ + source@,
    {
        push_bytes(&mut self.bytes, source);
    }

    pub fn u8(&mut self, value: u8)
        ensures
            final(self)@ == old(self)@.push(value),
    {
        self.bytes.push(value);
    }

    pub fn u16(&mut self, value: u16)
        ensures
            final(self)@ == old(self)@ + bytes::le_bytes(value as nat, 2),
    {
        push_le(&mut self.bytes, value as u64, 2);
    }

    pub fn u32(&mut self, value: u32)
        ensures
            final(self)@ == old(self)@ + bytes::le_bytes(value as nat, 4),
    {
        push_le(&mut self.bytes, value as u64, 4);
    }

    pub fn u64(&mut self, value: u64)
        ensures
            final(self)@ == old(self)@ + bytes::le_bytes(value as nat, 8),
    {
        push_le(&mut self.bytes, value, 8);
    }

    pub fn string(&mut self, value: &str) -> (r: Result<(), Errno>)
        ensures
            if value.spec_bytes().len() <= u16::MAX {
                r is Ok && final(self)@ == old(self)@ + text_bytes(value@)
            } else {
                r == Err::<(), Errno>(Errno::NameTooLong) && final(self)@ == old(self)@
            },
    {
        let encoded = value.as_bytes();
        let length: usize = encoded.len();
        if length > 0xffff {
            return Err(Errno::NameTooLong);
        }
        let ghost before = self@;
        self.u16(length as u16);
        push_bytes(&mut self.bytes, encoded);
        assert(self@ =~= before + text_bytes(value@));
        Ok(())
    }

    pub fn qid(&mut self, qid: Qid)
        ensures
            final(self)@ == old(self)@ + qid_bytes(qid),
    {
        let ghost before = self@;
        self.u8(
            match qid.kind {
                NodeKind::File => 0,
                NodeKind::Directory => QID_DIRECTORY,
            },
        );
        self.u32(qid.version);
        self.u64(qid.path);
        assert(self@ =~= before + qid_bytes(qid));
    }

    pub fn bytes_with_u32_len(&mut self, value: &[u8]) -> (r: Result<(), Errno>)
        ensures
            if value@.len() <= u32::MAX {
                r is Ok && final(self)@ == old(self)@ + (bytes::le_bytes(value@.len(), 4) + value@)
            } else {
                r == Err::<(), Errno>(Errno::MessageTooLarge) && final(self)@ == old(self)@
            },
    {
        let length: usize = value.len();
        if length as u64 > 0xffff_ffff {
            return Err(Errno::MessageTooLarge);
        }
        let ghost before = self@;
        self.u32(length as u32);
        push_bytes(&mut self.bytes, value);
        assert(self@ =~= before + (bytes::le_bytes(value@.len(), 4) + value@));
        Ok(())
    }

    /// Fills the size in. A message that is too short or too long is refused.
    pub fn finish(self, maximum: usize) -> (r: Result<Vec<u8>, Errno>)
        requires
            maximum <= u32::MAX,
        ensures
            if HEADER_BYTES <= self@.len() <= maximum {
                r matches Ok(out) && out@ == bytes::le_bytes(self@.len(), 4) + self@.skip(4)
            } else {
                r matches Err(error) && error == Errno::MessageTooLarge
            },
    {
        let length: usize = self.bytes.len();
        if length < HEADER_BYTES || length > maximum {
            return Err(Errno::MessageTooLarge);
        }
        let mut out: Vec<u8> = Vec::new();
        push_le(&mut out, length as u64, 4);
        push_bytes(&mut out, slice_subrange(self.bytes.as_slice(), 4, length));
        proof {
            bytes::lemma_le_bytes_len(length as nat, 4);
            assert(out@ =~= bytes::le_bytes(self@.len(), 4) + self@.skip(4));
        }
        Ok(out)
    }
}

/// A string read behind its own encoding is the string.
pub proof fn text_reads_back(before: Seq<u8>, text: Seq<char>, after: Seq<u8>)
    requires
        vstd::utf8::encode_utf8(text).len() <= u16::MAX,
        before.len() + 2 + vstd::utf8::encode_utf8(text).len() <= usize::MAX,
    ensures
        text_at(before + text_bytes(text) + after, before.len() as int) == Ok::<_, Errno>(
            (text, (before.len() + 2 + vstd::utf8::encode_utf8(text).len()) as int),
        ),
{
    broadcast use vstd::utf8::encode_utf8_decode_utf8, vstd::utf8::encode_utf8_valid_utf8;

    let encoded = vstd::utf8::encode_utf8(text);
    let body = before + text_bytes(text) + after;
    let at = before.len() as int;
    bytes::lemma_limits();
    bytes::le_value_of_bytes(encoded.len(), 2);
    assert(body.subrange(at, at + 2) =~= bytes::le_bytes(encoded.len(), 2));
    assert(body.subrange(at + 2, at + 2 + encoded.len()) =~= encoded);
}

} // verus!
