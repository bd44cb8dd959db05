//! Random-access little-endian reads over an in-memory byte buffer.
//!
//! All integers are little-endian. The reader keeps an absolute offset into
//! the buffer; seeks are absolute and forward skips saturate at the end of
//! the buffer, so the offset never leaves it. A read that would run past the
//! end fails with [`ArkError::UnexpectedEof`] and leaves the reader alone.

use vstd::prelude::*;
use vstd::utf8::{decode_utf8, valid_utf8};

use crate::error::ArkError;
use crate::strings::{utf16_decode_of, utf16_string, utf8_string};

verus! {

/// The little-endian `u16` stored at `p`.
pub open spec fn u16_at(b: Seq<u8>, p: int) -> u16
    recommends
        0 <= p,
        p + 2 <= b.len(),
{
    (b[p] as u16) | (b[p + 1] as u16) << 8
}

/// The little-endian `u32` stored at `p`.
pub open spec fn u32_at(b: Seq<u8>, p: int) -> u32
    recommends
        0 <= p,
        p + 4 <= b.len(),
{
    (b[p] as u32) | (b[p + 1] as u32) << 8 | (b[p + 2] as u32) << 16 | (b[p + 3] as u32) << 24
}

/// The little-endian `u64` stored at `p`.
pub open spec fn u64_at(b: Seq<u8>, p: int) -> u64
    recommends
        0 <= p,
        p + 8 <= b.len(),
{
    (b[p] as u64) | (b[p + 1] as u64) << 8 | (b[p + 2] as u64) << 16 | (b[p + 3] as u64) << 24
        | (b[p + 4] as u64) << 32 | (b[p + 5] as u64) << 40 | (b[p + 6] as u64) << 48
        | (b[p + 7] as u64) << 56
}

/// The little-endian `u128` stored at `p`.
pub open spec fn u128_at(b: Seq<u8>, p: int) -> u128
    recommends
        0 <= p,
        p + 16 <= b.len(),
{
    (u64_at(b, p) as u128) | (u64_at(b, p + 8) as u128) << 64
}

/// The little-endian `i16` stored at `p` (two's complement).
pub open spec fn i16_at(b: Seq<u8>, p: int) -> i16 {
    u16_at(b, p) as i16
}

/// The little-endian `i32` stored at `p` (two's complement).
pub open spec fn i32_at(b: Seq<u8>, p: int) -> i32 {
    u32_at(b, p) as i32
}

/// The little-endian `i64` stored at `p` (two's complement).
pub open spec fn i64_at(b: Seq<u8>, p: int) -> i64 {
    u64_at(b, p) as i64
}

/// A header-stream boolean: a 4-byte little-endian integer, truthy iff == 1.
pub open spec fn bool_at(b: Seq<u8>, p: int) -> bool {
    u32_at(b, p) == 1
}

/// Clamp a stream position to the end of the buffer.
pub open spec fn cap_pos(b: Seq<u8>, p: int) -> int {
    if p > b.len() {
        b.len() as int
    } else {
        p
    }
}

/// The `count` little-endian `u16` code units stored at `p`.
pub open spec fn u16_words_at(b: Seq<u8>, p: int, count: int) -> Seq<u16> {
    Seq::new(count as nat, |i: int| u16_at(b, p + 2 * i))
}

/// What reading a length-prefixed string at `p` yields: the decoded
/// characters and the position after the string.
///
/// The `i32` prefix `n` selects the encoding: `0` and `1` consume `n` bytes
/// and yield the empty string; `-1` consumes two bytes and yields the empty
/// string; `n > 1` is UTF-8, consuming `n` bytes whose first `n - 1` are the
/// body (the last is a NUL); `n < -1` is UTF-16LE, consuming `|n| * 2` bytes
/// whose first `|n| * 2 - 2` are the body.
pub open spec fn str_read_at(b: Seq<u8>, p: int) -> Result<(Seq<char>, int), ArkError> {
    if p + 4 > b.len() {
        Err(ArkError::UnexpectedEof)
    } else {
        let n = i32_at(b, p) as int;
        let q = p + 4;
        if n == 0 || n == 1 {
            Ok((Seq::empty(), cap_pos(b, q + n)))
        } else if n == -1 {
            Ok((Seq::empty(), cap_pos(b, q + 2)))
        } else if n > 1 {
            if q + n - 1 > b.len() {
                Err(ArkError::UnexpectedEof)
            } else {
                let body = b.subrange(q, q + n - 1);
                if valid_utf8(body) {
                    Ok((decode_utf8(body), cap_pos(b, q + n)))
                } else {
                    Err(ArkError::InvalidString)
                }
            }
        } else {
            let m = -n;
            if q + 2 * m - 2 > b.len() {
                Err(ArkError::UnexpectedEof)
            } else {
                match utf16_decode_of(u16_words_at(b, q, m - 1)) {
                    Some(cs) => Ok((cs, cap_pos(b, q + 2 * m))),
                    None => Err(ArkError::InvalidString),
                }
            }
        }
    }
}

/// What skipping a length-prefixed string at `p` yields: the position after
/// the string. No bytes are inspected beyond the length prefix.
pub open spec fn str_skip_at(b: Seq<u8>, p: int) -> Result<int, ArkError> {
    if p + 4 > b.len() {
        Err(ArkError::UnexpectedEof)
    } else {
        let n = i32_at(b, p) as int;
        if n < 0 {
            Ok(cap_pos(b, p + 4 + 2 * -n))
        } else {
            Ok(cap_pos(b, p + 4 + n))
        }
    }
}

/// Random-access reader over a borrowed byte slice.
pub struct ArrayReader<'a> {
    data: &'a [u8],
    offset: usize,
}

impl<'a> ArrayReader<'a> {
    /// The underlying bytes.
    pub closed spec fn bytes(self) -> Seq<u8> {
        self.data@
    }

    /// The current absolute position.
    pub closed spec fn pos(self) -> int {
        self.offset as int
    }

    /// Well-formed: the position never leaves the buffer.
    pub open spec fn wf(self) -> bool {
        0 <= self.pos() <= self.bytes().len()
    }

    /// A reader positioned at the start of `data`.
    pub fn new(data: &'a [u8]) -> (r: Self)
        ensures
            r.wf(),
            r.bytes() == data@,
            r.pos() == 0,
    {
        ArrayReader { data, offset: 0 }
    }

    /// The current position.
    pub fn position(&self) -> (p: usize)
        requires
            self.wf(),
        ensures
            p as int == self.pos(),
    {
        self.offset
    }

    /// How many bytes the buffer holds in all.
    pub fn total_len(&self) -> (r: usize)
        ensures
            r == self.bytes().len(),
    {
        self.data.len()
    }

    /// How many bytes lie between the position and the end of the buffer.
    pub fn remaining(&self) -> (r: usize)
        requires
            self.wf(),
        ensures
            r as int == self.bytes().len() - self.pos(),
    {
        self.data.len() - self.offset
    }

    /// Move to absolute position `p`, clamped to the end of the buffer.
    pub fn seek_to(&mut self, p: usize)
        requires
            old(self).wf(),
        ensures
            final(self).wf(),
            final(self).bytes() == old(self).bytes(),
            final(self).pos() == cap_pos(old(self).bytes(), p as int),
    {
        if p > self.data.len() {
            self.offset = self.data.len();
        } else {
            self.offset = p;
        }
    }

    /// Skip `n` bytes forward, clamped to the end of the buffer.
    pub fn skip(&mut self, n: usize)
        requires
            old(self).wf(),
        ensures
            final(self).wf(),
            final(self).bytes() == old(self).bytes(),
            final(self).pos() == cap_pos(old(self).bytes(), old(self).pos() + n),
    {
        let room = self.data.len() - self.offset;
        if n > room {
            self.offset = self.data.len();
        } else {
            self.offset = self.offset + n;
        }
    }

    /// Read one byte.
    pub fn read_u8(&mut self) -> (r: Result<u8, ArkError>)
        requires
            old(self).wf(),
        ensures
            final(self).wf(),
            final(self).bytes() == old(self).bytes(),
            match r {
                Ok(v) => old(self).pos() + 1 <= old(self).bytes().len() && v == old(
                    self,
                ).bytes()[old(self).pos()] && final(self).pos() == old(self).pos() + 1,
                Err(e) => e == ArkError::UnexpectedEof && old(self).pos() + 1 > old(
                    self,
                ).bytes().len() && *final(self) == *old(self),
            },
    {
        if self.offset < self.data.len() {
            let v = self.data[self.offset];
            self.offset = self.offset + 1;
            Ok(v)
        } else {
            Err(ArkError::UnexpectedEof)
        }
    }

    /// Read one byte as a signed value.
    pub fn read_i8(&mut self) -> (r: Result<i8, ArkError>)
        requires
            old(self).wf(),
        ensures
            final(self).wf(),
            final(self).bytes() == old(self).bytes(),
            match r {
                Ok(v) => old(self).pos() + 1 <= old(self).bytes().len() && v == old(
                    self,
                ).bytes()[old(self).pos()] as i8 && final(self).pos() == old(self).pos() + 1,
                Err(e) => e == ArkError::UnexpectedEof && old(self).pos() + 1 > old(
                    self,
                ).bytes().len() && *final(self) == *old(self),
            },
    {
        match self.read_u8() {
            Ok(v) => Ok(
                #[verifier::truncate]
                (v as i8),
            ),
            Err(e) => Err(e),
        }
    }

    /// Read a little-endian `u16`.
    pub fn read_u16(&mut self) -> (r: Result<u16, ArkError>)
        requires
            old(self).wf(),
        ensures
            final(self).wf(),
            final(self).bytes() == old(self).bytes(),
            match r {
                Ok(v) => old(self).pos() + 2 <= old(self).bytes().len() && v == u16_at(
                    old(self).bytes(),
                    old(self).pos(),
                ) && final(self).pos() == old(self).pos() + 2,
                Err(e) => e == ArkError::UnexpectedEof && old(self).pos() + 2 > old(
                    self,
                ).bytes().len() && *final(self) == *old(self),
            },
    {
        if self.data.len() - self.offset >= 2 {
            let b0 = self.data[self.offset];
            let b1 = self.data[self.offset + 1];
            self.offset = self.offset + 2;
            Ok((b0 as u16) | (b1 as u16) << 8)
        } else {
            Err(ArkError::UnexpectedEof)
        }
    }

    /// Read a little-endian `i16`.
    pub fn read_i16(&mut self) -> (r: Result<i16, ArkError>)
        requires
            old(self).wf(),
        ensures
            final(self).wf(),
            final(self).bytes() == old(self).bytes(),
            match r {
                Ok(v) => old(self).pos() + 2 <= old(self).bytes().len() && v == i16_at(
                    old(self).bytes(),
                    old(self).pos(),
                ) && final(self).pos() == old(self).pos() + 2,
                Err(e) => e == ArkError::UnexpectedEof && old(self).pos() + 2 > old(
                    self,
                ).bytes().len() && *final(self) == *old(self),
            },
    {
        match self.read_u16() {
            Ok(v) => Ok(
                #[verifier::truncate]
                (v as i16),
            ),
            Err(e) => Err(e),
        }
    }

    /// Read a little-endian `u32`.
    pub fn read_u32(&mut self) -> (r: Result<u32, ArkError>)
        requires
            old(self).wf(),
        ensures
            final(self).wf(),
            final(self).bytes() == old(self).bytes(),
            match r {
                Ok(v) => old(self).pos() + 4 <= old(self).bytes().len() && v == u32_at(
                    old(self).bytes(),
                    old(self).pos(),
                ) && final(self).pos() == old(self).pos() + 4,
                Err(e) => e == ArkError::UnexpectedEof && old(self).pos() + 4 > old(
                    self,
                ).bytes().len() && *final(self) == *old(self),
            },
    {
        if self.data.len() - self.offset >= 4 {
            let b0 = self.data[self.offset];
            let b1 = self.data[self.offset + 1];
            let b2 = self.data[self.offset + 2];
            let b3 = self.data[self.offset + 3];
            self.offset = self.offset + 4;
            Ok((b0 as u32) | (b1 as u32) << 8 | (b2 as u32) << 16 | (b3 as u32) << 24)
        } else {
            Err(ArkError::UnexpectedEof)
        }
    }

    /// Read a little-endian `i32`.
    pub fn read_i32(&mut self) -> (r: Result<i32, ArkError>)
        requires
            old(self).wf(),
        ensures
            final(self).wf(),
            final(self).bytes() == old(self).bytes(),
            match r {
                Ok(v) => old(self).pos() + 4 <= old(self).bytes().len() && v == i32_at(
                    old(self).bytes(),
                    old(self).pos(),
                ) && final(self).pos() == old(self).pos() + 4,
                Err(e) => e == ArkError::UnexpectedEof && old(self).pos() + 4 > old(
                    self,
                ).bytes().len() && *final(self) == *old(self),
            },
    {
        match self.read_u32() {
            Ok(v) => Ok(
                #[verifier::truncate]
                (v as i32),
            ),
            Err(e) => Err(e),
        }
    }

    /// Read a little-endian `u64`.
    pub fn read_u64(&mut self) -> (r: Result<u64, ArkError>)
        requires
            old(self).wf(),
        ensures
            final(self).wf(),
            final(self).bytes() == old(self).bytes(),
            match r {
                Ok(v) => old(self).pos() + 8 <= old(self).bytes().len() && v == u64_at(
                    old(self).bytes(),
                    old(self).pos(),
                ) && final(self).pos() == old(self).pos() + 8,
                Err(e) => e == ArkError::UnexpectedEof && old(self).pos() + 8 > old(
                    self,
                ).bytes().len() && *final(self) == *old(self),
            },
    {
        if self.data.len() - self.offset >= 8 {
            let b0 = self.data[self.offset];
            let b1 = self.data[self.offset + 1];
            let b2 = self.data[self.offset + 2];
            let b3 = self.data[self.offset + 3];
            let b4 = self.data[self.offset + 4];
            let b5 = self.data[self.offset + 5];
            let b6 = self.data[self.offset + 6];
            let b7 = self.data[self.offset + 7];
            self.offset = self.offset + 8;
            Ok(
                (b0 as u64) | (b1 as u64) << 8 | (b2 as u64) << 16 | (b3 as u64) << 24 | (
                b4 as u64) << 32 | (b5 as u64) << 40 | (b6 as u64) << 48 | (b7 as u64) << 56,
            )
        } else {
            Err(ArkError::UnexpectedEof)
        }
    }

    /// Read a little-endian `i64`.
    pub fn read_i64(&mut self) -> (r: Result<i64, ArkError>)
        requires
            old(self).wf(),
        ensures
            final(self).wf(),
            final(self).bytes() == old(self).bytes(),
            match r {
                Ok(v) => old(self).pos() + 8 <= old(self).bytes().len() && v == i64_at(
                    old(self).bytes(),
                    old(self).pos(),
                ) && final(self).pos() == old(self).pos() + 8,
                Err(e) => e == ArkError::UnexpectedEof && old(self).pos() + 8 > old(
                    self,
                ).bytes().len() && *final(self) == *old(self),
            },
    {
        match self.read_u64() {
            Ok(v) => Ok(
                #[verifier::truncate]
                (v as i64),
            ),
            Err(e) => Err(e),
        }
    }

    /// Read a little-endian `u128`.
    pub fn read_u128(&mut self) -> (r: Result<u128, ArkError>)
        requires
            old(self).wf(),
        ensures
            final(self).wf(),
            final(self).bytes() == old(self).bytes(),
            match r {
                Ok(v) => old(self).pos() + 16 <= old(self).bytes().len() && v == u128_at(
                    old(self).bytes(),
                    old(self).pos(),
                ) && final(self).pos() == old(self).pos() + 16,
                Err(e) => e == ArkError::UnexpectedEof && old(self).pos() + 16 > old(
                    self,
                ).bytes().len() && *final(self) == *old(self),
            },
    {
        if self.data.len() - self.offset >= 16 {
            let lo = match self.read_u64() {
                Ok(v) => v,
                Err(e) => { return Err(e) },
            };
            let hi = match self.read_u64() {
                Ok(v) => v,
                Err(e) => { return Err(e) },
            };
            Ok((lo as u128) | (hi as u128) << 64)
        } else {
            Err(ArkError::UnexpectedEof)
        }
    }

    /// Read the bit pattern of a little-endian 32-bit float.
    pub fn read_f32_bits(&mut self) -> (r: Result<u32, ArkError>)
        requires
            old(self).wf(),
        ensures
            final(self).wf(),
            final(self).bytes() == old(self).bytes(),
            match r {
                Ok(v) => old(self).pos() + 4 <= old(self).bytes().len() && v == u32_at(
                    old(self).bytes(),
                    old(self).pos(),
                ) && final(self).pos() == old(self).pos() + 4,
                Err(e) => e == ArkError::UnexpectedEof && old(self).pos() + 4 > old(
                    self,
                ).bytes().len() && *final(self) == *old(self),
            },
    {
        self.read_u32()
    }

    /// Read the bit pattern of a little-endian 64-bit float.
    pub fn read_f64_bits(&mut self) -> (r: Result<u64, ArkError>)
        requires
            old(self).wf(),
        ensures
            final(self).wf(),
            final(self).bytes() == old(self).bytes(),
            match r {
                Ok(v) => old(self).pos() + 8 <= old(self).bytes().len() && v == u64_at(
                    old(self).bytes(),
                    old(self).pos(),
                ) && final(self).pos() == old(self).pos() + 8,
                Err(e) => e == ArkError::UnexpectedEof && old(self).pos() + 8 > old(
                    self,
                ).bytes().len() && *final(self) == *old(self),
            },
    {
        self.read_u64()
    }

    /// Read `n` raw bytes.
    pub fn read_bytes(&mut self, n: usize) -> (r: Result<Vec<u8>, ArkError>)
        requires
            old(self).wf(),
        ensures
            final(self).wf(),
            final(self).bytes() == old(self).bytes(),
            match r {
                Ok(v) => old(self).pos() + n <= old(self).bytes().len() && v@ == old(
                    self,
                ).bytes().subrange(old(self).pos(), old(self).pos() + n) && final(self).pos() == old(
                    self,
                ).pos() + n,
                Err(e) => e == ArkError::UnexpectedEof && old(self).pos() + n > old(
                    self,
                ).bytes().len() && *final(self) == *old(self),
            },
    {
        let len = self.data.len();
        if len - self.offset < n {
            return Err(ArkError::UnexpectedEof);
        }
        let mut buf: Vec<u8> = Vec::new();
        let mut i: usize = 0;
        while i < n
            invariant
                self.wf(),
                self.data == old(self).data,
                self.offset == old(self).offset,
                len == self.data@.len(),
                self.offset + n <= len,
                0 <= i <= n,
                buf@ =~= self.data@.subrange(self.offset as int, self.offset + i),
            decreases n - i,
        {
            buf.push(self.data[self.offset + i]);
            i = i + 1;
        }
        assert(buf@ =~= self.data@.subrange(self.offset as int, self.offset + n));
        self.offset = self.offset + n;
        Ok(buf)
    }

    /// Read a length-prefixed string (see [`str_read_at`] for the encoding).
    pub fn read_str(&mut self) -> (r: Result<String, ArkError>)
        requires
            old(self).wf(),
        ensures
            final(self).wf(),
            final(self).bytes() == old(self).bytes(),
            match r {
                Ok(s) => str_read_at(old(self).bytes(), old(self).pos()) == Ok::<
                    (Seq<char>, int),
                    ArkError,
                >((s@, final(self).pos())),
                Err(e) => str_read_at(old(self).bytes(), old(self).pos()) == Err::<
                    (Seq<char>, int),
                    ArkError,
                >(e),
            },
    {
        let n = match self.read_i32() {
            Ok(v) => v,
            Err(e) => { return Err(e) },
        };
        if n == 0 || n == 1 {
            self.skip(n as usize);
            Ok(String::new())
        } else if n == -1 {
            self.skip(2);
            Ok(String::new())
        } else if n > 1 {
            let body_len = (n - 1) as usize;
            let buf = match self.read_bytes(body_len) {
                Ok(v) => v,
                Err(e) => { return Err(e) },
            };
            self.skip(1);
            match utf8_string(buf) {
                Some(s) => Ok(s),
                None => Err(ArkError::InvalidString),
            }
        } else {
            let m = (-(n as i64)) as usize;
            let words_n = m - 1;
            let len = self.data.len();
            if (len - self.offset) / 2 < words_n {
                assert(self.pos() + 2 * (m as int) - 2 > self.bytes().len());
                return Err(ArkError::UnexpectedEof);
            }
            assert(2 * (words_n as int) <= len - self.pos());
            let body_len = 2 * words_n;
            let ghost q = self.offset as int;
            let mut words: Vec<u16> = Vec::new();
            let mut i: usize = 0;
            while i < words_n
                invariant
                    self.wf(),
                    self.data == old(self).data,
                    self.offset == q,
                    len == self.data@.len(),
                    q + 2 * (words_n as int) <= len,
                    0 <= i <= words_n,
                    words@ =~= u16_words_at(self.data@, q, i as int),
                decreases words_n - i,
            {
                let b0 = self.data[self.offset + 2 * i];
                let b1 = self.data[self.offset + 2 * i + 1];
                words.push((b0 as u16) | (b1 as u16) << 8);
                i = i + 1;
            }
            assert(words@ =~= u16_words_at(self.data@, q, words_n as int));
            self.offset = self.offset + body_len;
            self.skip(2);
            match utf16_string(&words) {
                Some(s) => Ok(s),
                None => Err(ArkError::InvalidString),
            }
        }
    }

    /// Skip a length-prefixed string without decoding it.
    pub fn skip_str(&mut self) -> (r: Result<(), ArkError>)
        requires
            old(self).wf(),
        ensures
            final(self).wf(),
            final(self).bytes() == old(self).bytes(),
            match r {
                Ok(()) => str_skip_at(old(self).bytes(), old(self).pos()) == Ok::<int, ArkError>(
                    final(self).pos(),
                ),
                Err(e) => str_skip_at(old(self).bytes(), old(self).pos()) == Err::<int, ArkError>(
                    e,
                ),
            },
    {
        let n = match self.read_i32() {
            Ok(v) => v,
            Err(e) => { return Err(e) },
        };
        if n < 0 {
            let m = (-(n as i64)) as usize;
            self.skip(m);
            self.skip(m);
        } else {
            self.skip(n as usize);
        }
        Ok(())
    }

    /// Read a header-stream boolean: 4-byte little-endian, truthy iff == 1.
    pub fn read_bool(&mut self) -> (r: Result<bool, ArkError>)
        requires
            old(self).wf(),
        ensures
            final(self).wf(),
            final(self).bytes() == old(self).bytes(),
            match r {
                Ok(v) => old(self).pos() + 4 <= old(self).bytes().len() && v == bool_at(
                    old(self).bytes(),
                    old(self).pos(),
                ) && final(self).pos() == old(self).pos() + 4,
                Err(e) => e == ArkError::UnexpectedEof && old(self).pos() + 4 > old(
                    self,
                ).bytes().len() && *final(self) == *old(self),
            },
    {
        match self.read_u32() {
            Ok(v) => Ok(v == 1),
            Err(e) => Err(e),
        }
    }
}

/// Law: the three degenerate length prefixes all decode to the empty string,
/// with the stated consumption — `0` and `1` consume their own value in
/// bytes, `-1` consumes two.
pub proof fn lemma_str_read_empty(b: Seq<u8>, p: int)
    requires
        0 <= p,
        p + 4 <= b.len(),
    ensures
        i32_at(b, p) == 0 ==> str_read_at(b, p) == Ok::<(Seq<char>, int), ArkError>((
            Seq::empty(),
            cap_pos(b, p + 4),
        )),
        i32_at(b, p) == 1 ==> str_read_at(b, p) == Ok::<(Seq<char>, int), ArkError>((
            Seq::empty(),
            cap_pos(b, p + 5),
        )),
        i32_at(b, p) == -1 ==> str_read_at(b, p) == Ok::<(Seq<char>, int), ArkError>((
            Seq::empty(),
            cap_pos(b, p + 6),
        )),
{
}

/// Law: a positive length prefix over a valid UTF-8 body round-trips: the
/// reader yields exactly the body's decoding and stands `4 + n` past the
/// prefix, the trailing NUL consumed.
pub proof fn lemma_str_read_utf8(b: Seq<u8>, p: int, n: int)
    requires
        0 <= p,
        p + 4 <= b.len(),
        i32_at(b, p) == n,
        1 < n,
        p + 4 + n - 1 <= b.len(),
        vstd::utf8::valid_utf8(b.subrange(p + 4, p + 4 + n - 1)),
    ensures
        str_read_at(b, p) == Ok::<(Seq<char>, int), ArkError>((
            vstd::utf8::decode_utf8(b.subrange(p + 4, p + 4 + n - 1)),
            cap_pos(b, p + 4 + n),
        )),
{
}

} // verus!
