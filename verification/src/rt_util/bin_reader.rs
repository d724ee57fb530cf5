//! Reading numbers and text from bytes.
use vstd::prelude::*;
use vstd::utf8;
use crate::fail::ReadError;

verus! {

/// Reads bytes from the front on.
#[derive(Debug)]
pub struct BinaryReader {
    pub data: Vec<u8>,
    pub pos: usize,
}

/// Whether there are so many bytes from a place on.
pub open spec fn within(d: Seq<u8>, at: int, n: int) -> bool {
    0 <= at && at + n <= d.len()
}

/// Four bytes as a number, the highest first.
pub open spec fn u32_at(d: Seq<u8>, at: int) -> u32 {
    (d[at] * 0x100_0000 + d[at + 1] * 0x1_0000 + d[at + 2] * 0x100 + d[at + 3]) as u32
}

/// Two bytes as a number, the higher first.
pub open spec fn u16_at(d: Seq<u8>, at: int) -> u16 {
    (d[at] * 0x100 + d[at + 1]) as u16
}

/// Bytes as text in Latin-1: each is a character.
pub open spec fn latin1(b: Seq<u8>) -> Seq<char> {
    b.map_values(|x: u8| x as char)
}

/// [`String::from_utf8`] takes bytes that are UTF-8 as text, and no others.
#[verifier::external_body]
fn text_from_utf8(bytes: Vec<u8>) -> (r: Option<String>)
    ensures
        r is Some <==> utf8::valid_utf8(bytes@),
        r matches Some(s) ==> s@ == utf8::decode_utf8(bytes@),
{
    match String::from_utf8(bytes) {
        Ok(s) => Some(s),
        Err(_) => None,
    }
}

impl BinaryReader {
    /// Reads these bytes.
    pub fn from_bytes(data: Vec<u8>) -> (r: Self)
        ensures
            r.data@ == data@,
            r.pos == 0,
    {
        BinaryReader { data, pos: 0 }
    }

    /// Whether there are so many more bytes.
    pub fn has_more(&self, n: usize) -> (r: bool)
        ensures
            r == within(self.data@, self.pos as int, n as int),
            r ==> self.pos + n <= usize::MAX,
    {
        self.pos <= self.data.len() && n <= self.data.len() - self.pos
    }

    /// One byte.
    pub fn read_u8(&mut self) -> (r: Result<u8, ReadError>)
        ensures
            final(self).data@ == old(self).data@,
            match r {
                Ok(b) => within(old(self).data@, old(self).pos as int, 1) && b == old(
                    self,
                ).data@[old(self).pos as int] && final(self).pos == old(self).pos + 1,
                Err(e) => !within(old(self).data@, old(self).pos as int, 1) && e
                    == ReadError::PrematureEOF && final(self).pos == old(self).pos,
            },
    {
        if !self.has_more(1) {
            return Err(ReadError::PrematureEOF);
        }
        let b: u8 = self.data[self.pos];
        self.pos = self.pos + 1;
        Ok(b)
    }

    /// A number of two bytes.
    pub fn read_u16be(&mut self) -> (r: Result<u16, ReadError>)
        ensures
            final(self).data@ == old(self).data@,
            match r {
                Ok(n) => within(old(self).data@, old(self).pos as int, 2) && n == u16_at(
                    old(self).data@,
                    old(self).pos as int,
                ) && final(self).pos == old(self).pos + 2,
                Err(e) => !within(old(self).data@, old(self).pos as int, 2) && e
                    == ReadError::PrematureEOF && final(self).pos == old(self).pos,
            },
    {
        if !self.has_more(2) {
            return Err(ReadError::PrematureEOF);
        }
        let p: usize = self.pos;
        let n: u16 = self.data[p] as u16 * 0x100 + self.data[p + 1] as u16;
        self.pos = p + 2;
        Ok(n)
    }

    /// A number of four bytes.
    pub fn read_u32be(&mut self) -> (r: Result<u32, ReadError>)
        ensures
            final(self).data@ == old(self).data@,
            match r {
                Ok(n) => within(old(self).data@, old(self).pos as int, 4) && n == u32_at(
                    old(self).data@,
                    old(self).pos as int,
                ) && final(self).pos == old(self).pos + 4,
                Err(e) => !within(old(self).data@, old(self).pos as int, 4) && e
                    == ReadError::PrematureEOF && final(self).pos == old(self).pos,
            },
    {
        if !self.has_more(4) {
            return Err(ReadError::PrematureEOF);
        }
        let p: usize = self.pos;
        let n: u32 = self.data[p] as u32 * 0x100_0000 + self.data[p + 1] as u32 * 0x1_0000
            + self.data[p + 2] as u32 * 0x100 + self.data[p + 3] as u32;
        self.pos = p + 4;
        Ok(n)
    }

    /// So many bytes.
    pub fn read_bytes(&mut self, n: usize) -> (r: Result<Vec<u8>, ReadError>)
        ensures
            final(self).data@ == old(self).data@,
            match r {
                Ok(b) => within(old(self).data@, old(self).pos as int, n as int) && b@ == old(
                    self,
                ).data@.subrange(old(self).pos as int, old(self).pos + n) && final(self).pos == old(
                    self,
                ).pos + n,
                Err(e) => !within(old(self).data@, old(self).pos as int, n as int) && e
                    == ReadError::PrematureEOF && final(self).pos == old(self).pos,
            },
    {
        if !self.has_more(n) {
            return Err(ReadError::PrematureEOF);
        }
        let total: usize = self.data.len();
        let mut out: Vec<u8> = Vec::new();
        let mut i: usize = 0;
        while i < n
            invariant
                i <= n,
                self.data@ == old(self).data@,
                self.pos == old(self).pos,
                total == self.data@.len(),
                self.pos + n <= total,
                out@ == self.data@.subrange(self.pos as int, self.pos + i),
            decreases n - i,
        {
            out.push(self.data[self.pos + i]);
            i += 1;
            assert(out@ =~= self.data@.subrange(self.pos as int, self.pos + i));
        }
        self.pos = self.pos + n;
        Ok(out)
    }

    /// Text in Latin-1 of so many bytes.
    pub fn read_str_latin1(&mut self, n: usize) -> (r: Result<String, ReadError>)
        ensures
            final(self).data@ == old(self).data@,
            match r {
                Ok(s) => within(old(self).data@, old(self).pos as int, n as int) && s@ == latin1(
                    old(self).data@.subrange(old(self).pos as int, old(self).pos + n),
                ) && final(self).pos == old(self).pos + n,
                Err(e) => !within(old(self).data@, old(self).pos as int, n as int) && e
                    == ReadError::PrematureEOF && final(self).pos == old(self).pos,
            },
    {
        let b: Vec<u8> = match self.read_bytes(n) {
            Ok(b) => b,
            Err(e) => {
                return Err(e);
            },
        };
        let mut s: String = String::new();
        let mut i: usize = 0;
        assert(s@ =~= latin1(b@).take(0));
        while i < b.len()
            invariant
                i <= b@.len(),
                s@ == latin1(b@).take(i as int),
            decreases b@.len() - i,
        {
            s.push(b[i] as char);
            i += 1;
            assert(s@ =~= latin1(b@).take(i as int));
        }
        assert(latin1(b@).take(i as int) =~= latin1(b@));
        Ok(s)
    }

    /// Text in UTF-8 of so many bytes.
    pub fn read_str_utf8(&mut self, n: usize) -> (r: Result<String, ReadError>)
        ensures
            final(self).data@ == old(self).data@,
            match r {
                Ok(s) => within(old(self).data@, old(self).pos as int, n as int) && utf8::valid_utf8(
                    old(self).data@.subrange(old(self).pos as int, old(self).pos + n),
                ) && s@ == utf8::decode_utf8(
                    old(self).data@.subrange(old(self).pos as int, old(self).pos + n),
                ) && final(self).pos == old(self).pos + n,
                Err(e) => if within(old(self).data@, old(self).pos as int, n as int) {
                    !utf8::valid_utf8(
                        old(self).data@.subrange(old(self).pos as int, old(self).pos + n),
                    ) && e == ReadError::BadUtf8 && final(self).pos == old(self).pos + n
                } else {
                    e == ReadError::PrematureEOF && final(self).pos == old(self).pos
                },
            },
    {
        let b: Vec<u8> = match self.read_bytes(n) {
            Ok(b) => b,
            Err(e) => {
                return Err(e);
            },
        };
        match text_from_utf8(b) {
            Some(s) => Ok(s),
            None => Err(ReadError::BadUtf8),
        }
    }

    /// Checks that the next four bytes are the given ones.
    pub fn ensure_bytes(&mut self, want: &[u8; 4]) -> (r: Result<(), ReadError>)
        ensures
            final(self).data@ == old(self).data@,
            match r {
                Ok(()) => within(old(self).data@, old(self).pos as int, 4) && old(self).data@.subrange(
                    old(self).pos as int,
                    old(self).pos + 4,
                ) == want@ && final(self).pos == old(self).pos + 4,
                Err(e) => if within(old(self).data@, old(self).pos as int, 4) {
                    old(self).data@.subrange(old(self).pos as int, old(self).pos + 4) != want@ && e
                        == ReadError::BadSignature
                } else {
                    e == ReadError::PrematureEOF
                },
            },
    {
        let b: Vec<u8> = match self.read_bytes(4) {
            Ok(b) => b,
            Err(e) => {
                return Err(e);
            },
        };
        if b[0] == want[0] && b[1] == want[1] && b[2] == want[2] && b[3] == want[3] {
            assert(b@ =~= want@);
            Ok(())
        } else {
            Err(ReadError::BadSignature)
        }
    }

    /// Goes to a place.
    pub fn seek(&mut self, pos: usize)
        ensures
            final(self).data@ == old(self).data@,
            final(self).pos == pos,
    {
        self.pos = pos;
    }
}

} // verus!
