use vstd::prelude::*;
use vstd::slice::slice_subrange;

use crate::bytes::be_u32;
use crate::exception::Exception;

verus! {

/// The big-endian unsigned integer that the first eight bytes of `b` encode.
pub open spec fn be_u64(b: Seq<u8>) -> nat
    recommends
        b.len() >= 8,
{
    be_u32(b) * 0x1_0000_0000 + be_u32(b.skip(4))
}

/// The two's-complement reading of a 32-bit pattern.
pub open spec fn as_signed(x: nat) -> int {
    if x >= 0x8000_0000 {
        x - 0x1_0000_0000
    } else {
        x as int
    }
}

/// Reads bytecode: a byte sequence and the position of the next byte to read.
#[derive(Debug, Clone)]
pub struct CodeReader {
    code: Vec<u8>,
    ip: usize,
}

impl CodeReader {
    pub closed spec fn code_spec(&self) -> Seq<u8> {
        self.code@
    }

    pub closed spec fn ip_spec(&self) -> usize {
        self.ip
    }

    /// A reader at the start of the code.
    pub fn new(code: Vec<u8>) -> (r: CodeReader)
        ensures
            r.code_spec() == code@,
            r.ip_spec() == 0,
    {
        CodeReader { code, ip: 0 }
    }

    /// Moves on by one byte.
    pub fn advance(&mut self)
        requires
            old(self).ip_spec() < usize::MAX,
        ensures
            final(self).code_spec() == old(self).code_spec(),
            final(self).ip_spec() == old(self).ip_spec() + 1,
    {
        self.ip = self.ip + 1;
    }

    /// Moves to an address.
    pub fn jump(&mut self, address: usize)
        ensures
            final(self).code_spec() == old(self).code_spec(),
            final(self).ip_spec() == address,
    {
        self.ip = address;
    }

    /// The code being read.
    pub fn code(&self) -> (r: &Vec<u8>)
        ensures
            r@ == self.code_spec(),
    {
        &self.code
    }

    /// The position of the next byte to read.
    pub fn ip(&self) -> (r: usize)
        ensures
            r == self.ip_spec(),
    {
        self.ip
    }

    /// The byte at an address, if the code is that long.
    pub fn byte_at(&self, address: usize) -> (r: Option<u8>)
        ensures
            address < self.code_spec().len() ==> r == Some(self.code_spec()[address as int]),
            address >= self.code_spec().len() ==> r is None,
    {
        if address < self.code.len() {
            Some(self.code[address])
        } else {
            None
        }
    }

    /// Reads one byte; running past the end of the code is an overrun.
    pub fn read_byte(&mut self) -> (r: Result<u8, Exception>)
        ensures
            final(self).code_spec() == old(self).code_spec(),
            old(self).ip_spec() < old(self).code_spec().len() ==> r == Ok::<u8, Exception>(
                old(self).code_spec()[old(self).ip_spec() as int],
            ) && final(self).ip_spec() == old(self).ip_spec() + 1,
            old(self).ip_spec() >= old(self).code_spec().len() ==> r == Err::<u8, _>(
                Exception::Overrun,
            ) && final(self).ip_spec() == old(self).ip_spec(),
    {
        if self.ip < self.code.len() {
            let b = self.code[self.ip];
            self.ip = self.ip + 1;
            Ok(b)
        } else {
            Err(Exception::Overrun)
        }
    }

    /// Reads `count` bytes; running past the end of the code is an overrun.
    pub fn read_bytes(&mut self, count: usize) -> (r: Result<&[u8], Exception>)
        ensures
            final(self).code_spec() == old(self).code_spec(),
            old(self).ip_spec() + count <= old(self).code_spec().len() ==> (r matches Ok(s) && s@
                == old(self).code_spec().subrange(
                old(self).ip_spec() as int,
                old(self).ip_spec() + count,
            )) && final(self).ip_spec() == old(self).ip_spec() + count,
            old(self).ip_spec() + count > old(self).code_spec().len() ==> r == Err::<&[u8], _>(
                Exception::Overrun,
            ) && final(self).ip_spec() == old(self).ip_spec(),
    {
        if count > self.code.len() || self.ip > self.code.len() - count {
            return Err(Exception::Overrun);
        }
        let start = self.ip;
        self.ip = self.ip + count;
        Ok(slice_subrange(self.code.as_slice(), start, start + count))
    }

    /// Reads `N` bytes, as [`CodeReader::read_bytes`] does.
    pub fn read_bytes_const<const N: usize>(&mut self) -> (r: Result<&[u8], Exception>)
        ensures
            final(self).code_spec() == old(self).code_spec(),
            old(self).ip_spec() + N <= old(self).code_spec().len() ==> (r matches Ok(s) && s@
                == old(self).code_spec().subrange(
                old(self).ip_spec() as int,
                old(self).ip_spec() + N,
            )) && final(self).ip_spec() == old(self).ip_spec() + N,
            old(self).ip_spec() + N > old(self).code_spec().len() ==> r == Err::<&[u8], _>(
                Exception::Overrun,
            ) && final(self).ip_spec() == old(self).ip_spec(),
    {
        self.read_bytes(N)
    }

    /// Reads one byte as a boolean: any byte but zero is true.
    pub fn read_bool(&mut self) -> (r: Result<bool, Exception>)
        ensures
            final(self).code_spec() == old(self).code_spec(),
            old(self).ip_spec() < old(self).code_spec().len() ==> r == Ok::<bool, Exception>(
                old(self).code_spec()[old(self).ip_spec() as int] != 0,
            ) && final(self).ip_spec() == old(self).ip_spec() + 1,
            old(self).ip_spec() >= old(self).code_spec().len() ==> r == Err::<bool, _>(
                Exception::Overrun,
            ) && final(self).ip_spec() == old(self).ip_spec(),
    {
        let b = self.read_byte()?;
        Ok(b != 0)
    }

    /// Reads a big-endian `u32`.
    pub fn read_u32(&mut self) -> (r: Result<u32, Exception>)
        ensures
            final(self).code_spec() == old(self).code_spec(),
            old(self).ip_spec() + 4 <= old(self).code_spec().len() ==> (r matches Ok(x) && x
                == be_u32(old(self).code_spec().skip(old(self).ip_spec() as int)))
                && final(self).ip_spec() == old(self).ip_spec() + 4,
            old(self).ip_spec() + 4 > old(self).code_spec().len() ==> r == Err::<u32, _>(
                Exception::Overrun,
            ) && final(self).ip_spec() == old(self).ip_spec(),
    {
        let ghost start = self.ip;
        let b = self.read_bytes(4)?;
        let x: u32 = (b[0] as u32) * 0x100_0000 + (b[1] as u32) * 0x1_0000 + (b[2] as u32) * 0x100
            + (b[3] as u32);
        proof {
            let s = self.code@.skip(start as int);
            assert(b@[0] == s[0] && b@[1] == s[1] && b@[2] == s[2] && b@[3] == s[3]);
        }
        Ok(x)
    }

    /// Reads a big-endian two's-complement `i32`.
    pub fn read_i32(&mut self) -> (r: Result<i32, Exception>)
        ensures
            final(self).code_spec() == old(self).code_spec(),
            old(self).ip_spec() + 4 <= old(self).code_spec().len() ==> (r matches Ok(x) && x
                == as_signed(be_u32(old(self).code_spec().skip(old(self).ip_spec() as int))))
                && final(self).ip_spec() == old(self).ip_spec() + 4,
            old(self).ip_spec() + 4 > old(self).code_spec().len() ==> r == Err::<i32, _>(
                Exception::Overrun,
            ) && final(self).ip_spec() == old(self).ip_spec(),
    {
        let x = self.read_u32()?;
        if x >= 0x8000_0000 {
            Ok(i32::MIN + ((x - 0x8000_0000) as i32))
        } else {
            Ok(x as i32)
        }
    }

    /// Reads a big-endian `u64`.
    pub fn read_u64(&mut self) -> (r: Result<u64, Exception>)
        ensures
            final(self).code_spec() == old(self).code_spec(),
            old(self).ip_spec() + 8 <= old(self).code_spec().len() ==> (r matches Ok(x) && x
                == be_u64(old(self).code_spec().skip(old(self).ip_spec() as int)))
                && final(self).ip_spec() == old(self).ip_spec() + 8,
            old(self).ip_spec() + 8 > old(self).code_spec().len() ==> r == Err::<u64, _>(
                Exception::Overrun,
            ) && final(self).ip_spec() == old(self).ip_spec(),
    {
        if self.ip > self.code.len() || self.code.len() - self.ip < 8 {
            return Err(Exception::Overrun);
        }
        let ghost start = self.ip;
        let hi = self.read_u32()?;
        let lo = self.read_u32()?;
        proof {
            assert(self.code@.skip(start + 4) =~= self.code@.skip(start as int).skip(4));
        }
        Ok((hi as u64) * 0x1_0000_0000 + (lo as u64))
    }
}

} // verus!
