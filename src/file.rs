use vstd::prelude::*;

use crate::error::BlendError;
use crate::text::{byte_chars, string_of_bytes};

verus! {

/// Byte order of every multi-byte integer in a file.
#[derive(Debug, Clone, Copy, PartialEq, Eq, Structural)]
pub enum Endian {
    BigEndian,
    LittleEndian,
}

/// Pointer width of the application that wrote a file.
#[derive(Debug, Clone, Copy, PartialEq, Eq, Structural)]
pub enum Arch {
    Arch32,
    Arch64,
}

/// `256` raised to `n`.
pub open spec fn pow256(n: nat) -> nat
    decreases n,
{
    if n == 0 {
        1
    } else {
        256 * pow256((n - 1) as nat)
    }
}

/// The unsigned value of `s`, least significant byte first.
pub open spec fn uint_le(s: Seq<u8>) -> nat
    decreases s.len(),
{
    if s.len() == 0 {
        0
    } else {
        s[0] as nat + 256 * uint_le(s.drop_first())
    }
}

/// The unsigned value of `s`, most significant byte first.
pub open spec fn uint_be(s: Seq<u8>) -> nat
    decreases s.len(),
{
    if s.len() == 0 {
        0
    } else {
        uint_be(s.drop_last()) * 256 + s.last() as nat
    }
}

/// The unsigned value of the `n` bytes of `c` at `off`, in byte order `e`.
pub open spec fn decode_uint(c: Seq<u8>, e: Endian, off: int, n: int) -> nat {
    let s = c.subrange(off, off + n);
    match e {
        Endian::LittleEndian => uint_le(s),
        Endian::BigEndian => uint_be(s),
    }
}

/// Whether `n` bytes at `off` lie inside `c`.
pub open spec fn in_bounds(c: Seq<u8>, off: int, n: int) -> bool {
    0 <= off && off + n <= c.len()
}

/// The two's-complement reading of the unsigned `u` on `bits` bits.
pub open spec fn signed(u: nat, bits: nat) -> int {
    if u < pow2((bits - 1) as nat) {
        u as int
    } else {
        u - pow2(bits)
    }
}

/// `2` raised to `n`.
pub open spec fn pow2(n: nat) -> nat
    decreases n,
{
    if n == 0 {
        1
    } else {
        2 * pow2((n - 1) as nat)
    }
}

pub(crate) proof fn lemma_widths()
    ensures
        pow256(2) == 0x1_0000,
        pow256(4) == 0x1_0000_0000,
        pow256(8) == 0x1_0000_0000_0000_0000,
        pow2(7) == 0x80,
        pow2(8) == 0x100,
        pow2(15) == 0x8000,
        pow2(16) == 0x1_0000,
        pow2(31) == 0x8000_0000,
        pow2(32) == 0x1_0000_0000,
        pow2(63) == 0x8000_0000_0000_0000,
        pow2(64) == 0x1_0000_0000_0000_0000,
{
    reveal_with_fuel(pow256, 9);
    reveal_with_fuel(pow2, 65);
}

/// Whether `c` starts with the seven bytes `BLENDER`.
pub open spec fn has_magic(c: Seq<u8>) -> bool {
    &&& c.len() >= 7
    &&& c[0] == 0x42u8 && c[1] == 0x4cu8 && c[2] == 0x45u8 && c[3] == 0x4eu8
    &&& c[4] == 0x44u8 && c[5] == 0x45u8 && c[6] == 0x52u8
}

pub open spec fn is_arch_marker(b: u8) -> bool {
    b == 0x2du8 || b == 0x5fu8
}

pub open spec fn is_endian_marker(b: u8) -> bool {
    b == 0x76u8 || b == 0x56u8
}

pub open spec fn is_digit(b: u8) -> bool {
    0x30u8 <= b <= 0x39u8
}

/// Whether `c` carries three version digits at bytes 9, 10 and 11.
pub open spec fn has_version(c: Seq<u8>) -> bool {
    c.len() >= 12 && is_digit(c[9]) && is_digit(c[10]) && is_digit(c[11])
}

/// The outcome of validating the 12-byte container header of `c`.
pub open spec fn header_check(c: Seq<u8>) -> Option<BlendError> {
    if !has_magic(c) {
        Some(BlendError::BadMagic)
    } else if c.len() < 8 || !is_arch_marker(c[7]) {
        Some(BlendError::BadArchMarker)
    } else if c.len() < 9 || !is_endian_marker(c[8]) {
        Some(BlendError::BadEndianMarker)
    } else if !has_version(c) {
        Some(BlendError::BadMagic)
    } else {
        None
    }
}

pub open spec fn arch_of(c: Seq<u8>) -> Arch {
    if c[7] == 0x2du8 {
        Arch::Arch64
    } else {
        Arch::Arch32
    }
}

pub open spec fn endian_of(c: Seq<u8>) -> Endian {
    if c[8] == 0x76u8 {
        Endian::LittleEndian
    } else {
        Endian::BigEndian
    }
}

pub open spec fn width_of(a: Arch) -> nat {
    match a {
        Arch::Arch32 => 4,
        Arch::Arch64 => 8,
    }
}

/// The whole content of one file together with what its header declares.
#[derive(Debug)]
pub struct BlenderFile {
    pub file: String,
    pub version: String,
    pub endian: Endian,
    pub arch: Arch,
    pub pointer_size: usize,
    pub content: Vec<u8>,
}

impl BlenderFile {
    /// The header is valid and every derived field agrees with it.
    pub open spec fn wf(&self) -> bool {
        &&& header_check(self.content@) is None
        &&& self.arch == arch_of(self.content@)
        &&& self.endian == endian_of(self.content@)
        &&& self.pointer_size == width_of(self.arch)
        &&& self.version@ == byte_chars(self.content@.subrange(9, 12))
    }

    /// The unsigned value of the `n` bytes at `off`, in the file's byte order.
    pub open spec fn uint_at(&self, off: int, n: int) -> nat {
        decode_uint(self.content@, self.endian, off, n)
    }

    /// Validates the header of `content`, read from the file named `filename`.
    pub fn new(filename: &str, content: Vec<u8>) -> (r: Result<BlenderFile, BlendError>)
        ensures
            match r {
                Ok(bf) => {
                    &&& header_check(content@) is None
                    &&& bf.wf()
                    &&& bf.content@ == content@
                    &&& bf.file@ == filename@
                },
                Err(e) => header_check(content@) == Some(e),
            },
    {
        let n = content.len();
        if n < 7 || content[0] != 0x42 || content[1] != 0x4c || content[2] != 0x45
            || content[3] != 0x4e || content[4] != 0x44 || content[5] != 0x45 || content[6] != 0x52 {
            return Err(BlendError::BadMagic);
        }
        if n < 8 || (content[7] != 0x2d && content[7] != 0x5f) {
            return Err(BlendError::BadArchMarker);
        }
        if n < 9 || (content[8] != 0x76 && content[8] != 0x56) {
            return Err(BlendError::BadEndianMarker);
        }
        if n < 12 || content[9] < 0x30 || content[9] > 0x39 || content[10] < 0x30
            || content[10] > 0x39 || content[11] < 0x30 || content[11] > 0x39 {
            return Err(BlendError::BadMagic);
        }
        let arch = if content[7] == 0x2d {
            Arch::Arch64
        } else {
            Arch::Arch32
        };
        let endian = if content[8] == 0x76 {
            Endian::LittleEndian
        } else {
            Endian::BigEndian
        };
        let pointer_size: usize = match arch {
            Arch::Arch32 => 4,
            Arch::Arch64 => 8,
        };
        let version = string_of_bytes(&content, 9, 12);
        Ok(BlenderFile { file: filename.to_owned(), version, endian, arch, pointer_size, content })
    }

    /// The unsigned value of the `n` bytes at `offset`, in the file's byte order.
    pub fn read_uint(&self, offset: usize, n: usize) -> (r: Result<u64, BlendError>)
        requires
            n <= 8,
        ensures
            match r {
                Ok(v) => in_bounds(self.content@, offset as int, n as int) && v == self.uint_at(
                    offset as int,
                    n as int,
                ) && v < pow256(n as nat),
                Err(e) => !in_bounds(self.content@, offset as int, n as int) && e
                    == BlendError::OutOfBounds,
            },
    {
        let len = self.content.len();
        if offset > len || n > len - offset {
            return Err(BlendError::OutOfBounds);
        }
        let ghost c = self.content@;
        proof {
            lemma_widths();
        }
        let mut v: u64 = 0;
        match self.endian {
            Endian::BigEndian => {
                let mut i: usize = 0;
                while i < n
                    invariant
                        i <= n <= 8,
                        offset + n <= c.len(),
                        offset + n <= self.content.len(),
                        c == self.content@,
                        v == uint_be(c.subrange(offset as int, offset + i)),
                        v < pow256(i as nat),
                        pow256(8) == 0x1_0000_0000_0000_0000,
                    decreases n - i,
                {
                    let ghost prev = c.subrange(offset as int, offset + i);
                    assert(c.subrange(offset as int, offset + i + 1).drop_last() =~= prev);
                    proof {
                        lemma_pow256_mono(i as nat + 1, 8);
                    }
                    v = v * 256 + self.content[offset + i] as u64;
                    i += 1;
                }
            },
            Endian::LittleEndian => {
                let mut j: usize = n;
                while j > 0
                    invariant
                        j <= n <= 8,
                        offset + n <= c.len(),
                        offset + n <= self.content.len(),
                        c == self.content@,
                        v == uint_le(c.subrange(offset + j, offset + n)),
                        v < pow256((n - j) as nat),
                        pow256(8) == 0x1_0000_0000_0000_0000,
                    decreases j,
                {
                    let ghost prev = c.subrange(offset + j, offset + n);
                    assert(c.subrange(offset + j - 1, offset + n).drop_first() =~= prev);
                    proof {
                        lemma_pow256_mono((n - j) as nat + 1, 8);
                    }
                    v = v * 256 + self.content[offset + j - 1] as u64;
                    j -= 1;
                }
            },
        }
        Ok(v)
    }

    /// The `u16` at `offset`.
    pub fn u16(&self, offset: usize) -> (r: Result<u16, BlendError>)
        ensures
            match r {
                Ok(v) => in_bounds(self.content@, offset as int, 2) && v == self.uint_at(
                    offset as int,
                    2,
                ),
                Err(e) => !in_bounds(self.content@, offset as int, 2) && e
                    == BlendError::OutOfBounds,
            },
    {
        proof {
            lemma_widths();
        }
        match self.read_uint(offset, 2) {
            Ok(v) => Ok(v as u16),
            Err(e) => Err(e),
        }
    }

    /// The `u32` at `offset`.
    pub fn u32(&self, offset: usize) -> (r: Result<u32, BlendError>)
        ensures
            match r {
                Ok(v) => in_bounds(self.content@, offset as int, 4) && v == self.uint_at(
                    offset as int,
                    4,
                ),
                Err(e) => !in_bounds(self.content@, offset as int, 4) && e
                    == BlendError::OutOfBounds,
            },
    {
        proof {
            lemma_widths();
        }
        match self.read_uint(offset, 4) {
            Ok(v) => Ok(v as u32),
            Err(e) => Err(e),
        }
    }

    /// The `u64` at `offset`.
    pub fn u64(&self, offset: usize) -> (r: Result<u64, BlendError>)
        ensures
            match r {
                Ok(v) => in_bounds(self.content@, offset as int, 8) && v == self.uint_at(
                    offset as int,
                    8,
                ),
                Err(e) => !in_bounds(self.content@, offset as int, 8) && e
                    == BlendError::OutOfBounds,
            },
    {
        self.read_uint(offset, 8)
    }

    /// The `i16` at `offset`.
    pub fn i16(&self, offset: usize) -> (r: Result<i16, BlendError>)
        ensures
            match r {
                Ok(v) => in_bounds(self.content@, offset as int, 2) && v == signed(
                    self.uint_at(offset as int, 2),
                    16,
                ),
                Err(e) => !in_bounds(self.content@, offset as int, 2) && e
                    == BlendError::OutOfBounds,
            },
    {
        proof {
            lemma_widths();
        }
        match self.u16(offset) {
            Ok(u) => if u < 0x8000 {
                Ok(u as i16)
            } else {
                Ok((u as i32 - 0x1_0000) as i16)
            },
            Err(e) => Err(e),
        }
    }

    /// The `i32` at `offset`.
    pub fn i32(&self, offset: usize) -> (r: Result<i32, BlendError>)
        ensures
            match r {
                Ok(v) => in_bounds(self.content@, offset as int, 4) && v == signed(
                    self.uint_at(offset as int, 4),
                    32,
                ),
                Err(e) => !in_bounds(self.content@, offset as int, 4) && e
                    == BlendError::OutOfBounds,
            },
    {
        proof {
            lemma_widths();
        }
        match self.u32(offset) {
            Ok(u) => if u < 0x8000_0000 {
                Ok(u as i32)
            } else {
                Ok((u as i64 - 0x1_0000_0000) as i32)
            },
            Err(e) => Err(e),
        }
    }

    /// The `i64` at `offset`.
    pub fn i64(&self, offset: usize) -> (r: Result<i64, BlendError>)
        ensures
            match r {
                Ok(v) => in_bounds(self.content@, offset as int, 8) && v == signed(
                    self.uint_at(offset as int, 8),
                    64,
                ),
                Err(e) => !in_bounds(self.content@, offset as int, 8) && e
                    == BlendError::OutOfBounds,
            },
    {
        proof {
            lemma_widths();
        }
        match self.u64(offset) {
            Ok(u) => if u < 0x8000_0000_0000_0000 {
                Ok(u as i64)
            } else {
                Ok((u - 0x8000_0000_0000_0000) as i64 + i64::MIN)
            },
            Err(e) => Err(e),
        }
    }

    /// The pointer-width unsigned value at `offset`.
    pub fn pointer(&self, offset: usize) -> (r: Result<u64, BlendError>)
        requires
            self.wf(),
        ensures
            match r {
                Ok(v) => in_bounds(self.content@, offset as int, self.pointer_size as int) && v
                    == self.uint_at(offset as int, self.pointer_size as int),
                Err(e) => !in_bounds(self.content@, offset as int, self.pointer_size as int)
                    && e == BlendError::OutOfBounds,
            },
    {
        self.read_uint(offset, self.pointer_size)
    }
}

proof fn lemma_pow256_mono(a: nat, b: nat)
    requires
        a <= b,
    ensures
        pow256(a) <= pow256(b),
    decreases b,
{
    if a < b {
        lemma_pow256_mono(a, (b - 1) as nat);
    }
}

/// The pointer width and the byte order of a validated file are those its
/// header markers state: `-` for 8-byte pointers, `_` for 4-byte ones, `v`
/// for little-endian and `V` for big-endian.
pub proof fn lemma_markers(bf: &BlenderFile)
    requires
        bf.wf(),
    ensures
        bf.pointer_size == 8 <==> bf.content@[7] == 0x2du8,
        bf.pointer_size == 4 <==> bf.content@[7] == 0x5fu8,
        bf.endian == Endian::LittleEndian <==> bf.content@[8] == 0x76u8,
        bf.endian == Endian::BigEndian <==> bf.content@[8] == 0x56u8,
{
}

/// A file that does not start with `BLENDER` is refused with `BadMagic`,
/// whatever follows.
pub proof fn lemma_bad_magic_first(c: Seq<u8>)
    requires
        !has_magic(c),
    ensures
        header_check(c) == Some(BlendError::BadMagic),
{
}

} // verus!
