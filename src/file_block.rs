use vstd::prelude::*;

use std::collections::HashMap;

use crate::error::BlendError;
use crate::file::{BlenderFile, Endian, decode_uint, in_bounds};
use crate::text::{byte_chars, string_of_bytes};

verus! {

broadcast use vstd::std_specs::hash::group_hash_axioms;

/// The header of one block: where it stands, its tag, and what its payload holds.
#[derive(Debug)]
pub struct FileBlockHeader {
    pub code: String,
    pub size: usize,
    pub content_offset: usize,
    pub offset: usize,
    pub sdna_index: usize,
    pub old_mem_adr: u64,
    pub count: usize,
}

/// Number of non-zero bytes that open the 4-byte code slot at `p`.
pub open spec fn code_len(c: Seq<u8>, p: int) -> int {
    if c[p] == 0 {
        0
    } else if c[p + 1] == 0 {
        1
    } else if c[p + 2] == 0 {
        2
    } else if c[p + 3] == 0 {
        3
    } else {
        4
    }
}

/// The code of the block at `p`: its slot up to the first zero byte.
pub open spec fn code_at(c: Seq<u8>, p: int) -> Seq<char> {
    byte_chars(c.subrange(p, p + code_len(c, p)))
}

/// Whether the block at `p` is the terminator `ENDB`.
pub open spec fn is_endb(c: Seq<u8>, p: int) -> bool {
    c[p] == 0x45u8 && c[p + 1] == 0x4eu8 && c[p + 2] == 0x44u8 && c[p + 3] == 0x42u8
}

/// Payload size declared by the block header at `p`.
pub open spec fn size_at(c: Seq<u8>, e: Endian, p: int) -> nat {
    decode_uint(c, e, p + 4, 4)
}

/// Whether the header at `p` and the payload it declares both lie inside `c`.
pub open spec fn block_fits(c: Seq<u8>, e: Endian, ps: nat, p: int) -> bool {
    &&& in_bounds(c, p, 16 + ps as int)
    &&& p + 16 + ps + size_at(c, e, p) <= c.len()
}

/// Where the block after the one at `p` begins.
pub open spec fn next_block(c: Seq<u8>, e: Endian, ps: nat, p: int) -> int {
    p + 16 + ps + size_at(c, e, p)
}

/// The offsets of the blocks from `p` up to and including the `ENDB` block,
/// or `None` where a header or payload runs past the end of `c` first.
pub open spec fn chain(c: Seq<u8>, e: Endian, ps: nat, p: int) -> Option<Seq<int>>
    decreases c.len() - p,
{
    if p < 0 || !block_fits(c, e, ps, p) {
        None
    } else if is_endb(c, p) {
        Some(seq![p])
    } else {
        match chain(c, e, ps, next_block(c, e, ps, p)) {
            Some(rest) => Some(seq![p] + rest),
            None => None,
        }
    }
}

/// Whether `h` holds exactly what the block header at `p` of `c` says.
pub open spec fn header_at(h: FileBlockHeader, c: Seq<u8>, e: Endian, ps: nat, p: int) -> bool {
    &&& h.offset == p
    &&& h.code@ == code_at(c, p)
    &&& h.size == size_at(c, e, p)
    &&& h.old_mem_adr == decode_uint(c, e, p + 8, ps as int)
    &&& h.sdna_index == decode_uint(c, e, p + ps + 8, 4)
    &&& h.count == decode_uint(c, e, p + ps + 12, 4)
    &&& h.content_offset == p + 16 + ps
}

/// The address-keyed map of `s`, a later block replacing an earlier one
/// with the same address.
pub open spec fn index_of(s: Seq<FileBlockHeader>) -> Map<u64, FileBlockHeader>
    decreases s.len(),
{
    if s.len() == 0 {
        Map::empty()
    } else {
        index_of(s.drop_last()).insert(s.last().old_mem_adr, s.last())
    }
}

/// The headers of `s` whose code is `code`, in order.
pub open spec fn with_code(s: Seq<FileBlockHeader>, code: Seq<char>) -> Seq<FileBlockHeader>
    decreases s.len(),
{
    if s.len() == 0 {
        Seq::empty()
    } else if s.last().code@ == code {
        with_code(s.drop_last(), code).push(s.last())
    } else {
        with_code(s.drop_last(), code)
    }
}

impl FileBlockHeader {
    /// Reads the header that starts at `offset`.
    fn new(bf: &BlenderFile, offset: usize) -> (r: Result<FileBlockHeader, BlendError>)
        requires
            bf.wf(),
        ensures
            match r {
                Ok(h) => in_bounds(bf.content@, offset as int, 16 + bf.pointer_size as int)
                    && header_at(h, bf.content@, bf.endian, bf.pointer_size as nat, offset as int),
                Err(e) => !in_bounds(bf.content@, offset as int, 16 + bf.pointer_size as int) && e
                    == BlendError::OutOfBounds,
            },
    {
        let len = bf.content.len();
        let ps = bf.pointer_size;
        if offset > len || len - offset < 16 + ps {
            return Err(BlendError::OutOfBounds);
        }
        let ghost c = bf.content@;
        let mut add: usize = 0;
        while add < 4 && bf.content[offset + add] > 0
            invariant
                add <= 4,
                offset + 16 <= len == c.len(),
                c == bf.content@,
                forall|k: int| offset <= k < offset + add ==> #[trigger] c[k] != 0,
            decreases 4 - add,
        {
            add += 1;
        }
        assert(add == code_len(c, offset as int));
        let code = string_of_bytes(&bf.content, offset, offset + add);
        let size = match bf.u32(offset + 4) {
            Ok(v) => v as usize,
            Err(e) => return Err(e),
        };
        let old_mem_adr = match bf.pointer(offset + 8) {
            Ok(v) => v,
            Err(e) => return Err(e),
        };
        let sdna_index = match bf.u32(offset + ps + 8) {
            Ok(v) => v as usize,
            Err(e) => return Err(e),
        };
        let count = match bf.u32(offset + ps + 12) {
            Ok(v) => v as usize,
            Err(e) => return Err(e),
        };
        Ok(FileBlockHeader {
            code,
            size,
            content_offset: offset + ps + 16,
            offset,
            sdna_index,
            old_mem_adr,
            count,
        })
    }

    /// A copy of this header.
    pub fn duplicate(&self) -> (r: FileBlockHeader)
        ensures
            r == *self,
    {
        FileBlockHeader {
            code: self.code.clone(),
            size: self.size,
            content_offset: self.content_offset,
            offset: self.offset,
            sdna_index: self.sdna_index,
            old_mem_adr: self.old_mem_adr,
            count: self.count,
        }
    }
}

/// Every block of a file in order, and the blocks keyed by the address their
/// payload had in the memory of the application that wrote the file.
#[derive(Debug)]
pub struct FileBlockHeaderMap {
    blocks: Vec<FileBlockHeader>,
    map: HashMap<u64, FileBlockHeader>,
}

impl FileBlockHeaderMap {
    /// The blocks in file order, up to and including `ENDB`.
    pub closed spec fn blocks_spec(&self) -> Seq<FileBlockHeader> {
        self.blocks@
    }

    /// The address-keyed index.
    pub closed spec fn index_spec(&self) -> Map<u64, FileBlockHeader> {
        self.map@
    }

    /// The blocks are those of the chain of `bf`, each read exactly, and the
    /// index maps each address to the last block that carries it.
    pub open spec fn wf(&self, bf: &BlenderFile) -> bool {
        let c = bf.content@;
        let e = bf.endian;
        let ps = bf.pointer_size as nat;
        &&& bf.wf()
        &&& chain(c, e, ps, 12) matches Some(offs) && offs.len() == self.blocks_spec().len()
            && forall|i: int|
            0 <= i < offs.len() ==> header_at(#[trigger] self.blocks_spec()[i], c, e, ps, offs[i])
        &&& self.index_spec() == index_of(self.blocks_spec())
    }

    /// Walks the chain of blocks from byte 12 up to and including `ENDB`.
    pub fn new(bf: &BlenderFile) -> (r: Result<FileBlockHeaderMap, BlendError>)
        requires
            bf.wf(),
        ensures
            match r {
                Ok(m) => m.wf(bf),
                Err(e) => chain(bf.content@, bf.endian, bf.pointer_size as nat, 12) is None && e
                    == BlendError::OutOfBounds,
            },
    {
        let ghost c = bf.content@;
        let ghost e = bf.endian;
        let ghost ps = bf.pointer_size as nat;
        let len = bf.content.len();
        let mut blocks: Vec<FileBlockHeader> = Vec::new();
        let mut map: HashMap<u64, FileBlockHeader> = HashMap::new();
        let mut offset: usize = 12;
        let ghost mut done: Seq<int> = Seq::empty();
        if len < offset {
            return Err(BlendError::OutOfBounds);
        }
        loop
            invariant
                bf.wf(),
                c == bf.content@,
                e == bf.endian,
                ps == bf.pointer_size,
                len == c.len(),
                12 <= offset <= len,
                done.len() == blocks@.len(),
                forall|i: int|
                    0 <= i < done.len() ==> header_at(#[trigger] blocks@[i], c, e, ps, done[i]),
                map@ == index_of(blocks@),
                chain(c, e, ps, 12) == match chain(c, e, ps, offset as int) {
                    Some(rest) => Some(done + rest),
                    None => None::<Seq<int>>,
                },
            decreases len - offset,
        {
            let fbh = match FileBlockHeader::new(bf, offset) {
                Ok(h) => h,
                Err(err) => return Err(err),
            };
            let header_end = fbh.content_offset;
            if len - header_end < fbh.size {
                return Err(BlendError::OutOfBounds);
            }
            let stop = bf.content[offset] == 0x45 && bf.content[offset + 1] == 0x4e
                && bf.content[offset + 2] == 0x44 && bf.content[offset + 3] == 0x42;
            let next = header_end + fbh.size;
            let ghost here = offset as int;
            assert(block_fits(c, e, ps, here));
            assert(next == next_block(c, e, ps, here));
            let key = fbh.old_mem_adr;
            let copy = fbh.duplicate();
            let ghost prev_blocks = blocks@;
            let ghost prev_done = done;
            blocks.push(fbh);
            map.insert(key, copy);
            proof {
                assert(blocks@.drop_last() == prev_blocks);
                done = done.push(here);
            }
            if stop {
                assert(chain(c, e, ps, here) == Some(seq![here]));
                assert(done =~= prev_done + seq![here]);
                return Ok(FileBlockHeaderMap { blocks, map });
            }
            proof {
                let nx = next as int;
                assert(chain(c, e, ps, here) == match chain(c, e, ps, nx) {
                    Some(rest) => Some(seq![here] + rest),
                    None => None::<Seq<int>>,
                });
                if let Some(rest) = chain(c, e, ps, nx) {
                    assert(done + rest =~= prev_done + (seq![here] + rest));
                }
            }
            offset = next;
        }
    }
}


impl FileBlockHeaderMap {
    /// The address-keyed index.
    pub fn map(&self) -> (r: &HashMap<u64, FileBlockHeader>)
        ensures
            r@ == self.index_spec(),
    {
        &self.map
    }

    /// Every block in file order.
    pub fn blocks(&self) -> (r: &Vec<FileBlockHeader>)
        ensures
            r@ == self.blocks_spec(),
    {
        &self.blocks
    }

    /// The blocks whose code is `code`, in file order.
    pub fn find(&self, code: &str) -> (r: Vec<&FileBlockHeader>)
        ensures
            r@.map_values(|h: &FileBlockHeader| *h) == with_code(self.blocks_spec(), code@),
    {
        let mut out: Vec<&FileBlockHeader> = Vec::new();
        let test = code.to_owned();
        let mut i: usize = 0;
        while i < self.blocks.len()
            invariant
                i <= self.blocks@.len(),
                test@ == code@,
                out@.map_values(|h: &FileBlockHeader| *h) == with_code(
                    self.blocks@.subrange(0, i as int),
                    code@,
                ),
            decreases self.blocks@.len() - i,
        {
            let ghost before = out@;
            assert(self.blocks@.subrange(0, i + 1).drop_last() =~= self.blocks@.subrange(
                0,
                i as int,
            ));
            if self.blocks[i].code == test {
                out.push(&self.blocks[i]);
                assert(out@.map_values(|h: &FileBlockHeader| *h) =~= before.map_values(
                    |h: &FileBlockHeader| *h,
                ).push(self.blocks@[i as int]));
            }
            i += 1;
        }
        assert(self.blocks@.subrange(0, self.blocks@.len() as int) =~= self.blocks@);
        out
    }

    /// The block whose payload had address `ptr`, if any.
    pub fn get(&self, ptr: &u64) -> (r: Option<&FileBlockHeader>)
        ensures
            match r {
                Some(h) => self.index_spec().contains_key(*ptr) && *h == self.index_spec()[*ptr],
                None => !self.index_spec().contains_key(*ptr),
            },
    {
        self.map.get(ptr)
    }
}

/// Every block of a chain lies inside the content, payload included.
proof fn lemma_chain_fits(c: Seq<u8>, e: Endian, ps: nat, p: int)
    requires
        chain(c, e, ps, p) is Some,
    ensures
        forall|i: int|
            0 <= i < chain(c, e, ps, p)->0.len() ==> block_fits(
                c,
                e,
                ps,
                #[trigger] chain(c, e, ps, p)->0[i],
            ),
    decreases c.len() - p,
{
    if !is_endb(c, p) {
        let nx = next_block(c, e, ps, p);
        lemma_chain_fits(c, e, ps, nx);
        let rest = chain(c, e, ps, nx)->0;
        assert forall|i: int| 0 <= i < chain(c, e, ps, p)->0.len() implies block_fits(
            c,
            e,
            ps,
            #[trigger] chain(c, e, ps, p)->0[i],
        ) by {
            if i > 0 {
                assert(chain(c, e, ps, p)->0[i] == rest[i - 1]);
            }
        }
    }
}

/// Each address of the index maps to a block of `s` that carries it.
proof fn lemma_index_of(s: Seq<FileBlockHeader>, k: u64)
    requires
        index_of(s).contains_key(k),
    ensures
        index_of(s)[k].old_mem_adr == k,
        exists|i: int| 0 <= i < s.len() && s[i] == index_of(s)[k],
    decreases s.len(),
{
    if s.last().old_mem_adr != k {
        lemma_index_of(s.drop_last(), k);
        let i = choose|i: int| 0 <= i < s.drop_last().len() && s.drop_last()[i] == index_of(s.drop_last())[k];
        assert(s[i] == index_of(s)[k]);
    } else {
        assert(s[s.len() - 1] == index_of(s)[k]);
    }
}

/// Every block of a well-formed index ends inside the content:
/// `content_offset + size` is at most the length of the file.
pub proof fn lemma_blocks_within_content(m: &FileBlockHeaderMap, bf: &BlenderFile)
    requires
        m.wf(bf),
    ensures
        forall|i: int|
            0 <= i < m.blocks_spec().len() ==> #[trigger] m.blocks_spec()[i].content_offset
                + m.blocks_spec()[i].size <= bf.content@.len(),
{
    let c = bf.content@;
    let ps = bf.pointer_size as nat;
    lemma_chain_fits(c, bf.endian, ps, 12);
    let offs = chain(c, bf.endian, ps, 12)->0;
    assert forall|i: int| 0 <= i < m.blocks_spec().len() implies #[trigger] m.blocks_spec()[i].content_offset
        + m.blocks_spec()[i].size <= c.len() by {
        assert(header_at(m.blocks_spec()[i], c, bf.endian, ps, offs[i]));
        assert(block_fits(c, bf.endian, ps, offs[i]));
    }
}

/// Looking up an address that the index holds yields a block whose
/// `old_mem_adr` is that address, and that block is one of the file's blocks.
pub proof fn lemma_lookup_matches_address(m: &FileBlockHeaderMap, bf: &BlenderFile, addr: u64)
    requires
        m.wf(bf),
        m.index_spec().contains_key(addr),
    ensures
        m.index_spec()[addr].old_mem_adr == addr,
        m.blocks_spec().contains(m.index_spec()[addr]),
{
    lemma_index_of(m.blocks_spec(), addr);
}

/// Bytes appended after the `ENDB` block change nothing in the chain.
pub proof fn lemma_trailing_bytes_ignored(c: Seq<u8>, extra: Seq<u8>, e: Endian, ps: nat, p: int)
    requires
        chain(c, e, ps, p) is Some,
    ensures
        chain(c + extra, e, ps, p) == chain(c, e, ps, p),
    decreases c.len() - p,
{
    let d = c + extra;
    assert(d.subrange(p + 4, p + 8) =~= c.subrange(p + 4, p + 8));
    assert(d.subrange(p, p + 4) =~= c.subrange(p, p + 4));
    assert(d[p] == c[p] && d[p + 1] == c[p + 1] && d[p + 2] == c[p + 2] && d[p + 3] == c[p + 3]);
    assert(size_at(d, e, p) == size_at(c, e, p));
    assert(block_fits(d, e, ps, p));
    if !is_endb(c, p) {
        lemma_trailing_bytes_ignored(c, extra, e, ps, next_block(c, e, ps, p));
    }
}

/// Whether `a` and `b` read the same header.
pub open spec fn same_header(a: FileBlockHeader, b: FileBlockHeader) -> bool {
    &&& a.code@ == b.code@
    &&& a.size == b.size
    &&& a.content_offset == b.content_offset
    &&& a.offset == b.offset
    &&& a.sdna_index == b.sdna_index
    &&& a.old_mem_adr == b.old_mem_adr
    &&& a.count == b.count
}

/// Reads inside `c` give the same value in `c + extra`.
proof fn lemma_prefix_read(c: Seq<u8>, extra: Seq<u8>, e: Endian, off: int, n: int)
    requires
        0 <= off,
        0 <= n,
        off + n <= c.len(),
    ensures
        decode_uint(c + extra, e, off, n) == decode_uint(c, e, off, n),
{
    assert((c + extra).subrange(off, off + n) =~= c.subrange(off, off + n));
}

/// Bytes appended after the `ENDB` block change nothing in the index: the
/// same blocks stand at the same offsets and read the same.
pub proof fn lemma_index_ignores_trailing_bytes(
    m1: &FileBlockHeaderMap,
    bf1: &BlenderFile,
    m2: &FileBlockHeaderMap,
    bf2: &BlenderFile,
    extra: Seq<u8>,
)
    requires
        m1.wf(bf1),
        m2.wf(bf2),
        bf2.content@ == bf1.content@ + extra,
    ensures
        m1.blocks_spec().len() == m2.blocks_spec().len(),
        forall|i: int|
            0 <= i < m1.blocks_spec().len() ==> same_header(
                #[trigger] m1.blocks_spec()[i],
                m2.blocks_spec()[i],
            ),
{
    let c = bf1.content@;
    let e = bf1.endian;
    let ps = bf1.pointer_size as nat;
    assert(bf2.content@[7] == c[7] && bf2.content@[8] == c[8]);
    lemma_trailing_bytes_ignored(c, extra, e, ps, 12);
    lemma_chain_fits(c, e, ps, 12);
    let offs = chain(c, e, ps, 12)->0;
    assert forall|i: int| 0 <= i < m1.blocks_spec().len() implies same_header(
        #[trigger] m1.blocks_spec()[i],
        m2.blocks_spec()[i],
    ) by {
        let p = offs[i];
        assert(block_fits(c, e, ps, p));
        assert(header_at(m1.blocks_spec()[i], c, e, ps, p));
        assert(header_at(m2.blocks_spec()[i], c + extra, e, ps, p));
        lemma_prefix_read(c, extra, e, p + 4, 4);
        lemma_prefix_read(c, extra, e, p + 8, ps as int);
        lemma_prefix_read(c, extra, e, p + ps + 8, 4);
        lemma_prefix_read(c, extra, e, p + ps + 12, 4);
        assert((c + extra).subrange(p, p + code_len(c, p)) =~= c.subrange(p, p + code_len(c, p)));
    }
}

} // verus!
