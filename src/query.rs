//! Resolution of dotted member paths across nested records and pointers.
use vstd::prelude::*;

use crate::error::BlendError;
use crate::file::{BlenderFile, in_bounds, lemma_widths, signed};
use crate::file_block::{FileBlockHeaderMap, with_code};
use crate::sdna::{Member, PointerType, SDNA, StructureType, member_from};
use crate::text::push_char;

verus! {

/// What a path resolves to. Floating-point members are handed out as their
/// bit patterns.
#[derive(Debug, Clone, Copy, PartialEq, Eq, Structural)]
pub enum Value {
    Void,
    Pointer(u64),
    PointerPointer(u64),
    Complex(usize),
    Char(i8),
    UChar(u8),
    Short(i16),
    UShort(u16),
    Int(i32),
    Long(i32),
    ULong(u32),
    Float(u32),
    Double(u64),
    Int64(i64),
    UInt64(u64),
}

/// The segments of `p` between dots, from index `i` on, the current one
/// having started at `start`.
pub open spec fn split_from(p: Seq<char>, start: int, i: int) -> Seq<Seq<char>>
    decreases p.len() - i,
{
    if i >= p.len() {
        seq![p.subrange(start, p.len() as int)]
    } else if p[i] == '.' {
        seq![p.subrange(start, i)] + split_from(p, i + 1, i + 1)
    } else {
        split_from(p, start, i + 1)
    }
}

/// The segments of the dotted path `p`.
pub open spec fn segments(p: Seq<char>) -> Seq<Seq<char>> {
    split_from(p, 0, 0)
}

/// Number of bytes a scalar of kind `st` takes.
pub open spec fn scalar_width(st: StructureType) -> int {
    match st {
        StructureType::Char | StructureType::UChar => 1,
        StructureType::Short | StructureType::UShort => 2,
        StructureType::Int | StructureType::Long | StructureType::ULong | StructureType::Float => 4,
        StructureType::Double | StructureType::Int64 | StructureType::UInt64 => 8,
        _ => 0,
    }
}

/// The scalar of kind `st` whose bytes read `u` as an unsigned value.
pub open spec fn scalar(st: StructureType, u: nat) -> Value {
    match st {
        StructureType::Char => Value::Char(signed(u, 8) as i8),
        StructureType::UChar => Value::UChar(u as u8),
        StructureType::Short => Value::Short(signed(u, 16) as i16),
        StructureType::UShort => Value::UShort(u as u16),
        StructureType::Int => Value::Int(signed(u, 32) as i32),
        StructureType::Long => Value::Long(signed(u, 32) as i32),
        StructureType::ULong => Value::ULong(u as u32),
        StructureType::Float => Value::Float(u as u32),
        StructureType::Double => Value::Double(u as u64),
        StructureType::Int64 => Value::Int64(signed(u, 64) as i64),
        _ => Value::UInt64(u as u64),
    }
}

/// The value of member `m` whose bytes start at `off`.
pub open spec fn leaf_value(bf: &BlenderFile, m: Member, off: int) -> Result<Value, BlendError> {
    let c = bf.content@;
    let ps = bf.pointer_size as int;
    match m.pointer_type {
        PointerType::Pointer => if in_bounds(c, off, ps) {
            Ok(Value::Pointer(bf.uint_at(off, ps) as u64))
        } else {
            Err(BlendError::OutOfBounds)
        },
        PointerType::PointerPointer => if in_bounds(c, off, ps) {
            Ok(Value::PointerPointer(bf.uint_at(off, ps) as u64))
        } else {
            Err(BlendError::OutOfBounds)
        },
        PointerType::NoPointer => match m.structure_type {
            StructureType::Complex(_) => Ok(Value::Complex(off as usize)),
            StructureType::Void => Ok(Value::Void),
            st => if in_bounds(c, off, scalar_width(st)) {
                Ok(scalar(st, bf.uint_at(off, scalar_width(st))))
            } else {
                Err(BlendError::OutOfBounds)
            },
        },
    }
}

/// Resolves the segments `segs` from record `rec` whose bytes start at `base`.
pub open spec fn navigate(
    s: &SDNA,
    bf: &BlenderFile,
    map: &FileBlockHeaderMap,
    rec: int,
    base: int,
    segs: Seq<Seq<char>>,
) -> Result<Value, BlendError>
    decreases segs.len(),
{
    if segs.len() == 0 || segs[0].len() == 0 {
        Err(BlendError::UnknownMember)
    } else {
        match member_from(s.structures@[rec].members@, segs[0], 0) {
            None => Err(BlendError::UnknownMember),
            Some(j) => {
                let m = s.structures@[rec].members@[j];
                let off = base + m.offset;
                if off > usize::MAX {
                    Err(BlendError::OutOfBounds)
                } else if segs.len() == 1 {
                    leaf_value(bf, m, off)
                } else {
                    match m.pointer_type {
                        PointerType::PointerPointer => Err(BlendError::UnsupportedIndirection),
                        PointerType::Pointer => {
                            let ps = bf.pointer_size as int;
                            if !in_bounds(bf.content@, off, ps) {
                                Err(BlendError::OutOfBounds)
                            } else {
                                let addr = bf.uint_at(off, ps) as u64;
                                if addr == 0 || !map.index_spec().contains_key(addr) {
                                    Err(BlendError::DanglingPointer)
                                } else {
                                    let h = map.index_spec()[addr];
                                    if h.sdna_index >= s.structures@.len() {
                                        Err(BlendError::UnknownRecord)
                                    } else {
                                        navigate(
                                            s,
                                            bf,
                                            map,
                                            h.sdna_index as int,
                                            h.content_offset as int,
                                            segs.drop_first(),
                                        )
                                    }
                                }
                            }
                        },
                        PointerType::NoPointer => match m.structure_type {
                            StructureType::Complex(name) => match s.record_index(name@) {
                                Some(k) => navigate(s, bf, map, k, off, segs.drop_first()),
                                None => Err(BlendError::UnknownRecord),
                            },
                            _ => Err(BlendError::UnknownMember),
                        },
                    }
                }
            },
        }
    }
}

/// What `path` resolves to from the first block whose code is `code`.
pub open spec fn query_result(
    s: &SDNA,
    bf: &BlenderFile,
    map: &FileBlockHeaderMap,
    code: Seq<char>,
    path: Seq<char>,
) -> Result<Value, BlendError> {
    let hs = with_code(map.blocks_spec(), code);
    if hs.len() == 0 || hs[0].sdna_index >= s.structures@.len() {
        Err(BlendError::UnknownRecord)
    } else {
        navigate(s, bf, map, hs[0].sdna_index as int, hs[0].content_offset as int, segments(path))
    }
}

proof fn lemma_split_nonempty(p: Seq<char>, start: int, i: int)
    ensures
        split_from(p, start, i).len() >= 1,
    decreases p.len() - i,
{
    if i < p.len() {
        if p[i] == '.' {
            lemma_split_nonempty(p, i + 1, i + 1);
        } else {
            lemma_split_nonempty(p, start, i + 1);
        }
    }
}

pub open spec fn texts(v: Seq<String>) -> Seq<Seq<char>> {
    v.map_values(|s: String| s@)
}

/// The value of member `m` whose bytes start at `off`.
fn read_value(bf: &BlenderFile, m: &Member, off: usize) -> (r: Result<Value, BlendError>)
    requires
        bf.wf(),
    ensures
        r == leaf_value(bf, *m, off as int),
{
    proof {
        lemma_widths();
    }
    match m.pointer_type {
        PointerType::Pointer => match bf.pointer(off) {
            Ok(v) => Ok(Value::Pointer(v)),
            Err(e) => Err(e),
        },
        PointerType::PointerPointer => match bf.pointer(off) {
            Ok(v) => Ok(Value::PointerPointer(v)),
            Err(e) => Err(e),
        },
        PointerType::NoPointer => match &m.structure_type {
            StructureType::Complex(_) => Ok(Value::Complex(off)),
            StructureType::Void => Ok(Value::Void),
            StructureType::Char => match bf.read_uint(off, 1) {
                Ok(u) => if u < 0x80 {
                    Ok(Value::Char(u as i8))
                } else {
                    Ok(Value::Char((u as i16 - 0x100) as i8))
                },
                Err(e) => Err(e),
            },
            StructureType::UChar => match bf.read_uint(off, 1) {
                Ok(u) => Ok(Value::UChar(u as u8)),
                Err(e) => Err(e),
            },
            StructureType::Short => match bf.i16(off) {
                Ok(v) => Ok(Value::Short(v)),
                Err(e) => Err(e),
            },
            StructureType::UShort => match bf.u16(off) {
                Ok(v) => Ok(Value::UShort(v)),
                Err(e) => Err(e),
            },
            StructureType::Int => match bf.i32(off) {
                Ok(v) => Ok(Value::Int(v)),
                Err(e) => Err(e),
            },
            StructureType::Long => match bf.i32(off) {
                Ok(v) => Ok(Value::Long(v)),
                Err(e) => Err(e),
            },
            StructureType::ULong => match bf.u32(off) {
                Ok(v) => Ok(Value::ULong(v)),
                Err(e) => Err(e),
            },
            StructureType::Float => match bf.u32(off) {
                Ok(v) => Ok(Value::Float(v)),
                Err(e) => Err(e),
            },
            StructureType::Double => match bf.u64(off) {
                Ok(v) => Ok(Value::Double(v)),
                Err(e) => Err(e),
            },
            StructureType::Int64 => match bf.i64(off) {
                Ok(v) => Ok(Value::Int64(v)),
                Err(e) => Err(e),
            },
            StructureType::UInt64 => match bf.u64(off) {
                Ok(v) => Ok(Value::UInt64(v)),
                Err(e) => Err(e),
            },
        },
    }
}

impl SDNA {
    /// The segments of the dotted path `path`.
    pub fn split_path(path: &str) -> (r: Vec<String>)
        ensures
            texts(r@) == segments(path@),
    {
        let n = path.unicode_len();
        let mut out: Vec<String> = Vec::new();
        let mut cur = String::new();
        let ghost mut start: int = 0;
        let mut i: usize = 0;
        while i < n
            invariant
                n == path@.len(),
                0 <= start <= i <= n,
                cur@ == path@.subrange(start, i as int),
                segments(path@) == texts(out@) + split_from(path@, start, i as int),
            decreases n - i,
        {
            let ch = path.get_char(i);
            let ghost before = out@;
            if ch == '.' {
                let done = cur;
                out.push(done);
                cur = String::new();
                proof {
                    assert(texts(out@) =~= texts(before).push(path@.subrange(start, i as int)));
                    assert(texts(out@) + split_from(path@, i + 1, i + 1) =~= texts(before) + (seq![
                        path@.subrange(start, i as int)] + split_from(path@, i + 1, i + 1)));
                    start = i + 1;
                }
            } else {
                push_char(&mut cur, ch);
                assert(path@.subrange(start, i + 1) =~= path@.subrange(start, i as int).push(ch));
            }
            i += 1;
        }
        let ghost before = out@;
        out.push(cur);
        assert(texts(out@) =~= texts(before) + split_from(path@, start, i as int));
        out
    }

    /// The index of the first record whose type is named `name`.
    pub fn structure_index(&self, name: &String) -> (r: Option<usize>)
        ensures
            match r {
                Some(i) => self.record_index(name@) == Some(i as int),
                None => self.record_index(name@) is None,
            },
    {
        let mut i: usize = 0;
        while i < self.structures.len()
            invariant
                i <= self.structures@.len(),
                self.record_index(name@) == crate::sdna::structure_from(
                    self.structures@,
                    name@,
                    i as int,
                ),
            decreases self.structures@.len() - i,
        {
            if self.structures[i].ty.name == *name {
                return Some(i);
            }
            i += 1;
        }
        None
    }

    /// Resolves the dotted `path` from the first block whose code is `fb_name`.
    pub fn query(&self, bf: &BlenderFile, fbh_map: &FileBlockHeaderMap, fb_name: &str, path: &str) -> (r:
        Result<Value, BlendError>)
        requires
            bf.wf(),
        ensures
            r == query_result(self, bf, fbh_map, fb_name@, path@),
    {
        let hs = fbh_map.find(fb_name);
        if hs.len() == 0 {
            return Err(BlendError::UnknownRecord);
        }
        let h = hs[0];
        assert(*h == with_code(fbh_map.blocks_spec(), fb_name@)[0]);
        if h.sdna_index >= self.structures.len() {
            return Err(BlendError::UnknownRecord);
        }
        let segs = SDNA::split_path(path);
        let ghost all = texts(segs@);
        proof {
            lemma_split_nonempty(path@, 0, 0);
            assert(all.subrange(0, all.len() as int) =~= all);
        }
        let mut rec: usize = h.sdna_index;
        let mut base: usize = h.content_offset;
        let mut i: usize = 0;
        loop
            invariant
                bf.wf(),
                all == texts(segs@),
                1 <= all.len(),
                all.len() == segs@.len(),
                i < all.len(),
                rec < self.structures@.len(),
                query_result(self, bf, fbh_map, fb_name@, path@) == navigate(
                    self,
                    bf,
                    fbh_map,
                    rec as int,
                    base as int,
                    all.subrange(i as int, all.len() as int),
                ),
            decreases all.len() - i,
        {
            let ghost rest = all.subrange(i as int, all.len() as int);
            let ghost old_rec = rec as int;
            let ghost old_base = base as int;
            assert(rest[0] == segs@[i as int]@);
            let seg = &segs[i];
            if seg.as_str().is_empty() {
                return Err(BlendError::UnknownMember);
            }
            let member = match self.structures[rec].member(seg) {
                Some(m) => m,
                None => return Err(BlendError::UnknownMember),
            };
            if base > usize::MAX - member.offset {
                return Err(BlendError::OutOfBounds);
            }
            let off = base + member.offset;
            if i == segs.len() - 1 {
                return read_value(bf, member, off);
            }
            assert(rest.drop_first() =~= all.subrange(i + 1, all.len() as int));
            let ghost j = member_from(self.structures@[rec as int].members@, rest[0], 0)->0;
            assert(*member == self.structures@[rec as int].members@[j]);
            match member.pointer_type {
                PointerType::PointerPointer => {
                    return Err(BlendError::UnsupportedIndirection);
                },
                PointerType::Pointer => {
                    let addr = match bf.pointer(off) {
                        Ok(v) => v,
                        Err(e) => return Err(e),
                    };
                    assert(bf.uint_at(off as int, bf.pointer_size as int) as u64 == addr);
                    if addr == 0 {
                        return Err(BlendError::DanglingPointer);
                    }
                    let target = match fbh_map.get(&addr) {
                        Some(t) => t,
                        None => return Err(BlendError::DanglingPointer),
                    };
                    if target.sdna_index >= self.structures.len() {
                        return Err(BlendError::UnknownRecord);
                    }
                    rec = target.sdna_index;
                    base = target.content_offset;
                },
                PointerType::NoPointer => match &member.structure_type {
                    StructureType::Complex(name) => match self.structure_index(name) {
                        Some(k) => {
                            proof {
                                crate::sdna::lemma_record_by_name_then_index(self, name@);
                            }
                            rec = k;
                            base = off;
                        },
                        None => return Err(BlendError::UnknownRecord),
                    },
                    _ => return Err(BlendError::UnknownMember),
                },
            }
            assert(navigate(self, bf, fbh_map, old_rec, old_base, rest) == navigate(
                self,
                bf,
                fbh_map,
                rec as int,
                base as int,
                rest.drop_first(),
            ));
            i += 1;
        }
    }
}

} // verus!
