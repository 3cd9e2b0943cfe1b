//! Decoding of the `DNA1` block: the name, type, type-length and structure
//! sections of the catalog.
use vstd::prelude::*;

use crate::error::BlendError;
use crate::file_block::{FileBlockHeader, FileBlockHeaderMap, lemma_blocks_within_content, with_code};
use crate::decl::{dims_of, pointer_kind_of, product};
use crate::file::{BlenderFile, Endian, decode_uint};
use crate::layout::{
    DnaModel, RawRecord, RawStructure, add_structures, dna_valid, field_sizes, member_matches,
    member_size, record_ok, sdna_matches, structure_matches, sum, types_match,
};
use crate::sdna::{Member, PointerType, SDNA, Structure, Type, type_of};
use crate::text::{byte_chars, string_of_bytes};

verus! {

/// The four-byte tags that open the sections of the catalog.
#[derive(Debug, Clone, Copy, PartialEq, Eq, Structural)]
pub enum Tag {
    Sdna,
    Name,
    Type,
    Tlen,
    Strc,
}

pub open spec fn tag_bytes(t: Tag) -> Seq<u8> {
    match t {
        Tag::Sdna => seq![0x53u8, 0x44u8, 0x4eu8, 0x41u8],
        Tag::Name => seq![0x4eu8, 0x41u8, 0x4du8, 0x45u8],
        Tag::Type => seq![0x54u8, 0x59u8, 0x50u8, 0x45u8],
        Tag::Tlen => seq![0x54u8, 0x4cu8, 0x45u8, 0x4eu8],
        Tag::Strc => seq![0x53u8, 0x54u8, 0x52u8, 0x43u8],
    }
}

/// Whether tag `t` stands at `q`, before `end`.
pub open spec fn tag_at(c: Seq<u8>, end: int, q: int, t: Tag) -> bool {
    0 <= q && q + 4 <= end && end <= c.len() && c.subrange(q, q + 4) == tag_bytes(t)
}

/// The first zero byte at or after `q` and before `end`.
pub open spec fn zero_from(c: Seq<u8>, end: int, q: int) -> Option<int>
    decreases end - q,
{
    if q < 0 || q >= end || end > c.len() {
        None
    } else if c[q] == 0 {
        Some(q)
    } else {
        zero_from(c, end, q + 1)
    }
}

/// The non-empty zero-terminated strings from `q` up to tag `t`, and where
/// `t` stands.
pub open spec fn strings_from(c: Seq<u8>, end: int, q: int, t: Tag) -> Option<(Seq<Seq<u8>>, int)>
    decreases end - q,
{
    if q < 0 || q > end {
        None
    } else if tag_at(c, end, q, t) {
        Some((Seq::empty(), q))
    } else {
        match zero_from(c, end, q) {
            Some(z) => if q <= z < end {
                match strings_from(c, end, z + 1, t) {
                    Some((rest, p)) => if z > q {
                        Some((seq![c.subrange(q, z)] + rest, p))
                    } else {
                        Some((rest, p))
                    },
                    None => None,
                }
            } else {
                None
            },
            None => None,
        }
    }
}

/// A section made of tag `t` at `q`, a 32-bit count, and that many strings
/// up to tag `next`: the strings and where `next` stands.
pub open spec fn section(c: Seq<u8>, e: Endian, end: int, q: int, t: Tag, next: Tag) -> Option<
    (Seq<Seq<u8>>, int),
> {
    if !tag_at(c, end, q, t) || q + 8 > end {
        None
    } else {
        match strings_from(c, end, q + 8, next) {
            Some((s, p)) => if s.len() == decode_uint(c, e, q + 4, 4) {
                Some((s, p))
            } else {
                None
            },
            None => None,
        }
    }
}

pub open spec fn as_text(s: Seq<Seq<u8>>) -> Seq<Seq<char>> {
    s.map_values(|b: Seq<u8>| byte_chars(b))
}

pub open spec fn views(v: Seq<Vec<u8>>) -> Seq<Seq<u8>> {
    v.map_values(|b: Vec<u8>| b@)
}

fn tag_byte(t: Tag, i: usize) -> (r: u8)
    requires
        i < 4,
    ensures
        r == tag_bytes(t)[i as int],
{
    let b: [u8; 4] = match t {
        Tag::Sdna => [0x53, 0x44, 0x4e, 0x41],
        Tag::Name => [0x4e, 0x41, 0x4d, 0x45],
        Tag::Type => [0x54, 0x59, 0x50, 0x45],
        Tag::Tlen => [0x54, 0x4c, 0x45, 0x4e],
        Tag::Strc => [0x53, 0x54, 0x52, 0x43],
    };
    b[i]
}

/// Whether tag `t` stands at `offset`, before `end`.
pub fn compare_identifier(t: Tag, offset: usize, end: usize, bf: &BlenderFile) -> (r: bool)
    requires
        end <= bf.content@.len(),
    ensures
        r == tag_at(bf.content@, end as int, offset as int, t),
{
    if offset > end || end - offset < 4 {
        return false;
    }
    let mut i: usize = 0;
    while i < 4
        invariant
            i <= 4,
            offset + 4 <= end <= bf.content@.len(),
            forall|k: int| 0 <= k < i ==> bf.content@[offset + k] == #[trigger] tag_bytes(t)[k],
        decreases 4 - i,
    {
        if bf.content[offset + i] != tag_byte(t, i) {
            assert(bf.content@.subrange(offset as int, offset + 4)[i as int] != tag_bytes(t)[i as int]);
            return false;
        }
        i += 1;
    }
    assert(bf.content@.subrange(offset as int, offset + 4) =~= tag_bytes(t));
    true
}

/// The zero-terminated string at `offset` and the offset just past its zero.
fn get_name(offset: usize, end: usize, bf: &BlenderFile) -> (r: Option<(Vec<u8>, usize)>)
    requires
        end <= bf.content@.len(),
    ensures
        match zero_from(bf.content@, end as int, offset as int) {
            Some(z) => r matches Some((b, nx)) && b@ == bf.content@.subrange(offset as int, z)
                && nx == z + 1 && offset <= z < end,
            None => r is None,
        },
{
    let ghost c = bf.content@;
    if offset >= end {
        return None;
    }
    let mut search = offset;
    let mut out: Vec<u8> = Vec::new();
    while search < end && bf.content[search] != 0
        invariant
            offset <= search,
            end <= c.len(),
            c == bf.content@,
            zero_from(c, end as int, offset as int) == zero_from(c, end as int, search as int),
            out@ == c.subrange(offset as int, search as int),
        decreases end - search,
    {
        out.push(bf.content[search]);
        assert(c.subrange(offset as int, search + 1) =~= c.subrange(offset as int, search as int).push(c[search as int]));
        search += 1;
    }
    if search < end {
        Some((out, search + 1))
    } else {
        None
    }
}

/// The section opened by tag `t` at `offset`: its strings, and where the
/// tag `next` that follows them stands.
fn get_names(t: Tag, next: Tag, offset: usize, end: usize, bf: &BlenderFile) -> (r: Option<
    (Vec<Vec<u8>>, usize),
>)
    requires
        end <= bf.content@.len(),
    ensures
        match section(bf.content@, bf.endian, end as int, offset as int, t, next) {
            Some((s, p)) => r matches Some((v, q)) && views(v@) == s && q == p,
            None => r is None,
        },
{
    let ghost c = bf.content@;
    let ghost e = bf.endian;
    if !compare_identifier(t, offset, end, bf) || end - offset < 8 {
        return None;
    }
    let len = match bf.u32(offset + 4) {
        Ok(v) => v,
        Err(_) => return None,
    };
    let mut names: Vec<Vec<u8>> = Vec::new();
    let mut q = offset + 8;
    loop
        invariant
            end <= c.len(),
            c == bf.content@,
            e == bf.endian,
            offset + 8 <= q <= end,
            tag_at(c, end as int, offset as int, t),
            len == decode_uint(c, e, offset + 4, 4),
            strings_from(c, end as int, offset + 8, next) == match strings_from(c, end as int, q as int, next) {
                Some((rest, p)) => Some((views(names@) + rest, p)),
                None => None::<(Seq<Seq<u8>>, int)>,
            },
        decreases end - q,
    {
        if compare_identifier(next, q, end, bf) {
            assert(views(names@) + Seq::<Seq<u8>>::empty() =~= views(names@));
            if names.len() as u64 != len as u64 {
                return None;
            }

            return Some((names, q));
        }
        let (name, nx) = match get_name(q, end, bf) {
            Some(p) => p,
            None => return None,
        };
        let ghost before = names@;
        if name.len() > 0 {
            proof {
                if let Some((rest, p)) = strings_from(c, end as int, nx as int, next) {
                    assert(views(before.push(name)) + rest =~= views(before) + (seq![name@] + rest));
                }
            }
            names.push(name);
        }
        q = nx;
    }
}

/// The `n` 16-bit type sizes that start at `q`.
pub open spec fn lens_at(c: Seq<u8>, e: Endian, q: int, n: nat) -> Seq<nat> {
    Seq::new(n, |k: int| decode_uint(c, e, q + 2 * k, 2))
}

/// Where tag `t` stands at or after `q`, past zero padding only.
pub open spec fn skip_padding(c: Seq<u8>, end: int, q: int, t: Tag) -> Option<int>
    decreases end - q,
{
    if q < 0 || q > end {
        None
    } else if tag_at(c, end, q, t) {
        Some(q)
    } else if q < end && end <= c.len() && c[q] == 0 {
        skip_padding(c, end, q + 1, t)
    } else {
        None
    }
}

/// The `nf` (type index, name index) pairs that start at `q`.
pub open spec fn fields_at(c: Seq<u8>, e: Endian, q: int, nf: nat) -> Seq<(nat, nat)> {
    Seq::new(nf, |j: int| (decode_uint(c, e, q + 4 * j, 2), decode_uint(c, e, q + 4 * j + 2, 2)))
}

/// The `k` record descriptors that start at `q`, each a type index, a field
/// count and that many pairs.
pub open spec fn records_from(c: Seq<u8>, e: Endian, end: int, q: int, k: nat) -> Option<
    Seq<RawRecord>,
>
    decreases k,
{
    if k == 0 {
        Some(Seq::empty())
    } else if q < 0 || q + 4 > end || end > c.len() {
        None
    } else {
        let nf = decode_uint(c, e, q + 2, 2);
        if q + 4 + 4 * nf > end {
            None
        } else {
            let rec = RawRecord { type_idx: decode_uint(c, e, q, 2), fields: fields_at(c, e, q + 4, nf) };
            match records_from(c, e, end, q + 4 + 4 * nf, (k - 1) as nat) {
                Some(rest) => Some(seq![rec] + rest),
                None => None,
            }
        }
    }
}

/// The catalog whose `SDNA` tag stands at `b`, read up to `end`.
pub open spec fn parse_dna(c: Seq<u8>, e: Endian, b: int, end: int) -> Option<DnaModel> {
    if !tag_at(c, end, b, Tag::Sdna) {
        None
    } else {
        match section(c, e, end, b + 4, Tag::Name, Tag::Type) {
            None => None,
            Some((names, t)) => match section(c, e, end, t, Tag::Type, Tag::Tlen) {
                None => None,
                Some((tys, l)) => if l + 4 + 2 * tys.len() > end {
                    None
                } else {
                    match skip_padding(c, end, l + 4 + 2 * tys.len(), Tag::Strc) {
                        None => None,
                        Some(q) => if q + 8 > end {
                            None
                        } else {
                            match records_from(c, e, end, q + 8, decode_uint(c, e, q + 4, 4)) {
                                None => None,
                                Some(recs) => Some(
                                    DnaModel {
                                        names: as_text(names),
                                        type_names: as_text(tys),
                                        type_sizes: lens_at(c, e, l + 4, tys.len()),
                                        records: recs,
                                    },
                                ),
                            }
                        },
                    }
                },
            },
        }
    }
}

/// Reads the type names of the section at `offset` and their sizes after
/// the `TLEN` tag; returns the types and where the sizes end.
fn add_types(offset: usize, end: usize, bf: &BlenderFile) -> (r: Option<(Vec<Type>, usize)>)
    requires
        end <= bf.content@.len(),
    ensures
        match section(bf.content@, bf.endian, end as int, offset as int, Tag::Type, Tag::Tlen) {
            Some((tys, l)) => if l + 4 + 2 * tys.len() > end {
                r is None
            } else {
                r matches Some((v, q)) && q == l + 4 + 2 * tys.len() && v@.len() == tys.len()
                    && forall|i: int|
                    0 <= i < tys.len() ==> type_of(
                        #[trigger] v@[i],
                        as_text(tys)[i],
                        lens_at(bf.content@, bf.endian, l + 4, tys.len())[i],
                    )
            },
            None => r is None,
        },
{
    let ghost c = bf.content@;
    let ghost e = bf.endian;
    let (names, l) = match get_names(Tag::Type, Tag::Tlen, offset, end, bf) {
        Some(p) => p,
        None => return None,
    };
    let ghost tys = views(names@);
    let n = names.len();
    if l > end || end - l < 4 || (end - l - 4) / 2 < n {
        return None;
    }
    let mut q = l + 4;
    let mut types: Vec<Type> = Vec::new();
    let mut i: usize = 0;
    while i < n
        invariant
            c == bf.content@,
            e == bf.endian,
            n == names@.len() == tys.len(),
            tys == views(names@),
            l + 4 + 2 * n <= end <= c.len(),
            i <= n,
            q == l + 4 + 2 * i,
            types@.len() == i,
            forall|k: int|
                0 <= k < i ==> type_of(
                    #[trigger] types@[k],
                    as_text(tys)[k],
                    lens_at(c, e, l + 4, n as nat)[k],
                ),
        decreases n - i,
    {
        let len = match bf.u16(q) {
            Ok(v) => v,
            Err(_) => return None,
        };
        let name = string_of_bytes(&names[i], 0, names[i].len());
        assert(names@[i as int]@.subrange(0, names@[i as int]@.len() as int) =~= names@[i as int]@);
        types.push(Type::new(name, len as usize));
        q = q + 2;
        i += 1;
    }
    Some((types, q))
}

/// Where tag `t` stands at or after `offset`, past zero padding only.
fn skip_to_tag(t: Tag, offset: usize, end: usize, bf: &BlenderFile) -> (r: Option<usize>)
    requires
        end <= bf.content@.len(),
    ensures
        match r {
            Some(p) => skip_padding(bf.content@, end as int, offset as int, t) == Some(p as int),
            None => skip_padding(bf.content@, end as int, offset as int, t) is None,
        },
{
    if offset > end {
        return None;
    }
    let mut q = offset;
    loop
        invariant
            offset <= q <= end <= bf.content@.len(),
            skip_padding(bf.content@, end as int, offset as int, t) == skip_padding(
                bf.content@,
                end as int,
                q as int,
                t,
            ),
        decreases end - q,
    {
        if compare_identifier(t, q, end, bf) {
            return Some(q);
        }
        if q < end && bf.content[q] == 0 {
            q += 1;
        } else {
            return None;
        }
    }
}

/// Reads `count` record descriptors from `offset` on.
fn read_records(offset: usize, count: u32, end: usize, bf: &BlenderFile) -> (r: Option<Vec<RawStructure>>)
    requires
        end <= bf.content@.len(),
    ensures
        match records_from(bf.content@, bf.endian, end as int, offset as int, count as nat) {
            Some(recs) => r matches Some(v) && v@.len() == recs.len() && forall|i: int|
                0 <= i < recs.len() ==> (#[trigger] v@[i])@ == recs[i],
            None => r is None,
        },
{
    let ghost c = bf.content@;
    let ghost e = bf.endian;
    let mut out: Vec<RawStructure> = Vec::new();
    let mut q = offset;
    let mut k: u32 = 0;
    while k < count
        invariant
            c == bf.content@,
            e == bf.endian,
            end <= c.len(),
            k <= count,
            out@.len() == k,
            records_from(c, e, end as int, offset as int, count as nat) == match records_from(
                c,
                e,
                end as int,
                q as int,
                (count - k) as nat,
            ) {
                Some(rest) => Some(out@.map_values(|x: RawStructure| x@) + rest),
                None => None::<Seq<RawRecord>>,
            },
        decreases count - k,
    {
        if q > end || end - q < 4 {
            return None;
        }
        let type_index = match bf.u16(q) {
            Ok(v) => v as usize,
            Err(_) => return None,
        };
        let nf = match bf.u16(q + 2) {
            Ok(v) => v as usize,
            Err(_) => return None,
        };
        if (end - q - 4) / 4 < nf {
            return None;
        }
        let mut fields: Vec<(usize, usize)> = Vec::new();
        let mut j: usize = 0;
        while j < nf
            invariant
                c == bf.content@,
                e == bf.endian,
                q + 4 + 4 * nf <= end <= c.len(),
                j <= nf,
                fields@.map_values(|f: (usize, usize)| (f.0 as nat, f.1 as nat)) == fields_at(
                    c,
                    e,
                    q + 4,
                    nf as nat,
                ).take(j as int),
            decreases nf - j,
        {
            let ghost before = fields@;
            let t = match bf.u16(q + 4 + 4 * j) {
                Ok(v) => v as usize,
                Err(_) => return None,
            };
            let n = match bf.u16(q + 6 + 4 * j) {
                Ok(v) => v as usize,
                Err(_) => return None,
            };
            fields.push((t, n));
            assert(fields@ == before.push((t, n)));
            assert(fields_at(c, e, q + 4, nf as nat)[j as int] == (t as nat, n as nat));
            assert(fields@.map_values(|f: (usize, usize)| (f.0 as nat, f.1 as nat)) =~= before.map_values(
                |f: (usize, usize)| (f.0 as nat, f.1 as nat),
            ).push((t as nat, n as nat)));
            assert(fields_at(c, e, q + 4, nf as nat).take(j + 1) =~= fields_at(c, e, q + 4, nf as nat).take(
                j as int,
            ).push((t as nat, n as nat)));
            assert(fields@.map_values(|f: (usize, usize)| (f.0 as nat, f.1 as nat)) =~= fields_at(
                c,
                e,
                q + 4,
                nf as nat,
            ).take(j + 1));
            j += 1;
        }
        assert(fields_at(c, e, q + 4, nf as nat).take(nf as int) =~= fields_at(c, e, q + 4, nf as nat));
        let rec = RawStructure { type_index, fields };
        let ghost before = out@.map_values(|x: RawStructure| x@);
        out.push(rec);
        proof {
            let nq = q + 4 + 4 * nf;
            assert(out@.map_values(|x: RawStructure| x@) =~= before.push(rec@));
            if let Some(rest) = records_from(c, e, end as int, nq, (count - k - 1) as nat) {
                assert(before.push(rec@) + rest =~= before + (seq![rec@] + rest));
            }
        }
        q = q + 4 + 4 * nf;
        k += 1;
    }
    assert(out@.map_values(|x: RawStructure| x@) + Seq::<RawRecord>::empty() =~= out@.map_values(|x: RawStructure| x@));
    Some(out)
}

/// Whether every block but `ENDB` names a record among the first `n`.
pub open spec fn blocks_typed(blocks: Seq<FileBlockHeader>, n: nat) -> bool {
    forall|i: int|
        0 <= i < blocks.len() ==> (#[trigger] blocks[i]).code@ != "ENDB"@ ==> blocks[i].sdna_index
            < n
}

/// The first block whose code is `DNA1`.
pub open spec fn dna_block(blocks: Seq<FileBlockHeader>) -> Option<FileBlockHeader> {
    let d = with_code(blocks, "DNA1"@);
    if d.len() > 0 {
        Some(d[0])
    } else {
        None
    }
}

/// The catalog that the `DNA1` block of a file holds, if it reads.
pub open spec fn catalog(bf: &BlenderFile, map: &FileBlockHeaderMap) -> Option<DnaModel> {
    match dna_block(map.blocks_spec()) {
        Some(h) => parse_dna(bf.content@, bf.endian, h.content_offset as int, h.content_offset + h.size),
        None => None,
    }
}

/// Every header of `with_code(s, code)` is a header of `s`.
proof fn lemma_with_code_in(s: Seq<FileBlockHeader>, code: Seq<char>)
    ensures
        forall|i: int| 0 <= i < with_code(s, code).len() ==> s.contains(#[trigger] with_code(s, code)[i]),
        forall|i: int| 0 <= i < with_code(s, code).len() ==> (#[trigger] with_code(s, code)[i]).code@ == code,
    decreases s.len(),
{
    if s.len() > 0 {
        lemma_with_code_in(s.drop_last(), code);
        assert forall|i: int| 0 <= i < with_code(s, code).len() implies s.contains(#[trigger] with_code(s, code)[i]) by {
            if i < with_code(s.drop_last(), code).len() {
                let h = with_code(s.drop_last(), code)[i];
                let k = choose|k: int| 0 <= k < s.drop_last().len() && s.drop_last()[k] == h;
                assert(s[k] == h);
            } else {
                assert(s[s.len() - 1] == with_code(s, code)[i]);
            }
        }
    }
}

impl SDNA {
    /// The catalog of `bf` is read, every record of it is well formed, every
    /// block but `ENDB` names one of its records, and `self` holds exactly
    /// its types and records.
    pub open spec fn wf(&self, bf: &BlenderFile, map: &FileBlockHeaderMap) -> bool {
        &&& map.wf(bf)
        &&& catalog(bf, map) matches Some(m) && dna_valid(m, bf.pointer_size as nat) && blocks_typed(
            map.blocks_spec(),
            m.records.len(),
        ) && sdna_matches(*self, m, bf.pointer_size as nat)
    }

    /// Decodes the catalog held by the first `DNA1` block. Fails with
    /// `MissingDNA` where there is none, and with `BadDNA` where a section
    /// tag, count or index is wrong, a declaration does not parse, a size
    /// overflows, or a block other than `ENDB` names no record.
    #[verifier::loop_isolation(false)]
    pub fn new(bf: &BlenderFile, map: &FileBlockHeaderMap) -> (r: Result<SDNA, BlendError>)
        requires
            map.wf(bf),
        ensures
            dna_block(map.blocks_spec()) is None ==> r == Err::<SDNA, BlendError>(BlendError::MissingDNA),
            dna_block(map.blocks_spec()) is Some ==> match catalog(bf, map) {
                Some(m) => if dna_valid(m, bf.pointer_size as nat) && blocks_typed(
                    map.blocks_spec(),
                    m.records.len(),
                ) {
                    r matches Ok(s) && s.wf(bf, map)
                } else {
                    r == Err::<SDNA, BlendError>(BlendError::BadDNA)
                },
                None => r == Err::<SDNA, BlendError>(BlendError::BadDNA),
            },
    {
        let ghost c = bf.content@;
        let ghost e = bf.endian;
        let dna1 = "DNA1";
        let found = map.find(dna1);
        assert(found@.map_values(|h: &FileBlockHeader| *h).len() == found@.len());
        assert(dna1@ == "DNA1"@);
        if found.len() == 0 {
            assert(with_code(map.blocks_spec(), "DNA1"@).len() == 0);
            return Err(BlendError::MissingDNA);
        }
        let h = found[0];
        let len = bf.content.len();
        proof {
            assert(*h == with_code(map.blocks_spec(), "DNA1"@)[0]);
            lemma_with_code_in(map.blocks_spec(), "DNA1"@);
            lemma_blocks_within_content(map, bf);
            let k = choose|k: int| 0 <= k < map.blocks_spec().len() && map.blocks_spec()[k] == *h;
            assert(map.blocks_spec()[k].content_offset + map.blocks_spec()[k].size <= c.len());
        }
        let start = h.content_offset;
        let end = start + h.size;
        assert(dna_block(map.blocks_spec()) == Some(*h));
        assert(catalog(bf, map) == parse_dna(c, e, start as int, end as int));
        if !compare_identifier(Tag::Sdna, start, end, bf) {
            return Err(BlendError::BadDNA);
        }
        let (names, t) = match get_names(Tag::Name, Tag::Type, start + 4, end, bf) {
            Some(p) => p,
            None => return Err(BlendError::BadDNA),
        };
        assert(section(c, e, end as int, start + 4, Tag::Name, Tag::Type) == Some((views(names@), t as int)));
        let (types, q) = match add_types(t, end, bf) {
            Some(p) => p,
            None => return Err(BlendError::BadDNA),
        };
        let ghost tsec = section(c, e, end as int, t as int, Tag::Type, Tag::Tlen)->0;
        let ghost tys = tsec.0;
        let ghost l = tsec.1;
        assert(q == l + 4 + 2 * tys.len());
        let s = match skip_to_tag(Tag::Strc, q, end, bf) {
            Some(p) => p,
            None => return Err(BlendError::BadDNA),
        };
        assert(skip_padding(c, end as int, l + 4 + 2 * tys.len(), Tag::Strc) == Some(s as int));
        if s > end || end - s < 8 {
            return Err(BlendError::BadDNA);
        }
        let count = match bf.u32(s + 4) {
            Ok(v) => v,
            Err(_) => return Err(BlendError::BadDNA),
        };
        let raws = match read_records(s + 8, count, end, bf) {
            Some(v) => v,
            None => return Err(BlendError::BadDNA),
        };
        assert(records_from(c, e, end as int, s + 8, decode_uint(c, e, s + 4, 4)) is Some);
        let ghost m = catalog(bf, map)->0;
        assert(m.names == as_text(views(names@)));
        assert(types_match(types@, m));
        let structures = match add_structures(&names, &types, &raws, bf.pointer_size, Ghost(m)) {
            Some(v) => v,
            None => return Err(BlendError::BadDNA),
        };
        let endb = "ENDB".to_owned();
        let blocks = map.blocks();
        let mut i: usize = 0;
        while i < blocks.len()
            invariant
                blocks@ == map.blocks_spec(),
                structures@.len() == m.records.len(),
                i <= blocks@.len(),
                endb@ == "ENDB"@,
                forall|k: int|
                    0 <= k < i ==> (#[trigger] blocks@[k]).code@ != "ENDB"@ ==> blocks@[k].sdna_index
                        < m.records.len(),
            decreases blocks@.len() - i,
        {
            if blocks[i].code != endb && blocks[i].sdna_index >= structures.len() {
                return Err(BlendError::BadDNA);
            }
            i += 1;
        }
        Ok(SDNA { types, structures })
    }
}

/// The sizes of the members of `st`, in order.
pub open spec fn member_sizes(st: Structure) -> Seq<nat> {
    st.members@.map_values(|m: Member| m.size as nat)
}

/// Whether the size that the catalog declares for the type of record `i`
/// equals the sum of the sizes of its members as computed from their
/// declarations.
pub open spec fn declared_size_consistent(m: DnaModel, i: int, ps: nat) -> bool {
    m.type_sizes[m.records[i].type_idx as int] == sum(field_sizes(m, m.records[i], ps))
}

proof fn lemma_member_sizes(s: &SDNA, m: DnaModel, ps: nat, i: int)
    requires
        sdna_matches(*s, m, ps),
        dna_valid(m, ps),
        0 <= i < m.records.len(),
    ensures
        member_sizes(s.structures@[i]) == field_sizes(m, m.records[i], ps),
{
    let st = s.structures@[i];
    assert(structure_matches(st, m, s.types@, m.records[i], ps));
    assert(record_ok(m, m.records[i], ps));
    assert forall|j: int| 0 <= j < member_sizes(st).len() implies member_sizes(st)[j] == field_sizes(
        m,
        m.records[i],
        ps,
    )[j] by {
        let f = m.records[i].fields[j];
        assert(member_matches(st.members@[j], m.names[f.1 as int], s.types@[f.0 as int], ps, sum(field_sizes(m, m.records[i], ps).take(j))));
        assert(type_of(s.types@[f.0 as int], m.type_names[f.0 as int], m.type_sizes[f.0 as int]));
    }
    assert(member_sizes(st) =~= field_sizes(m, m.records[i], ps));
}

/// Each member of a decoded record lies at the sum of the sizes of the
/// members declared before it.
pub proof fn lemma_member_offsets(s: &SDNA, bf: &BlenderFile, map: &FileBlockHeaderMap, i: int, j: int)
    requires
        s.wf(bf, map),
        0 <= i < s.structures@.len(),
        0 <= j < s.structures@[i].members@.len(),
    ensures
        s.structures@[i].members@[j].offset == sum(member_sizes(s.structures@[i]).take(j)),
{
    let m = catalog(bf, map)->0;
    let ps = bf.pointer_size as nat;
    lemma_member_sizes(s, m, ps, i);
    assert(structure_matches(s.structures@[i], m, s.types@, m.records[i], ps));
}

/// Where the catalog declares for a record's type the size its member
/// declarations add up to, the sizes of the decoded members sum to the size
/// of the record's type.
pub proof fn lemma_record_size(s: &SDNA, bf: &BlenderFile, map: &FileBlockHeaderMap, i: int)
    requires
        s.wf(bf, map),
        0 <= i < s.structures@.len(),
        declared_size_consistent(catalog(bf, map)->0, i, bf.pointer_size as nat),
    ensures
        sum(member_sizes(s.structures@[i])) == s.structures@[i].ty.size,
{
    let m = catalog(bf, map)->0;
    let ps = bf.pointer_size as nat;
    lemma_member_sizes(s, m, ps, i);
    assert(structure_matches(s.structures@[i], m, s.types@, m.records[i], ps));
    assert(record_ok(m, m.records[i], ps));
    assert(type_of(s.types@[m.records[i].type_idx as int], m.type_names[m.records[i].type_idx as int], m.type_sizes[m.records[i].type_idx as int]));
}

/// A pointer member that is no array takes exactly one pointer width,
/// whatever the type it points to.
pub proof fn lemma_pointer_member_size(s: &SDNA, bf: &BlenderFile, map: &FileBlockHeaderMap, i: int, j: int)
    requires
        s.wf(bf, map),
        0 <= i < s.structures@.len(),
        0 <= j < s.structures@[i].members@.len(),
        s.structures@[i].members@[j].pointer_type != PointerType::NoPointer,
        s.structures@[i].members@[j].dimensions@.len() == 0,
    ensures
        s.structures@[i].members@[j].size == bf.pointer_size,
{
    let m = catalog(bf, map)->0;
    let ps = bf.pointer_size as nat;
    let r = m.records[i];
    let f = r.fields[j];
    assert(structure_matches(s.structures@[i], m, s.types@, r, ps));
    assert(member_matches(s.structures@[i].members@[j], m.names[f.1 as int], s.types@[f.0 as int], ps, sum(field_sizes(m, r, ps).take(j))));
    assert(dims_of(m.names[f.1 as int]).len() == 0);
    assert(dims_of(m.names[f.1 as int]) =~= Seq::<nat>::empty());
    assert(product(dims_of(m.names[f.1 as int])) == 1);
    assert(pointer_kind_of(m.names[f.1 as int]) != PointerType::NoPointer);
    let pr = product(dims_of(m.names[f.1 as int]));
    assert(member_size(m.names[f.1 as int], s.types@[f.0 as int].size as nat, ps) == pr * ps);
    assert(pr * ps == ps) by (nonlinear_arith)
        requires
            pr == 1,
    ;
}

/// Every string a section yields is non-empty.
proof fn lemma_strings_nonempty(c: Seq<u8>, end: int, q: int, t: Tag)
    ensures
        strings_from(c, end, q, t) matches Some((v, p)) ==> forall|i: int|
            0 <= i < v.len() ==> (#[trigger] v[i]).len() > 0,
    decreases end - q,
{
    if 0 <= q <= end && !tag_at(c, end, q, t) {
        if let Some(z) = zero_from(c, end, q) {
            if q <= z < end {
                lemma_strings_nonempty(c, end, z + 1, t);
            }
        }
    }
}

/// Every type name of a read catalog is non-empty.
proof fn lemma_type_names_nonempty(bf: &BlenderFile, map: &FileBlockHeaderMap)
    requires
        catalog(bf, map) is Some,
    ensures
        forall|k: int|
            0 <= k < catalog(bf, map)->0.type_names.len() ==> (#[trigger] catalog(bf, map)->0.type_names[k]).len() > 0,
{
    let c = bf.content@;
    let e = bf.endian;
    let h = dna_block(map.blocks_spec())->0;
    let b = h.content_offset as int;
    let end = h.content_offset + h.size;
    let (names, t) = section(c, e, end, b + 4, Tag::Name, Tag::Type)->0;
    lemma_strings_nonempty(c, end, t + 8, Tag::Tlen);
    let m = catalog(bf, map)->0;
    let tys = section(c, e, end, t, Tag::Type, Tag::Tlen)->0;
    assert(m.type_names == as_text(tys.0));
    assert forall|k: int| 0 <= k < m.type_names.len() implies (#[trigger] m.type_names[k]).len() > 0 by {
        assert(tys.0[k].len() > 0);
    }
}

/// Every block other than `ENDB` names a record of the catalog, and that
/// record's type has a non-empty name.
pub proof fn lemma_block_record_named(s: &SDNA, bf: &BlenderFile, map: &FileBlockHeaderMap, b: int)
    requires
        s.wf(bf, map),
        0 <= b < map.blocks_spec().len(),
        map.blocks_spec()[b].code@ != "ENDB"@,
    ensures
        map.blocks_spec()[b].sdna_index < s.structures@.len(),
        s.structures@[map.blocks_spec()[b].sdna_index as int].ty.name@.len() > 0,
{
    let m = catalog(bf, map)->0;
    let ps = bf.pointer_size as nat;
    let i = map.blocks_spec()[b].sdna_index as int;
    assert(blocks_typed(map.blocks_spec(), m.records.len()));
    assert(i < m.records.len());
    let r = m.records[i];
    assert(structure_matches(s.structures@[i], m, s.types@, r, ps));
    assert(record_ok(m, r, ps));
    assert(type_of(s.types@[r.type_idx as int], m.type_names[r.type_idx as int], m.type_sizes[r.type_idx as int]));
    lemma_type_names_nonempty(bf, map);
}

} // verus!
