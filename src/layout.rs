//! Record layout: members synthesized from their declarations, their sizes
//! and offsets, and the records built from the structure section.
use vstd::prelude::*;

use crate::decl::{
    dimensions, dims_of, dims_ok, identifier, identifier_of, pointer_kind, pointer_kind_of, product,
};
use crate::dna::{as_text, views};
use crate::sdna::{Member, PointerType, SDNA, Structure, Type, structure_type_of, type_of};
use crate::text::{byte_chars, string_of_bytes};

verus! {

/// The size of a member declared as `decl` of a type of `ty_size` bytes:
/// the product of its dimensions times the pointer width for a pointer,
/// times the type's size otherwise.
pub open spec fn member_size(decl: Seq<char>, ty_size: nat, ps: nat) -> nat {
    product(dims_of(decl)) * (if pointer_kind_of(decl) == PointerType::NoPointer {
        ty_size
    } else {
        ps
    })
}

/// Whether every partial product of `d` fits in `usize`.
pub open spec fn products_fit(d: Seq<nat>) -> bool {
    forall|k: int| 0 <= k <= d.len() ==> #[trigger] product(d.take(k)) <= usize::MAX
}

/// Whether the declaration `decl` parses and its size fits in `usize`.
pub open spec fn layout_fits(decl: Seq<char>, ty_size: nat, ps: nat) -> bool {
    &&& dims_ok(decl)
    &&& products_fit(dims_of(decl))
    &&& member_size(decl, ty_size, ps) <= usize::MAX
}

/// Whether `m` is the member declared as `decl` of type `ty` at `offset`.
pub open spec fn member_matches(m: Member, decl: Seq<char>, ty: Type, ps: nat, offset: nat) -> bool {
    &&& m.identifier@ == identifier_of(decl)
    &&& m.declaration@ == decl
    &&& m.ty == ty
    &&& m.offset == offset
    &&& m.pointer_type == pointer_kind_of(decl)
    &&& structure_type_of(m.structure_type, ty.name@)
    &&& m.dimensions@.map_values(|x: usize| x as nat) == dims_of(decl)
    &&& m.size == member_size(decl, ty.size as nat, ps)
}

/// The member declared as `decl` of type `ty` at `offset`, or `None` where
/// the declaration does not parse or its size does not fit in `usize`.
pub fn make_member(decl: &Vec<u8>, ty: &Type, ps: usize, offset: usize) -> (r: Option<Member>)
    ensures
        match r {
            Some(m) => layout_fits(byte_chars(decl@), ty.size as nat, ps as nat) && member_matches(
                m,
                byte_chars(decl@),
                *ty,
                ps as nat,
                offset as nat,
            ),
            None => !layout_fits(byte_chars(decl@), ty.size as nat, ps as nat),
        },
{
    let ghost text = byte_chars(decl@);
    let dims = match dimensions(decl) {
        Some(d) => d,
        None => return None,
    };
    let ghost dn = dims@.map_values(|x: usize| x as nat);
    let mut overall: usize = 1;
    let mut k: usize = 0;
    while k < dims.len()
        invariant
            k <= dims@.len() == dn.len(),
            dn == dims@.map_values(|x: usize| x as nat),
            dn == dims_of(text),
            text == byte_chars(decl@),
            overall == product(dn.take(k as int)),
            forall|j: int| 0 <= j <= k ==> #[trigger] product(dn.take(j)) <= usize::MAX,
        decreases dims@.len() - k,
    {
        assert(dn.take(k + 1).drop_last() =~= dn.take(k as int));
        match overall.checked_mul(dims[k]) {
            Some(v) => {
                overall = v;
            },
            None => {
                assert(dn.take(k + 1).last() == dims@[k as int]);
                assert(product(dn.take(k + 1)) == overall * dims@[k as int]);
                assert(!products_fit(dn)) by {
                    assert(product(dn.take(k + 1)) > usize::MAX);
                }
                assert(dn == dims_of(text));
                return None;
            },
        }
        k += 1;
    }
    assert(dn.take(dn.len() as int) =~= dn);
    assert(products_fit(dn));
    let pointer_type = pointer_kind(decl);
    let unit = match pointer_type {
        PointerType::NoPointer => ty.size,
        _ => ps,
    };
    let size = match overall.checked_mul(unit) {
        Some(v) => v,
        None => return None,
    };
    let identifier = identifier(decl);
    let declaration = string_of_bytes(decl, 0, decl.len());
    assert(decl@.subrange(0, decl@.len() as int) =~= decl@);
    let structure_type = SDNA::get_structure_type(ty);
    Some(
        Member {
            identifier,
            declaration,
            ty: ty.duplicate(),
            offset,
            pointer_type,
            structure_type,
            dimensions: dims,
            size,
        },
    )
}

/// One record of the structure section, as its indices stand in the file.
pub struct RawRecord {
    pub type_idx: nat,
    pub fields: Seq<(nat, nat)>,
}

/// What the catalog holds: member declarations, type names and sizes, and
/// the records.
pub struct DnaModel {
    pub names: Seq<Seq<char>>,
    pub type_names: Seq<Seq<char>>,
    pub type_sizes: Seq<nat>,
    pub records: Seq<RawRecord>,
}

/// One record of the structure section as read: its type index and its
/// (type index, name index) pairs.
pub struct RawStructure {
    pub type_index: usize,
    pub fields: Vec<(usize, usize)>,
}

impl View for RawStructure {
    type V = RawRecord;

    open spec fn view(&self) -> RawRecord {
        RawRecord {
            type_idx: self.type_index as nat,
            fields: self.fields@.map_values(|f: (usize, usize)| (f.0 as nat, f.1 as nat)),
        }
    }
}

/// The sum of `s`.
pub open spec fn sum(s: Seq<nat>) -> nat
    decreases s.len(),
{
    if s.len() == 0 {
        0
    } else {
        sum(s.drop_last()) + s.last()
    }
}

/// The sizes of the members of `r`, in order.
pub open spec fn field_sizes(m: DnaModel, r: RawRecord, ps: nat) -> Seq<nat> {
    Seq::new(
        r.fields.len(),
        |j: int| member_size(m.names[r.fields[j].1 as int], m.type_sizes[r.fields[j].0 as int], ps),
    )
}

/// Whether the indices of `r` are in range, each member's layout fits, and
/// each member's offset fits in `usize`.
pub open spec fn record_ok(m: DnaModel, r: RawRecord, ps: nat) -> bool {
    &&& r.type_idx < m.type_names.len()
    &&& forall|j: int|
        0 <= j < r.fields.len() ==> {
            &&& (#[trigger] r.fields[j]).0 < m.type_names.len()
            &&& r.fields[j].1 < m.names.len()
            &&& layout_fits(m.names[r.fields[j].1 as int], m.type_sizes[r.fields[j].0 as int], ps)
        }
    &&& forall|j: int| 0 <= j < r.fields.len() ==> #[trigger] sum(field_sizes(m, r, ps).take(j)) <= usize::MAX
}

/// Whether `s` is the record `r` built over `types`: each member at the sum
/// of the sizes of those before it.
pub open spec fn structure_matches(s: Structure, m: DnaModel, types: Seq<Type>, r: RawRecord, ps: nat) -> bool {
    &&& s.ty == types[r.type_idx as int]
    &&& s.members@.len() == r.fields.len()
    &&& forall|j: int|
        0 <= j < r.fields.len() ==> member_matches(
            #[trigger] s.members@[j],
            m.names[r.fields[j].1 as int],
            types[r.fields[j].0 as int],
            ps,
            sum(field_sizes(m, r, ps).take(j)),
        )
}

/// Whether `types` holds exactly the types of `m`.
pub open spec fn types_match(types: Seq<Type>, m: DnaModel) -> bool {
    &&& types.len() == m.type_names.len() == m.type_sizes.len()
    &&& forall|i: int| 0 <= i < types.len() ==> type_of(#[trigger] types[i], m.type_names[i], m.type_sizes[i])
}

/// The record `raw`, or `None` where it is not `record_ok`.
pub(crate) fn build_structure(
    names: &Vec<Vec<u8>>,
    types: &Vec<Type>,
    raw: &RawStructure,
    ps: usize,
    Ghost(m): Ghost<DnaModel>,
) -> (r: Option<Structure>)
    requires
        as_text(views(names@)) == m.names,
        types_match(types@, m),
    ensures
        match r {
            Some(s) => record_ok(m, raw@, ps as nat) && structure_matches(s, m, types@, raw@, ps as nat),
            None => !record_ok(m, raw@, ps as nat),
        },
{
    let ghost rr = raw@;
    let ghost sizes = field_sizes(m, rr, ps as nat);
    if raw.type_index >= types.len() {
        return None;
    }
    let ty = types[raw.type_index].duplicate();
    let mut members: Vec<Member> = Vec::new();
    let mut offset: usize = 0;
    let nf = raw.fields.len();
    let mut j: usize = 0;
    while j < nf
        invariant
            nf == raw.fields@.len() == rr.fields.len() == sizes.len(),
            rr == raw@,
            sizes == field_sizes(m, rr, ps as nat),
            as_text(views(names@)) == m.names,
            types_match(types@, m),
            j <= nf,
            members@.len() == j,
            j > 0 ==> offset == sum(sizes.take(j - 1)),
            forall|i: int|
                0 <= i < j ==> {
                    &&& (#[trigger] rr.fields[i]).0 < m.type_names.len()
                    &&& rr.fields[i].1 < m.names.len()
                    &&& layout_fits(m.names[rr.fields[i].1 as int], m.type_sizes[rr.fields[i].0 as int], ps as nat)
                },
            forall|i: int| 0 <= i < j ==> #[trigger] sum(sizes.take(i)) <= usize::MAX,
            forall|i: int|
                0 <= i < j ==> member_matches(
                    #[trigger] members@[i],
                    m.names[rr.fields[i].1 as int],
                    types@[rr.fields[i].0 as int],
                    ps as nat,
                    sum(sizes.take(i)),
                ),
        decreases nf - j,
    {
        let (t, n) = raw.fields[j];
        assert(rr.fields[j as int] == (t as nat, n as nat));
        if t >= types.len() || n >= names.len() {
            return None;
        }
        let here = if j == 0 {
            0
        } else {
            let prev = members[j - 1].size;
            assert(sizes.take(j as int).drop_last() =~= sizes.take(j - 1));
            assert(prev == sizes[j - 1]);
            match offset.checked_add(prev) {
                Some(v) => v,
                None => {
                    assert(sum(sizes.take(j as int)) > usize::MAX);
                    return None;
                },
            }
        };
        assert(here == sum(sizes.take(j as int)));
        assert(byte_chars(names@[n as int]@) == m.names[n as int]);
        let member = match make_member(&names[n], &types[t], ps, here) {
            Some(mb) => mb,
            None => return None,
        };
        assert(member.size == sizes[j as int]);
        members.push(member);
        offset = here;
        j += 1;
    }
    Some(Structure { ty, members })
}

/// Whether every record of `m` is `record_ok`.
pub open spec fn dna_valid(m: DnaModel, ps: nat) -> bool {
    forall|i: int| 0 <= i < m.records.len() ==> record_ok(m, #[trigger] m.records[i], ps)
}

/// Whether `s` holds exactly the types and records of `m`.
pub open spec fn sdna_matches(s: SDNA, m: DnaModel, ps: nat) -> bool {
    &&& types_match(s.types@, m)
    &&& s.structures@.len() == m.records.len()
    &&& forall|i: int|
        0 <= i < m.records.len() ==> structure_matches(
            #[trigger] s.structures@[i],
            m,
            s.types@,
            m.records[i],
            ps,
        )
}

/// The records of `raws` built over `types`, or `None` where one is not
/// `record_ok`.
pub(crate) fn add_structures(
    names: &Vec<Vec<u8>>,
    types: &Vec<Type>,
    raws: &Vec<RawStructure>,
    ps: usize,
    Ghost(m): Ghost<DnaModel>,
) -> (r: Option<Vec<Structure>>)
    requires
        as_text(views(names@)) == m.names,
        types_match(types@, m),
        raws@.len() == m.records.len(),
        forall|i: int| 0 <= i < raws@.len() ==> (#[trigger] raws@[i])@ == m.records[i],
    ensures
        match r {
            Some(v) => dna_valid(m, ps as nat) && v@.len() == m.records.len() && forall|i: int|
                0 <= i < m.records.len() ==> structure_matches(
                    #[trigger] v@[i],
                    m,
                    types@,
                    m.records[i],
                    ps as nat,
                ),
            None => !dna_valid(m, ps as nat),
        },
{
    let mut out: Vec<Structure> = Vec::new();
    let mut i: usize = 0;
    while i < raws.len()
        invariant
            as_text(views(names@)) == m.names,
            types_match(types@, m),
            raws@.len() == m.records.len(),
            forall|k: int| 0 <= k < raws@.len() ==> (#[trigger] raws@[k])@ == m.records[k],
            i <= raws@.len(),
            out@.len() == i,
            forall|k: int| 0 <= k < i ==> record_ok(m, #[trigger] m.records[k], ps as nat),
            forall|k: int|
                0 <= k < i ==> structure_matches(#[trigger] out@[k], m, types@, m.records[k], ps as nat),
        decreases raws@.len() - i,
    {
        match build_structure(names, types, &raws[i], ps, Ghost(m)) {
            Some(st) => {
                out.push(st);
            },
            None => {
                assert(!record_ok(m, m.records[i as int], ps as nat));
                return None;
            },
        }
        i += 1;
    }
    Some(out)
}

} // verus!
