use vstd::prelude::*;

pub use crate::query::Value;

verus! {

/// How many levels of indirection a member declares.
#[derive(Debug, Clone, Copy, PartialEq, Eq, Structural)]
pub enum PointerType {
    NoPointer,
    Pointer,
    PointerPointer,
}

/// The leaf kind of a member: one of the built-in scalars, or a record.
#[derive(Debug)]
pub enum StructureType {
    Complex(String),
    Char,
    UChar,
    Short,
    UShort,
    Int,
    Long,
    ULong,
    Float,
    Double,
    Int64,
    UInt64,
    Void,
}

/// A type of the catalog: its name and its size in bytes.
#[derive(Debug)]
pub struct Type {
    pub name: String,
    pub size: usize,
    pub is_simple: bool,
    pub is_timer: bool,
}

/// One field of a record.
#[derive(Debug)]
pub struct Member {
    pub identifier: String,
    pub declaration: String,
    pub ty: Type,
    pub offset: usize,
    pub pointer_type: PointerType,
    pub structure_type: StructureType,
    pub dimensions: Vec<usize>,
    pub size: usize,
}

/// A record of the catalog: its type and its members in declaration order.
#[derive(Debug)]
pub struct Structure {
    pub ty: Type,
    pub members: Vec<Member>,
}

/// The decoded catalog: its types, and its records in catalog order.
#[derive(Debug)]
pub struct SDNA {
    pub types: Vec<Type>,
    pub structures: Vec<Structure>,
}

/// Whether `n` names one of the built-in scalar types.
pub open spec fn is_simple_name(n: Seq<char>) -> bool {
    ||| n == "char"@
    ||| n == "uchar"@
    ||| n == "short"@
    ||| n == "ushort"@
    ||| n == "int"@
    ||| n == "long"@
    ||| n == "ulong"@
    ||| n == "float"@
    ||| n == "double"@
    ||| n == "int64_t"@
    ||| n == "uint64_t"@
    ||| n == "void"@
}

pub open spec fn timer_chars() -> Seq<char> {
    seq!['T', 'i', 'm', 'e', 'r']
}

/// Whether `n` contains `Timer`.
pub open spec fn contains_timer(n: Seq<char>) -> bool {
    exists|i: int| 0 <= i && i + 5 <= n.len() && #[trigger] n.subrange(i, i + 5) == timer_chars()
}

/// Whether `st` is the leaf kind that the type name `n` stands for.
pub open spec fn structure_type_of(st: StructureType, n: Seq<char>) -> bool {
    match st {
        StructureType::Char => n == "char"@,
        StructureType::UChar => n == "uchar"@,
        StructureType::Short => n == "short"@,
        StructureType::UShort => n == "ushort"@,
        StructureType::Int => n == "int"@,
        StructureType::Long => n == "long"@,
        StructureType::ULong => n == "ulong"@,
        StructureType::Float => n == "float"@,
        StructureType::Double => n == "double"@,
        StructureType::Int64 => n == "int64_t"@,
        StructureType::UInt64 => n == "uint64_t"@,
        StructureType::Void => n == "void"@,
        StructureType::Complex(s) => s@ == n && !is_simple_name(n),
    }
}

/// Whether `t` is the type named `name` of `size` bytes.
pub open spec fn type_of(t: Type, name: Seq<char>, size: nat) -> bool {
    &&& t.name@ == name
    &&& t.size == size
    &&& t.is_simple == is_simple_name(name)
    &&& t.is_timer == contains_timer(name)
}

/// The first index at or after `i` of a member whose identifier is `name`.
pub open spec fn member_from(ms: Seq<Member>, name: Seq<char>, i: int) -> Option<int>
    decreases ms.len() - i,
{
    if i < 0 || i >= ms.len() {
        None
    } else if ms[i].identifier@ == name {
        Some(i)
    } else {
        member_from(ms, name, i + 1)
    }
}

/// The first index at or after `i` of a record whose type is named `name`.
pub open spec fn structure_from(ss: Seq<Structure>, name: Seq<char>, i: int) -> Option<int>
    decreases ss.len() - i,
{
    if i < 0 || i >= ss.len() {
        None
    } else if ss[i].ty.name@ == name {
        Some(i)
    } else {
        structure_from(ss, name, i + 1)
    }
}

/// A record found from index `i` on stands at or after `i` and carries the name.
proof fn lemma_structure_from(ss: Seq<Structure>, name: Seq<char>, i: int)
    ensures
        structure_from(ss, name, i) matches Some(k) ==> i <= k < ss.len() && ss[k].ty.name@
            == name,
    decreases ss.len() - i,
{
    if 0 <= i < ss.len() && ss[i].ty.name@ != name {
        lemma_structure_from(ss, name, i + 1);
    }
}

impl Type {
    /// The type named `name` of `size` bytes.
    pub fn new(name: String, size: usize) -> (r: Type)
        ensures
            type_of(r, name@, size as nat),
    {
        let is_simple = SDNA::is_simple(&name);
        let is_timer = contains_timer_exec(&name);
        Type { name, size, is_simple, is_timer }
    }

    /// A copy of this type.
    pub fn duplicate(&self) -> (r: Type)
        ensures
            r == *self,
    {
        Type {
            name: self.name.clone(),
            size: self.size,
            is_simple: self.is_simple,
            is_timer: self.is_timer,
        }
    }
}

/// Whether `name` contains `Timer`.
fn contains_timer_exec(name: &String) -> (r: bool)
    ensures
        r == contains_timer(name@),
{
    let s = name.as_str();
    let n = s.unicode_len();
    if n < 5 {
        return false;
    }
    let mut i: usize = 0;
    while i <= n - 5
        invariant
            5 <= n == s@.len() == name@.len(),
            s@ == name@,
            forall|k: int| 0 <= k < i ==> #[trigger] name@.subrange(k, k + 5) != timer_chars(),
        decreases n - i,
    {
        if s.get_char(i) == 'T' && s.get_char(i + 1) == 'i' && s.get_char(i + 2) == 'm'
            && s.get_char(i + 3) == 'e' && s.get_char(i + 4) == 'r' {
            assert(name@.subrange(i as int, i + 5) =~= timer_chars());
            return true;
        }
        assert(name@.subrange(i as int, i + 5) != timer_chars()) by {
            if name@.subrange(i as int, i + 5) == timer_chars() {
                assert(name@.subrange(i as int, i + 5)[0] == name@[i as int]);
                assert(name@.subrange(i as int, i + 5)[1] == name@[i + 1]);
                assert(name@.subrange(i as int, i + 5)[2] == name@[i + 2]);
                assert(name@.subrange(i as int, i + 5)[3] == name@[i + 3]);
                assert(name@.subrange(i as int, i + 5)[4] == name@[i + 4]);
            }
        }
        i += 1;
    }
    false
}

impl Structure {
    /// The name of this record's type.
    pub fn name(&self) -> (r: String)
        ensures
            r@ == self.ty.name@,
    {
        self.ty.name.clone()
    }

    /// The first member whose identifier is `name`.
    pub fn member(&self, name: &String) -> (r: Option<&Member>)
        ensures
            match member_from(self.members@, name@, 0) {
                Some(k) => r == Some(&self.members@[k]),
                None => r is None,
            },
    {
        let mut i: usize = 0;
        while i < self.members.len()
            invariant
                i <= self.members@.len(),
                member_from(self.members@, name@, 0) == member_from(self.members@, name@, i as int),
            decreases self.members@.len() - i,
        {
            if self.members[i].identifier == *name {
                return Some(&self.members[i]);
            }
            i += 1;
        }
        None
    }
}

impl SDNA {
    /// The index of the first record whose type is named `name`.
    pub open spec fn record_index(&self, name: Seq<char>) -> Option<int> {
        structure_from(self.structures@, name, 0)
    }

    /// The first record whose type is named `name`.
    pub fn structure(&self, name: &String) -> (r: Option<&Structure>)
        ensures
            match self.record_index(name@) {
                Some(k) => r == Some(&self.structures@[k]),
                None => r is None,
            },
    {
        let mut i: usize = 0;
        while i < self.structures.len()
            invariant
                i <= self.structures@.len(),
                structure_from(self.structures@, name@, 0) == structure_from(
                    self.structures@,
                    name@,
                    i as int,
                ),
            decreases self.structures@.len() - i,
        {
            if self.structures[i].ty.name == *name {
                return Some(&self.structures[i]);
            }
            i += 1;
        }
        None
    }

    /// The record at index `idx` of the catalog.
    pub fn structure_by_index(&self, idx: usize) -> (r: Option<&Structure>)
        ensures
            idx < self.structures@.len() ==> r == Some(&self.structures@[idx as int]),
            idx >= self.structures@.len() ==> r is None,
    {
        if idx < self.structures.len() {
            Some(&self.structures[idx])
        } else {
            None
        }
    }

    /// Whether `source` names one of the built-in scalar types.
    pub fn is_simple(source: &String) -> (r: bool)
        ensures
            r == is_simple_name(source@),
    {
        *source == "char".to_owned() || *source == "uchar".to_owned() || *source
            == "short".to_owned() || *source == "ushort".to_owned() || *source
            == "int".to_owned() || *source == "long".to_owned() || *source == "ulong".to_owned()
            || *source == "float".to_owned() || *source == "double".to_owned() || *source
            == "int64_t".to_owned() || *source == "uint64_t".to_owned() || *source
            == "void".to_owned()
    }

    /// The leaf kind that the type `ty` stands for.
    pub fn get_structure_type(ty: &Type) -> (r: StructureType)
        ensures
            structure_type_of(r, ty.name@),
    {
        let n = &ty.name;
        if *n == "char".to_owned() {
            StructureType::Char
        } else if *n == "uchar".to_owned() {
            StructureType::UChar
        } else if *n == "short".to_owned() {
            StructureType::Short
        } else if *n == "ushort".to_owned() {
            StructureType::UShort
        } else if *n == "int".to_owned() {
            StructureType::Int
        } else if *n == "long".to_owned() {
            StructureType::Long
        } else if *n == "ulong".to_owned() {
            StructureType::ULong
        } else if *n == "float".to_owned() {
            StructureType::Float
        } else if *n == "double".to_owned() {
            StructureType::Double
        } else if *n == "int64_t".to_owned() {
            StructureType::Int64
        } else if *n == "uint64_t".to_owned() {
            StructureType::UInt64
        } else if *n == "void".to_owned() {
            StructureType::Void
        } else {
            StructureType::Complex(n.clone())
        }
    }
}

/// Looking a record up by name and then by the index where it was found
/// gives back a record of that name.
pub proof fn lemma_record_by_name_then_index(s: &SDNA, name: Seq<char>)
    requires
        s.record_index(name) is Some,
    ensures
        0 <= s.record_index(name)->0 < s.structures@.len(),
        s.structures@[s.record_index(name)->0].ty.name@ == name,
{
    lemma_structure_from(s.structures@, name, 0);
}

} // verus!
