//! A human-readable listing of a record and its members.
use vstd::prelude::*;

use crate::sdna::{Member, PointerType, Structure, StructureType};
use crate::text::push_char;

verus! {

pub open spec fn digit_char(d: nat) -> char {
    ((d + 48) as u8) as char
}

/// The decimal digits of `n`.
pub open spec fn dec(n: nat) -> Seq<char>
    decreases n,
{
    if n < 10 {
        seq![digit_char(n)]
    } else {
        dec(n / 10).push(digit_char(n % 10))
    }
}

/// `s` cut or filled with spaces to `w` characters.
pub open spec fn padded(s: Seq<char>, w: nat) -> Seq<char> {
    if s.len() >= w {
        s.take(w as int)
    } else {
        s + Seq::new((w - s.len()) as nat, |i: int| ' ')
    }
}

pub open spec fn kind_text(st: StructureType) -> Seq<char> {
    match st {
        StructureType::Complex(n) => "Complex(\""@ + n@ + "\")"@,
        StructureType::Char => "Char"@,
        StructureType::UChar => "UChar"@,
        StructureType::Short => "Short"@,
        StructureType::UShort => "UShort"@,
        StructureType::Int => "Int"@,
        StructureType::Long => "Long"@,
        StructureType::ULong => "ULong"@,
        StructureType::Float => "Float"@,
        StructureType::Double => "Double"@,
        StructureType::Int64 => "Int64"@,
        StructureType::UInt64 => "UInt64"@,
        StructureType::Void => "Void"@,
    }
}

pub open spec fn pointer_text(p: PointerType) -> Seq<char> {
    match p {
        PointerType::Pointer => ", pointer"@,
        PointerType::PointerPointer => ", pPointer"@,
        PointerType::NoPointer => Seq::empty(),
    }
}

pub open spec fn dims_text(n: nat) -> Seq<char> {
    if n > 0 {
        ", "@ + dec(n) + "-dim array"@
    } else {
        Seq::empty()
    }
}

/// One line of the listing: type, declaration, size, offset, kind, and
/// notes on indirection and dimensions.
pub open spec fn member_line(m: Member) -> Seq<char> {
    "\t"@ + padded(m.ty.name@, 20) + "\t"@ + padded(m.declaration@, 25) + "\t("@ + dec(
        m.size as nat,
    ) + ")\t("@ + dec(m.offset as nat) + ")\t("@ + kind_text(m.structure_type) + pointer_text(
        m.pointer_type,
    ) + dims_text(m.dimensions@.len()) + ");\n"@
}

pub open spec fn member_lines(ms: Seq<Member>) -> Seq<char>
    decreases ms.len(),
{
    if ms.len() == 0 {
        Seq::empty()
    } else {
        member_lines(ms.drop_last()) + member_line(ms.last())
    }
}

/// The listing of `s`: its name, then one line per member, in braces.
pub open spec fn pretty_text(s: Structure) -> Seq<char> {
    s.ty.name@ + " {\n"@ + member_lines(s.members@) + "}\n"@
}

/// The decimal digits of `n`.
pub fn decimal_string(n: usize) -> (r: String)
    ensures
        r@ == dec(n as nat),
    decreases n,
{
    let d: u8 = (n % 10) as u8 + 48;
    if n < 10 {
        let mut s = String::new();
        push_char(&mut s, d as char);
        s
    } else {
        let mut s = decimal_string(n / 10);
        push_char(&mut s, d as char);
        s
    }
}

/// `s` cut or filled with spaces to `w` characters.
fn padded_string(s: &String, w: usize) -> (r: String)
    ensures
        r@ == padded(s@, w as nat),
{
    let t = s.as_str();
    let n = t.unicode_len();
    let mut out = String::new();
    let mut i: usize = 0;
    while i < w && i < n
        invariant
            n == t@.len() == s@.len(),
            t@ == s@,
            i <= w,
            i <= n,
            out@ == s@.take(i as int),
        decreases w - i,
    {
        let ch = t.get_char(i);
        push_char(&mut out, ch);
        assert(s@.take(i + 1) =~= s@.take(i as int).push(ch));
        i += 1;
    }
    if n >= w {
        return out;
    }
    assert(s@.take(n as int) =~= s@);
    while i < w
        invariant
            n <= i <= w,
            n == s@.len(),
            out@ == s@ + Seq::new((i - n) as nat, |k: int| ' '),
        decreases w - i,
    {
        push_char(&mut out, ' ');
        assert(s@ + Seq::new((i + 1 - n) as nat, |k: int| ' ') =~= (s@ + Seq::new(
            (i - n) as nat,
            |k: int| ' ',
        )).push(' '));
        i += 1;
    }
    out
}

fn kind_string(st: &StructureType) -> (r: String)
    ensures
        r@ == kind_text(*st),
{
    match st {
        StructureType::Complex(n) => {
            let mut out = "Complex(\"".to_owned();
            out.append(n.as_str());
            out.append("\")");
            out
        },
        StructureType::Char => "Char".to_owned(),
        StructureType::UChar => "UChar".to_owned(),
        StructureType::Short => "Short".to_owned(),
        StructureType::UShort => "UShort".to_owned(),
        StructureType::Int => "Int".to_owned(),
        StructureType::Long => "Long".to_owned(),
        StructureType::ULong => "ULong".to_owned(),
        StructureType::Float => "Float".to_owned(),
        StructureType::Double => "Double".to_owned(),
        StructureType::Int64 => "Int64".to_owned(),
        StructureType::UInt64 => "UInt64".to_owned(),
        StructureType::Void => "Void".to_owned(),
    }
}

fn pointer_string(p: PointerType) -> (r: String)
    ensures
        r@ == pointer_text(p),
{
    match p {
        PointerType::Pointer => ", pointer".to_owned(),
        PointerType::PointerPointer => ", pPointer".to_owned(),
        PointerType::NoPointer => String::new(),
    }
}

fn dims_string(n: usize) -> (r: String)
    ensures
        r@ == dims_text(n as nat),
{
    if n > 0 {
        let mut out = ", ".to_owned();
        out.append(decimal_string(n).as_str());
        out.append("-dim array");
        out
    } else {
        String::new()
    }
}

/// The listing line of member `m`.
fn member_line_string(m: &Member) -> (r: String)
    ensures
        r@ == member_line(*m),
{
    let mut out = "\t".to_owned();
    out.append(padded_string(&m.ty.name, 20).as_str());
    out.append("\t");
    out.append(padded_string(&m.declaration, 25).as_str());
    out.append("\t(");
    out.append(decimal_string(m.size).as_str());
    out.append(")\t(");
    out.append(decimal_string(m.offset).as_str());
    out.append(")\t(");
    out.append(kind_string(&m.structure_type).as_str());
    out.append(pointer_string(m.pointer_type).as_str());
    out.append(dims_string(m.dimensions.len()).as_str());
    out.append(");\n");
    out
}

impl Structure {
    /// A listing of this record: its name, then one line per member giving
    /// type, declaration, size, offset and kind.
    pub fn pretty_print(&self) -> (r: String)
        ensures
            r@ == pretty_text(*self),
    {
        let mut out = self.ty.name.clone();
        out.append(" {\n");
        let mut i: usize = 0;
        while i < self.members.len()
            invariant
                i <= self.members@.len(),
                out@ == self.ty.name@ + " {\n"@ + member_lines(self.members@.take(i as int)),
            decreases self.members@.len() - i,
        {
            let line = member_line_string(&self.members[i]);
            out.append(line.as_str());
            proof {
                let ms = self.members@.take(i + 1);
                assert(ms.drop_last() =~= self.members@.take(i as int));
                assert(ms.last() == self.members@[i as int]);
                assert(out@ =~= self.ty.name@ + " {\n"@ + member_lines(ms));
            }
            i += 1;
        }
        assert(self.members@.take(self.members@.len() as int) =~= self.members@);
        out.append("}\n");
        out
    }
}

} // verus!
