//! The grammar of a member declaration as the catalog stores it: leading
//! `*` for indirection, an identifier, and bracketed array dimensions
//! (`*data`, `**mat`, `co[3]`, `mat[4][4]`).
use vstd::prelude::*;

use crate::sdna::PointerType;
use crate::text::{byte_chars, push_char};

verus! {

/// `[_A-Za-z0-9]`.
pub open spec fn is_ident_char(ch: char) -> bool {
    ||| 'a' <= ch <= 'z'
    ||| 'A' <= ch <= 'Z'
    ||| '0' <= ch <= '9'
    ||| ch == '_'
}

/// First index at or after `i` that holds an identifier character, or the length.
pub open spec fn skip_to_ident(s: Seq<char>, i: int) -> int
    decreases s.len() - i,
{
    if i >= s.len() || is_ident_char(s[i]) {
        i
    } else {
        skip_to_ident(s, i + 1)
    }
}

/// First index at or after `i` that holds no identifier character, or the length.
pub open spec fn ident_end(s: Seq<char>, i: int) -> int
    decreases s.len() - i,
{
    if i >= s.len() || !is_ident_char(s[i]) {
        i
    } else {
        ident_end(s, i + 1)
    }
}

/// The leftmost longest run of identifier characters of `s` (empty if none).
pub open spec fn identifier_of(s: Seq<char>) -> Seq<char> {
    let start = skip_to_ident(s, 0);
    s.subrange(start, ident_end(s, start))
}

/// `PointerPointer` for `**` followed by an identifier character, `Pointer`
/// for `*` followed by one, `NoPointer` otherwise.
pub open spec fn pointer_kind_of(s: Seq<char>) -> PointerType {
    if s.len() >= 3 && s[0] == '*' && s[1] == '*' && is_ident_char(s[2]) {
        PointerType::PointerPointer
    } else if s.len() >= 2 && s[0] == '*' && is_ident_char(s[1]) {
        PointerType::Pointer
    } else {
        PointerType::NoPointer
    }
}

/// First index at or after `j` that holds `]`.
pub open spec fn close_from(s: Seq<char>, j: int) -> Option<int>
    decreases s.len() - j,
{
    if j < 0 || j >= s.len() {
        None
    } else if s[j] == ']' {
        Some(j)
    } else {
        close_from(s, j + 1)
    }
}

/// The texts between `[` and the next `]` from index `i` on, each non-empty,
/// in order and without overlap.
pub open spec fn groups_from(s: Seq<char>, i: int) -> Seq<Seq<char>>
    decreases s.len() - i,
{
    if i < 0 || i >= s.len() {
        Seq::empty()
    } else if s[i] == '[' && i + 1 < s.len() && s[i + 1] != ']' && close_from(s, i + 1) is Some
        && i < close_from(s, i + 1)->0 < s.len() {
        let k = close_from(s, i + 1)->0;
        seq![s.subrange(i + 1, k)] + groups_from(s, k + 1)
    } else {
        groups_from(s, i + 1)
    }
}

pub open spec fn is_digit_char(ch: char) -> bool {
    '0' <= ch <= '9'
}

/// The value of the decimal digits `s`.
pub open spec fn decimal(s: Seq<char>) -> nat
    decreases s.len(),
{
    if s.len() == 0 {
        0
    } else {
        decimal(s.drop_last()) * 10 + (s.last() as nat - '0' as nat) as nat
    }
}

/// Whether `s` is a non-empty run of decimal digits whose value fits in `usize`.
pub open spec fn is_dimension(s: Seq<char>) -> bool {
    &&& s.len() > 0
    &&& forall|i: int| 0 <= i < s.len() ==> is_digit_char(#[trigger] s[i])
    &&& decimal(s) <= usize::MAX
}

/// Whether every bracket group of `s` is a dimension.
pub open spec fn dims_ok(s: Seq<char>) -> bool {
    forall|i: int| 0 <= i < groups_from(s, 0).len() ==> is_dimension(#[trigger] groups_from(s, 0)[i])
}

/// The dimensions of `s`, outer to inner.
pub open spec fn dims_of(s: Seq<char>) -> Seq<nat> {
    groups_from(s, 0).map_values(|g: Seq<char>| decimal(g))
}

/// The product of `s`, 1 when empty.
pub open spec fn product(s: Seq<nat>) -> nat
    decreases s.len(),
{
    if s.len() == 0 {
        1
    } else {
        product(s.drop_last()) * s.last()
    }
}

proof fn lemma_decimal_prefix(s: Seq<char>, i: int)
    requires
        0 <= i <= s.len(),
        forall|k: int| 0 <= k < s.len() ==> is_digit_char(#[trigger] s[k]),
    ensures
        decimal(s.subrange(0, i)) <= decimal(s),
    decreases s.len() - i,
{
    if i < s.len() {
        lemma_decimal_prefix(s, i + 1);
        assert(s.subrange(0, i + 1).drop_last() =~= s.subrange(0, i));
    } else {
        assert(s.subrange(0, i) =~= s);
    }
}

/// Whether byte `b` read as a character is an identifier character.
fn ident_byte(b: u8) -> (r: bool)
    ensures
        r == is_ident_char(b as char),
{
    (0x61 <= b && b <= 0x7a) || (0x41 <= b && b <= 0x5a) || (0x30 <= b && b <= 0x39) || b == 0x5f
}

/// The identifier of the declaration `d`.
pub fn identifier(d: &Vec<u8>) -> (r: String)
    ensures
        r@ == identifier_of(byte_chars(d@)),
{
    let ghost s = byte_chars(d@);
    let n = d.len();
    let mut i: usize = 0;
    while i < n && !ident_byte(d[i])
        invariant
            i <= n == d@.len() == s.len(),
            s == byte_chars(d@),
            skip_to_ident(s, 0) == skip_to_ident(s, i as int),
        decreases n - i,
    {
        i += 1;
    }
    let ghost start = i as int;
    assert(skip_to_ident(s, 0) == start);
    let mut r = String::new();
    while i < n && ident_byte(d[i])
        invariant
            0 <= start <= i <= n == d@.len() == s.len(),
            s == byte_chars(d@),
            ident_end(s, start) == ident_end(s, i as int),
            r@ == s.subrange(start, i as int),
        decreases n - i,
    {
        let ghost before = r@;
        push_char(&mut r, d[i] as char);
        assert(s[i as int] == d@[i as int] as char);
        assert(r@ == before.push(s[i as int]));
        assert(s.subrange(start, i + 1) =~= before.push(s[i as int]));
        i += 1;
    }
    r
}

/// The pointer kind of the declaration `d`.
pub fn pointer_kind(d: &Vec<u8>) -> (r: PointerType)
    ensures
        r == pointer_kind_of(byte_chars(d@)),
{
    let n = d.len();
    if n >= 3 && d[0] == 0x2a && d[1] == 0x2a && ident_byte(d[2]) {
        PointerType::PointerPointer
    } else if n >= 2 && d[0] == 0x2a && ident_byte(d[1]) {
        PointerType::Pointer
    } else {
        PointerType::NoPointer
    }
}

/// The value of the digits `d[from..to]`, or `None` where one is no digit,
/// the run is empty or the value does not fit in `usize`.
fn parse_dimension(d: &Vec<u8>, from: usize, to: usize) -> (r: Option<usize>)
    requires
        from <= to <= d@.len(),
    ensures
        match r {
            Some(v) => is_dimension(byte_chars(d@).subrange(from as int, to as int)) && v
                == decimal(byte_chars(d@).subrange(from as int, to as int)),
            None => !is_dimension(byte_chars(d@).subrange(from as int, to as int)),
        },
{
    let ghost g = byte_chars(d@).subrange(from as int, to as int);
    if from == to {
        return None;
    }
    let mut v: usize = 0;
    let mut i: usize = from;
    while i < to
        invariant
            from <= i <= to <= d@.len(),
            g == byte_chars(d@).subrange(from as int, to as int),
            forall|k: int| 0 <= k < i - from ==> is_digit_char(#[trigger] g[k]),
            v == decimal(g.subrange(0, i - from)),
        decreases to - i,
    {
        let b = d[i];
        assert(g[i - from] == b as char);
        if b < 0x30 || b > 0x39 {
            return None;
        }
        let digit = (b - 0x30) as usize;
        assert(g.subrange(0, i - from + 1).drop_last() =~= g.subrange(0, i - from));
        if v > (usize::MAX - digit) / 10 {
            proof {
                if forall|k: int| 0 <= k < g.len() ==> is_digit_char(#[trigger] g[k]) {
                    lemma_decimal_prefix(g, i - from + 1);
                    let vv = v as int;
                    let dd = digit as int;
                    assert(vv * 10 + dd > usize::MAX) by (nonlinear_arith)
                        requires
                            vv > (usize::MAX - dd) / 10,
                            0 <= dd <= 9,
                    ;
                }
            }
            return None;
        }
        v = v * 10 + digit;
        i += 1;
    }
    assert(g.subrange(0, g.len() as int) =~= g);
    Some(v)
}

/// The dimensions of the declaration `d`, or `None` where a bracket group
/// is not a dimension.
pub fn dimensions(d: &Vec<u8>) -> (r: Option<Vec<usize>>)
    ensures
        match r {
            Some(v) => dims_ok(byte_chars(d@)) && v@.map_values(|x: usize| x as nat) == dims_of(
                byte_chars(d@),
            ),
            None => !dims_ok(byte_chars(d@)),
        },
{
    let ghost s = byte_chars(d@);
    let n = d.len();
    let mut out: Vec<usize> = Vec::new();
    let ghost mut done: Seq<Seq<char>> = Seq::empty();
    let mut i: usize = 0;
    while i < n
        invariant
            i <= n == d@.len() == s.len(),
            s == byte_chars(d@),
            groups_from(s, 0) == done + groups_from(s, i as int),
            forall|j: int| 0 <= j < done.len() ==> is_dimension(#[trigger] done[j]),
            out@.map_values(|x: usize| x as nat) == done.map_values(|g: Seq<char>| decimal(g)),
        decreases n - i,
    {
        if d[i] == 0x5b && i + 1 < n && d[i + 1] != 0x5d {
            let mut k: usize = i + 1;
            while k < n && d[k] != 0x5d
                invariant
                    i + 1 <= k <= n == d@.len() == s.len(),
                    s == byte_chars(d@),
                    close_from(s, i + 1) == close_from(s, k as int),
                decreases n - k,
            {
                k += 1;
            }
            if k < n {
                let ghost g = s.subrange(i + 1, k as int);
                assert(groups_from(s, i as int) == seq![g] + groups_from(s, k + 1));
                match parse_dimension(d, i + 1, k) {
                    Some(v) => {
                        let ghost before = out@;
                        let ghost before_done = done;
                        out.push(v);
                        proof {
                            assert(done + (seq![g] + groups_from(s, k + 1)) =~= done.push(g)
                                + groups_from(s, k + 1));
                            done = done.push(g);
                            assert(out@ == before.push(v));
                            assert(out@.map_values(|x: usize| x as nat) =~= before.map_values(
                                |x: usize| x as nat,
                            ).push(v as nat));
                            assert(done.map_values(|g: Seq<char>| decimal(g)) =~= before_done.map_values(
                                |g: Seq<char>| decimal(g),
                            ).push(decimal(g)));
                        }
                        i = k + 1;
                    },
                    None => {
                        assert(groups_from(s, 0)[done.len() as int] == g);
                        return None;
                    },
                }
            } else {
                assert(groups_from(s, i as int) == groups_from(s, i + 1));
                i += 1;
            }
        } else {
            assert(groups_from(s, i as int) == groups_from(s, i + 1));
            i += 1;
        }
    }
    assert(groups_from(s, 0) =~= done);
    Some(out)
}

} // verus!
