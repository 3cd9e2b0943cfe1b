use vstd::prelude::*;

verus! {

/// The characters that stand for `bytes`, one per byte (Latin-1).
pub open spec fn byte_chars(bytes: Seq<u8>) -> Seq<char> {
    bytes.map_values(|b: u8| b as char)
}

/// Relies on `String::push`: the character is appended at the end.
#[verifier::external_body]
pub(crate) fn push_char(s: &mut String, c: char)
    ensures
        final(s)@ == old(s)@.push(c),
{
    s.push(c);
}

/// The string of `bytes[start..end]`, one character per byte.
pub fn string_of_bytes(bytes: &Vec<u8>, start: usize, end: usize) -> (r: String)
    requires
        start <= end <= bytes.len(),
    ensures
        r@ == byte_chars(bytes@.subrange(start as int, end as int)),
{
    let mut r = String::new();
    let mut i: usize = start;
    while i < end
        invariant
            start <= i <= end <= bytes.len(),
            r@ == byte_chars(bytes@.subrange(start as int, i as int)),
        decreases end - i,
    {
        let c = bytes[i] as char;
        push_char(&mut r, c);
        assert(byte_chars(bytes@.subrange(start as int, i + 1)) =~= byte_chars(
            bytes@.subrange(start as int, i as int),
        ).push(c));
        i += 1;
    }
    r
}

} // verus!
