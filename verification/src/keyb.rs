use vstd::prelude::*;

verus! {

/// The ASCII byte of each set-1 scan code below 90 on a US keyboard without
/// shift: digits, lowercase letters, punctuation, backspace, tab, newline,
/// space and the keypad digits; 0 where a key gives no character.
pub open spec fn scancode_table() -> Seq<u8> {
    seq![0, 31, 49, 50, 51, 52, 53, 54, 55, 56, 57, 48, 45, 61, 8, 9, 113, 119, 101, 114, 116, 121, 117, 105, 111, 112, 91, 93, 10, 0, 97, 115, 100, 102, 103, 104, 106, 107, 108, 59, 39, 96, 0, 92, 122, 120, 99, 118, 98, 110, 109, 44, 46, 47, 0, 42, 0, 32, 0, 0, 0, 0, 0, 0, 0, 0, 0, 0, 0, 0, 0, 55, 56, 57, 52, 53, 54, 49, 50, 51, 48, 46, 0, 0, 0, 0, 0, 0, 0, 0]
}

/// The ASCII byte that the key with scan code `c` types, or 0 for a key
/// that types nothing and for every code from 90 up.
pub fn scandecode(c: u8) -> (r: u8)
    ensures
        r == (if c < 90 { scancode_table()[c as int] } else { 0 }),
        r < 128,
{
    let table: [u8; 90] = [0, 31, 49, 50, 51, 52, 53, 54, 55, 56, 57, 48, 45, 61, 8, 9, 113, 119, 101, 114, 116, 121, 117, 105, 111, 112, 91, 93, 10, 0, 97, 115, 100, 102, 103, 104, 106, 107, 108, 59, 39, 96, 0, 92, 122, 120, 99, 118, 98, 110, 109, 44, 46, 47, 0, 42, 0, 32, 0, 0, 0, 0, 0, 0, 0, 0, 0, 0, 0, 0, 0, 55, 56, 57, 52, 53, 54, 49, 50, 51, 48, 46, 0, 0, 0, 0, 0, 0, 0, 0];
    assert(table@ =~= scancode_table());
    if c < 90 {
        table[c as usize]
    } else {
        0
    }
}

} // verus!
