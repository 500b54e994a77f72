use vstd::prelude::*;

verus! {

/// The attribute byte written with every character: light gray on black.
pub const ATTRIBUTE: u8 = 7;

/// The 16-bit display cell holding character `ch` in the low byte and
/// attribute `attr` in the high byte.
pub open spec fn cell_of(ch: u8, attr: u8) -> u16 {
    (attr as u16 * 256 + ch as u16) as u16
}

/// The character byte (low byte) of a cell.
pub open spec fn char_of(cell: u16) -> u8 {
    (cell % 256) as u8
}

/// The attribute byte (high byte) of a cell.
pub open spec fn attr_of(cell: u16) -> u8 {
    (cell / 256) as u8
}

/// A cell is determined by its two bytes, and each byte can be read back.
pub proof fn lemma_cell_bytes(ch: u8, attr: u8)
    ensures
        char_of(cell_of(ch, attr)) == ch,
        attr_of(cell_of(ch, attr)) == attr,
        cell_of(ch, attr) as int == attr as int * 256 + ch as int,
{
}

/// Packs a character and an attribute into one display cell.
pub fn make_cell(ch: u8, attr: u8) -> (r: u16)
    ensures
        r == cell_of(ch, attr),
        char_of(r) == ch,
        attr_of(r) == attr,
{
    let r: u16 = ((attr as u16) << 8) | (ch as u16);
    assert(r == ((attr as u16) * 256 + ch as u16) as u16) by (bit_vector)
        requires
            r == ((attr as u16) << 8) | (ch as u16),
    ;
    r
}

/// The character byte of a cell.
pub fn cell_char(cell: u16) -> (r: u8)
    ensures
        r == char_of(cell),
{
    let low: u16 = cell & 0xff;
    assert(low == cell % 256) by (bit_vector)
        requires
            low == cell & 0xff,
    ;
    low as u8
}

/// The attribute byte of a cell.
pub fn cell_attr(cell: u16) -> (r: u8)
    ensures
        r == attr_of(cell),
{
    let high: u16 = cell >> 8;
    assert(high == cell / 256) by (bit_vector)
        requires
            high == cell >> 8,
    ;
    high as u8
}

} // verus!
