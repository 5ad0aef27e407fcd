use vstd::prelude::*;

verus! {

/// An immutable 16-bit instruction word. It is decoded into its five
/// addressing fields by fixed mask-and-shift extraction; every 16-bit
/// value is decodable, and validity of the resulting instruction is the
/// interpreter's concern.
#[derive(Debug, Clone, Copy, PartialEq, Eq, Structural)]
pub struct Opcode {
    pub value: u16,
}

/// The class nibble: the top four bits of the word.
pub open spec fn spec_first(w: u16) -> u16 {
    (w & 0xF000) >> 12
}

/// The 8-bit immediate operand: the low byte of the word.
pub open spec fn spec_nn(w: u16) -> u16 {
    w & 0xFF
}

/// The 12-bit address operand: the low three nibbles of the word.
pub open spec fn spec_nnn(w: u16) -> u16 {
    w & 0xFFF
}

/// The first register-index operand: the second nibble from the top.
pub open spec fn spec_x(w: u16) -> u16 {
    (w & 0xF00) >> 8
}

/// The second register-index operand: the third nibble from the top.
pub open spec fn spec_y(w: u16) -> u16 {
    (w & 0xF0) >> 4
}

/// The low nibble of the word.
pub open spec fn spec_last(w: u16) -> u16 {
    w & 0xF
}

impl Opcode {
    pub fn first(&self) -> (r: u16)
        ensures
            r == spec_first(self.value),
    {
        (self.value & 0xF000) >> 12
    }

    pub fn nn(&self) -> (r: u16)
        ensures
            r == spec_nn(self.value),
    {
        self.value & 0xFF
    }

    pub fn nnn(&self) -> (r: u16)
        ensures
            r == spec_nnn(self.value),
    {
        self.value & 0xFFF
    }

    pub fn x(&self) -> (r: u16)
        ensures
            r == spec_x(self.value),
    {
        (self.value & 0xF00) >> 8
    }

    pub fn y(&self) -> (r: u16)
        ensures
            r == spec_y(self.value),
    {
        (self.value & 0xF0) >> 4
    }

    pub fn last(&self) -> (r: u16)
        ensures
            r == spec_last(self.value),
    {
        self.value & 0xF
    }
}

/// Every decoded field lies within the range its width allows.
pub proof fn lemma_field_ranges(w: u16)
    by (bit_vector)
    ensures
        spec_first(w) < 16,
        spec_nn(w) < 256,
        spec_nnn(w) < 4096,
        spec_x(w) < 16,
        spec_y(w) < 16,
        spec_last(w) < 16,
{
}

} // verus!
