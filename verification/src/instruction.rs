//! The instruction decoder: a raw 16-bit word and the five derived fields
//! that execution reads from it. Decoding is pure; fetching (and the program
//! counter advance that goes with it) lives on the machine itself.

use vstd::prelude::*;

verus! {

/// The operation class: the top nibble of the word.
pub open spec fn spec_c(op: u16) -> u16 {
    (op >> 12) & 0xF
}

/// The first operand register index: the second nibble of the word.
pub open spec fn spec_x(op: u16) -> u16 {
    (op >> 8) & 0xF
}

/// The second operand register index: the third nibble of the word.
pub open spec fn spec_y(op: u16) -> u16 {
    (op >> 4) & 0xF
}

/// The 4-bit immediate: the low nibble of the word.
pub open spec fn spec_n(op: u16) -> u16 {
    op & 0xF
}

/// The 8-bit immediate: the low byte of the word.
pub open spec fn spec_nn(op: u16) -> u16 {
    op & 0xFF
}

/// The 12-bit address immediate: the low three nibbles of the word.
pub open spec fn spec_nnn(op: u16) -> u16 {
    op & 0xFFF
}

/// Every field is bounded by the width of its mask.
pub proof fn lemma_field_bounds(op: u16)
    ensures
        spec_c(op) < 16,
        spec_x(op) < 16,
        spec_y(op) < 16,
        spec_n(op) < 16,
        spec_nn(op) < 256,
        spec_nnn(op) < 4096,
{
    assert((op >> 12) & 0xF < 16) by (bit_vector);
    assert((op >> 8) & 0xF < 16) by (bit_vector);
    assert((op >> 4) & 0xF < 16) by (bit_vector);
    assert(op & 0xF < 16) by (bit_vector);
    assert(op & 0xFF < 256) by (bit_vector);
    assert(op & 0xFFF < 4096) by (bit_vector);
}

/// A fetched 16-bit instruction word.
pub struct Instruction {
    pub opcode: u16,
}

impl Instruction {
    /// The operation class (top nibble).
    pub fn c(&self) -> (r: u8)
        ensures
            r == spec_c(self.opcode),
    {
        proof { lemma_field_bounds(self.opcode); }
        ((self.opcode >> 12) & 0xF) as u8
    }

    /// The first operand register index X (second nibble).
    pub fn x(&self) -> (r: usize)
        ensures
            r == spec_x(self.opcode),
            r < 16,
    {
        proof { lemma_field_bounds(self.opcode); }
        ((self.opcode >> 8) & 0xF) as usize
    }

    /// The second operand register index Y (third nibble).
    pub fn y(&self) -> (r: usize)
        ensures
            r == spec_y(self.opcode),
            r < 16,
    {
        proof { lemma_field_bounds(self.opcode); }
        ((self.opcode >> 4) & 0xF) as usize
    }

    /// The 4-bit immediate N (low nibble).
    pub fn n(&self) -> (r: u8)
        ensures
            r == spec_n(self.opcode),
            r < 16,
    {
        proof { lemma_field_bounds(self.opcode); }
        (self.opcode & 0xF) as u8
    }

    /// The 8-bit immediate NN (low byte).
    pub fn nn(&self) -> (r: u8)
        ensures
            r == spec_nn(self.opcode),
    {
        proof { lemma_field_bounds(self.opcode); }
        (self.opcode & 0xFF) as u8
    }

    /// The 12-bit address immediate NNN.
    pub fn nnn(&self) -> (r: u16)
        ensures
            r == spec_nnn(self.opcode),
            r < 4096,
    {
        proof { lemma_field_bounds(self.opcode); }
        self.opcode & 0xFFF
    }
}

} // verus!
