use vstd::prelude::*;

verus! {

/// One PCM amplitude, tagged with its bit depth.
#[derive(Debug, Clone, Copy, PartialEq, Eq, Structural)]
pub enum BitDepth {
    U8(i8),
    U16(i16),
    U32(i32),
}

impl BitDepth {
    /// Bits per sample of this variant.
    pub open spec fn spec_bits(self) -> u16 {
        match self {
            BitDepth::U8(_) => 8,
            BitDepth::U16(_) => 16,
            BitDepth::U32(_) => 32,
        }
    }

    /// The amplitude as a mathematical integer.
    pub open spec fn spec_amplitude(self) -> int {
        match self {
            BitDepth::U8(v) => v as int,
            BitDepth::U16(v) => v as int,
            BitDepth::U32(v) => v as int,
        }
    }

    pub fn bits(&self) -> (r: u16)
        ensures
            r == self.spec_bits(),
    {
        match self {
            BitDepth::U8(_) => 8,
            BitDepth::U16(_) => 16,
            BitDepth::U32(_) => 32,
        }
    }

    /// The amplitude widened to `i32`, which holds every variant exactly.
    pub fn amplitude(&self) -> (r: i32)
        ensures
            r as int == self.spec_amplitude(),
    {
        match self {
            BitDepth::U8(v) => *v as i32,
            BitDepth::U16(v) => *v as i32,
            BitDepth::U32(v) => *v,
        }
    }

    /// Mixes two samples. The result takes the wider of the two variants
    /// (8 + 16 gives 16, anything + 32 gives 32); the narrower operand is
    /// sign-extended and the sum wraps around at the result's width.
    pub fn add(self, rhs: BitDepth) -> (r: BitDepth)
        ensures
            r.spec_bits() == if self.spec_bits() >= rhs.spec_bits() {
                self.spec_bits()
            } else {
                rhs.spec_bits()
            },
            r == mix(self, rhs),
    {
        match self {
            BitDepth::U8(l) => match rhs {
                BitDepth::U8(r) => BitDepth::U8(l.wrapping_add(r)),
                BitDepth::U16(r) => BitDepth::U16((l as i16).wrapping_add(r)),
                BitDepth::U32(r) => BitDepth::U32((l as i32).wrapping_add(r)),
            },
            BitDepth::U16(l) => match rhs {
                BitDepth::U8(r) => BitDepth::U16(l.wrapping_add(r as i16)),
                BitDepth::U16(r) => BitDepth::U16(l.wrapping_add(r)),
                BitDepth::U32(r) => BitDepth::U32((l as i32).wrapping_add(r)),
            },
            BitDepth::U32(l) => match rhs {
                BitDepth::U8(r) => BitDepth::U32(l.wrapping_add(r as i32)),
                BitDepth::U16(r) => BitDepth::U32(l.wrapping_add(r as i32)),
                BitDepth::U32(r) => BitDepth::U32(l.wrapping_add(r)),
            },
        }
    }
}

/// The sum of two samples: the narrower is sign-extended to the wider
/// width, and the sum wraps around at that width.
pub open spec fn mix(a: BitDepth, b: BitDepth) -> BitDepth {
    match (a, b) {
        (BitDepth::U8(l), BitDepth::U8(r)) => BitDepth::U8(l.wrapping_add(r)),
        (BitDepth::U8(l), BitDepth::U16(r)) => BitDepth::U16((l as i16).wrapping_add(r)),
        (BitDepth::U16(l), BitDepth::U8(r)) => BitDepth::U16(l.wrapping_add(r as i16)),
        (BitDepth::U16(l), BitDepth::U16(r)) => BitDepth::U16(l.wrapping_add(r)),
        (BitDepth::U8(l), BitDepth::U32(r)) => BitDepth::U32((l as i32).wrapping_add(r)),
        (BitDepth::U16(l), BitDepth::U32(r)) => BitDepth::U32((l as i32).wrapping_add(r)),
        (BitDepth::U32(l), BitDepth::U8(r)) => BitDepth::U32(l.wrapping_add(r as i32)),
        (BitDepth::U32(l), BitDepth::U16(r)) => BitDepth::U32(l.wrapping_add(r as i32)),
        (BitDepth::U32(l), BitDepth::U32(r)) => BitDepth::U32(l.wrapping_add(r)),
    }
}

/// The amplitude at position `i`, or silence (0) past the end.
pub fn sample_at(data: &[BitDepth], i: usize) -> (r: i32)
    ensures
        i < data@.len() ==> r as int == data@[i as int].spec_amplitude(),
        i >= data@.len() ==> r == 0,
{
    if i < data.len() {
        data[i].amplitude()
    } else {
        0
    }
}

} // verus!
