//! Bit masks, and words split into fields by such masks.
use vstd::prelude::*;

verus! {

/// Whether bit `i` of `v` is set.
pub open spec fn bit_at(v: usize, i: usize) -> bool {
    (v >> i) & 1 == 1
}

/// A run of `w` ones moved `s` bits to the left; a whole word of ones when `w`
/// is a word's length or more.
pub open spec fn run_mask(w: u32, s: u32) -> usize {
    if w >= usize::BITS {
        !0usize
    } else {
        (((1usize << w) - 1) as usize) << s
    }
}

/// The number of ones in `Mask::new(width, shift)`.
pub open spec fn effective_width(width: u32) -> u32 {
    if width >= usize::BITS {
        usize::BITS
    } else {
        width
    }
}

/// The offset of the lowest one in `Mask::new(width, shift)`: 0 for an empty
/// or full mask, else the requested shift, lowered so that the run of ones
/// stays inside the word.
pub open spec fn effective_shift(width: u32, shift: u32) -> u32 {
    if width >= usize::BITS || width == 0 {
        0
    } else if (usize::BITS - width) as u32 > shift {
        shift
    } else {
        (usize::BITS - width) as u32
    }
}

/// A run of consecutive bits inside a machine word.
///
/// Combined with a word by **and**, the mask picks out the bits at its
/// position: `0000_1111 & 1010_1010 == 0000_1010`.
#[derive(Debug, Copy, Clone, PartialEq, Eq, Structural)]
pub struct Mask {
    mask: usize,
    shift: u32,
}

impl Mask {
    /// A mask is a single run of ones that starts at bit `shift`: nothing is set
    /// below `shift`, and the mask moved down by `shift` is of the form `2^k - 1`.
    #[verifier::type_invariant]
    pub closed spec fn wf(self) -> bool {
        &&& self.shift < usize::BITS
        &&& (self.mask >> self.shift) << self.shift == self.mask
        &&& (self.mask >> self.shift) & (((self.mask >> self.shift) + 1) as usize) == 0
    }

    /// The mask as a word.
    pub closed spec fn spec_mask(self) -> usize {
        self.mask
    }

    /// The offset of the mask's lowest one.
    pub closed spec fn spec_shift(self) -> u32 {
        self.shift
    }

    /// Creates a mask of `width` consecutive ones, moved `shift` bits to the left.
    ///
    /// A width of a whole word or more gives a word of ones and shift 0; a width
    /// of 0 gives an empty mask and shift 0. Otherwise the width is kept and the
    /// shift is lowered, if needed, so that the ones stay inside the word.
    pub fn new(width: u32, shift: u32) -> (m: Mask)
        ensures
            m.spec_shift() == effective_shift(width, shift),
            m.spec_mask() == run_mask(effective_width(width), effective_shift(width, shift)),
    {
        let usize_len: u32 = usize::BITS;
        if width >= usize_len {
            let full: usize = !0usize;
            assert((full >> 0u32) << 0u32 == full && (full >> 0u32) & (((full >> 0u32) + 1) as usize)
                == 0) by (bit_vector)
                requires
                    full == !0usize,
            ;
            return Mask { mask: full, shift: 0 };
        }
        if width == 0 {
            assert(0usize == run_mask(0, 0)) by {
                assert((((1usize << 0u32) - 1) as usize) << 0u32 == 0) by (bit_vector);
            }
            assert((0usize >> 0u32) << 0u32 == 0usize && (0usize >> 0u32) & (((0usize >> 0u32) + 1)
                as usize) == 0) by (bit_vector);
            return Mask { mask: 0, shift: 0 };
        }
        assert(1usize << width >= 1) by (bit_vector)
            requires
                width < usize::BITS,
        ;
        let wb: usize = (1usize << width) - 1;
        let left: u32 = usize_len - width;
        let sh: u32 = if left > shift {
            shift
        } else {
            left
        };
        let mask: usize = wb << sh;
        assert((mask >> sh) << sh == mask && (mask >> sh) & (((mask >> sh) + 1) as usize) == 0)
            by (bit_vector)
            requires
                0 < width < usize::BITS,
                sh + width <= usize::BITS,
                wb == ((1usize << width) - 1) as usize,
                mask == wb << sh,
        ;
        Mask { mask, shift: sh }
    }

    /// The mask as a word.
    pub fn mask(&self) -> (r: usize)
        ensures
            r == self.spec_mask(),
    {
        self.mask
    }

    /// The offset of the mask's lowest one.
    pub fn shift(&self) -> (r: u32)
        ensures
            r == self.spec_shift(),
    {
        self.shift
    }
}

/// A mask has exactly the bits of its run set: bits `shift` up to, not
/// including, `shift + width`.
pub proof fn lemma_mask_bits(width: u32, shift: u32, i: usize)
    requires
        i < usize::BITS,
    ensures
        bit_at(run_mask(effective_width(width), effective_shift(width, shift)), i) <==> (
        effective_shift(width, shift) <= i && i < effective_shift(width, shift) + effective_width(
            width,
        )),
{
    let w = effective_width(width);
    let s = effective_shift(width, shift);
    if width >= usize::BITS {
        assert((!0usize >> i) & 1 == 1) by (bit_vector)
            requires
                i < usize::BITS,
        ;
    } else {
        let ww = w as usize;
        let ss = s as usize;
        assert(ww + ss <= usize::BITS);
        assert(((((((1usize << ww) - 1) as usize) << ss) >> i) & 1 == 1) <==> (ss <= i && i < ss
            + ww)) by (bit_vector)
            requires
                ww < usize::BITS,
                ss + ww <= usize::BITS,
                i < usize::BITS,
        ;
    }
}

/// A machine word read as a set of bit fields.
#[derive(Debug, Copy, Clone, PartialEq, Eq, Structural)]
pub struct Bit(usize);

impl View for Bit {
    type V = usize;

    closed spec fn view(&self) -> usize {
        self.0
    }
}

/// The word `old` with the field under `mask` overwritten by the low bits of `val`.
pub open spec fn set_field(old: usize, mask: Mask, val: usize) -> usize {
    (old & !mask.spec_mask()) | ((val << mask.spec_shift()) & mask.spec_mask())
}

/// The field under `mask` of the word `v`, moved down to bit 0.
pub open spec fn get_field(v: usize, mask: Mask) -> usize {
    (v & mask.spec_mask()) >> mask.spec_shift()
}

impl Bit {
    /// Wraps a word.
    pub fn from_usize(val: usize) -> (b: Bit)
        ensures
            b@ == val,
    {
        Bit(val)
    }

    /// The word.
    pub fn as_usize(&self) -> (r: usize)
        ensures
            r == self@,
    {
        self.0
    }

    /// Overwrites the field under `mask` with `val`; the bits of `val` beyond the
    /// mask's width are dropped.
    pub fn set_by_mask(&mut self, mask: Mask, val: usize)
        ensures
            final(self)@ == set_field(old(self)@, mask, val),
    {
        proof {
            use_type_invariant(mask);
        }
        self.0 = (self.0 & !mask.mask) | ((val << mask.shift) & mask.mask);
    }

    /// The field under `mask`, moved down to bit 0.
    pub fn get_by_mask(&self, mask: Mask) -> (r: usize)
        ensures
            r == get_field(self@, mask),
    {
        proof {
            use_type_invariant(mask);
        }
        (self.0 & mask.mask) >> mask.shift
    }

    /// Replaces the word.
    pub fn set(&mut self, val: usize)
        ensures
            final(self)@ == val,
    {
        self.0 = val;
    }

    /// Clears the word to 0.
    pub fn clear(&mut self)
        ensures
            final(self)@ == 0,
    {
        self.0 = 0;
    }
}

/// Writing a field leaves every bit outside the mask as it was.
pub proof fn lemma_set_field_keeps_other_bits(old: usize, mask: Mask, val: usize, i: usize)
    requires
        i < usize::BITS,
        !bit_at(mask.spec_mask(), i),
    ensures
        bit_at(set_field(old, mask, val), i) == bit_at(old, i),
{
    let m = mask.spec_mask();
    let s = mask.spec_shift();
    assert(!((m >> i) & 1 == 1) ==> ((((old & !m) | ((val << s) & m)) >> i) & 1 == 1 <==> (old
        >> i) & 1 == 1)) by (bit_vector);
}

/// Reading a field just written gives back the value, cut to the mask's width;
/// and writing back what was read leaves the word unchanged.
pub proof fn lemma_get_after_set(old: usize, mask: Mask, val: usize)
    requires
        mask.wf(),
    ensures
        get_field(set_field(old, mask, val), mask) == val & (mask.spec_mask() >> mask.spec_shift()),
        set_field(old, mask, get_field(old, mask)) == old,
{
    let m = mask.spec_mask();
    let s = mask.spec_shift();
    assert(m == mask.mask && s == mask.shift);
    assert((((old & !m) | ((val << s) & m)) & m) >> s == val & (m >> s)) by (bit_vector)
        requires
            s < usize::BITS,
            (m >> s) << s == m,
    ;
    assert(((old & !m) | ((((old & m) >> s) << s) & m)) == old) by (bit_vector)
        requires
            s < usize::BITS,
            (m >> s) << s == m,
    ;
}

} // verus!
