use ylong_runtime::util::bit::{Bit, Mask};

const USIZE_MAX: usize = usize::MAX;
const USIZE_MAX_HALF: usize = usize::MAX / 2;

fn assert_mask(m: Mask, mask: usize, shift: u32) {
    assert_eq!(m.mask(), mask);
    assert_eq!(m.shift(), shift);
}

#[test]
fn ut_mask_new() {

    match usize::BITS {
        32 => ut_mask_new_bit32(),
        64 => ut_mask_new_bit64(),
        _ => {}
    }


}


#[test]
fn ut_bit_from_usize() {

    assert_eq!(Bit::from_usize(0).as_usize(), 0);
    assert_eq!(Bit::from_usize(USIZE_MAX_HALF).as_usize(), USIZE_MAX_HALF);
    assert_eq!(Bit::from_usize(USIZE_MAX).as_usize(), USIZE_MAX);
}


#[test]
fn ut_bit_as_usize() {

    assert_eq!(Bit::from_usize(0).as_usize(), 0);
    assert_eq!(Bit::from_usize(USIZE_MAX_HALF).as_usize(), USIZE_MAX_HALF);
    assert_eq!(Bit::from_usize(USIZE_MAX).as_usize(), USIZE_MAX);
}


#[test]
fn ut_bit_set() {

    let mut b = Bit::from_usize(0);
    b.set(0xf0f0);
    assert_eq!(b.as_usize(), 0xf0f0);

    let mut b = Bit::from_usize(USIZE_MAX_HALF);
    b.set(0xf0f0);
    assert_eq!(b.as_usize(), 0xf0f0);

    let mut b = Bit::from_usize(USIZE_MAX);
    b.set(0xf0f0);
    assert_eq!(b.as_usize(), 0xf0f0);
}


#[test]
fn ut_bit_clear() {

    let mut b = Bit::from_usize(0);
    b.clear();
    assert_eq!(b.as_usize(), 0);

    let mut b = Bit::from_usize(USIZE_MAX_HALF);
    b.clear();
    assert_eq!(b.as_usize(), 0);

    let mut b = Bit::from_usize(USIZE_MAX);
    b.clear();
    assert_eq!(b.as_usize(), 0);
}


#[test]
fn ut_bit_set_by_mask() {

    match usize::BITS {
        32 => ut_bit_set_by_mask_bit32(),
        64 => ut_bit_set_by_mask_bit64(),
        _ => {}
    }


}


#[test]
fn ut_bit_get_by_mask() {

    match usize::BITS {
        32 => ut_bit_get_by_mask_bit32(),
        64 => ut_bit_get_by_mask_bit64(),
        _ => {}
    }


}


fn ut_mask_new_bit32() {
    assert_mask(Mask::new(0, 0), 0x0, 0);
    assert_mask(Mask::new(0, 16), 0x0, 0);
    assert_mask(Mask::new(0, 32), 0x0, 0);
    assert_mask(Mask::new(0, 64), 0x0, 0);
    assert_mask(Mask::new(1, 0), 0x1, 0);
    assert_mask(Mask::new(1, 16), 0x1_0000, 16);
    assert_mask(Mask::new(1, 31), 0x8000_0000, 31);
    assert_mask(Mask::new(1, 32), 0x8000_0000, 31);
    assert_mask(Mask::new(1, 128), 0x8000_0000, 31);
    assert_mask(Mask::new(4, 0), 0xf, 0);
    assert_mask(Mask::new(4, 16), 0xf_0000, 16);
    assert_mask(Mask::new(4, 28), 0xf000_0000, 28);
    assert_mask(Mask::new(4, 32), 0xf000_0000, 28);
    assert_mask(Mask::new(4, 64), 0xf000_0000, 28);
    assert_mask(Mask::new(16, 0), 0xffff, 0);
    assert_mask(Mask::new(16, 16), 0xffff_0000, 16);
    assert_mask(Mask::new(16, 32), 0xffff_0000, 16);
    assert_mask(Mask::new(16, 64), 0xffff_0000, 16);
    assert_mask(Mask::new(32, 0), 0xffff_ffff, 0);
    assert_mask(Mask::new(32, 16), 0xffff_ffff, 0);
    assert_mask(Mask::new(32, 32), 0xffff_ffff, 0);
    assert_mask(Mask::new(32, 64), 0xffff_ffff, 0);
    assert_mask(Mask::new(64, 0), 0xffff_ffff, 0);
    assert_mask(Mask::new(64, 16), 0xffff_ffff, 0);
    assert_mask(Mask::new(64, 32), 0xffff_ffff, 0);
    assert_mask(Mask::new(64, 64), 0xffff_ffff, 0);
}

fn ut_mask_new_bit64() {
    assert_mask(Mask::new(0, 0), 0x0, 0);
    assert_mask(Mask::new(0, 32), 0x0, 0);
    assert_mask(Mask::new(0, 64), 0x0, 0);
    assert_mask(Mask::new(0, 128), 0x0, 0);

    assert_mask(Mask::new(1, 0), 0x1, 0);
    assert_mask(Mask::new(1, 32), 0x1_0000_0000, 32);
    assert_mask(Mask::new(1, 63), 0x8000_0000_0000_0000, 63);
    assert_mask(Mask::new(1, 64), 0x8000_0000_0000_0000, 63);
    assert_mask(Mask::new(1, 128), 0x8000_0000_0000_0000, 63);

    assert_mask(Mask::new(4, 0), 0xf, 0);
    assert_mask(Mask::new(4, 32), 0xf_0000_0000, 32);
    assert_mask(Mask::new(4, 60), 0xf000_0000_0000_0000, 60);
    assert_mask(Mask::new(4, 64), 0xf000_0000_0000_0000, 60);
    assert_mask(Mask::new(4, 128), 0xf000_0000_0000_0000, 60);

    assert_mask(Mask::new(32, 0), 0xffff_ffff, 0);
    assert_mask(Mask::new(32, 32), 0xffff_ffff_0000_0000, 32);
    assert_mask(Mask::new(32, 64), 0xffff_ffff_0000_0000, 32);
    assert_mask(Mask::new(32, 128), 0xffff_ffff_0000_0000, 32);

    assert_mask(Mask::new(64, 0), 0xffff_ffff_ffff_ffff, 0);
    assert_mask(Mask::new(64, 32), 0xffff_ffff_ffff_ffff, 0);
    assert_mask(Mask::new(64, 64), 0xffff_ffff_ffff_ffff, 0);
    assert_mask(Mask::new(64, 128), 0xffff_ffff_ffff_ffff, 0);

    assert_mask(Mask::new(128, 0), 0xffff_ffff_ffff_ffff, 0);
    assert_mask(Mask::new(128, 32), 0xffff_ffff_ffff_ffff, 0);
    assert_mask(Mask::new(128, 64), 0xffff_ffff_ffff_ffff, 0);
    assert_mask(Mask::new(128, 128), 0xffff_ffff_ffff_ffff, 0);
}

fn ut_bit_set_by_mask_bit32() {
    let val = 0x0usize;
    let mut bit = Bit::from_usize(val);
    bit.set_by_mask(Mask::new(0, 0), 0x0);
    assert_eq!(bit.as_usize(), 0x0);

    bit.clear();
    bit.set_by_mask(Mask::new(4, 0), 0xf);
    assert_eq!(bit.as_usize(), 0xf);

    bit.clear();
    bit.set_by_mask(Mask::new(8, 0), 0xff);
    assert_eq!(bit.as_usize(), 0xff);

    bit.clear();
    bit.set_by_mask(Mask::new(4, 4), 0xf);
    assert_eq!(bit.as_usize(), 0xf0);

    bit.clear();
    bit.set_by_mask(Mask::new(4, 28), 0xf);
    assert_eq!(bit.as_usize(), 0xf000_0000);

    bit.clear();
    bit.set_by_mask(Mask::new(0, 0), 0xffff_ffff);
    assert_eq!(bit.as_usize(), 0x0);

    bit.clear();
    bit.set_by_mask(Mask::new(4, 0), 0xffff_ffff);
    assert_eq!(bit.as_usize(), 0xf);

    bit.clear();
    bit.set_by_mask(Mask::new(4, 4), 0xffff_ffff);
    assert_eq!(bit.as_usize(), 0xf0);

    let val = 0xffff_ffff;
    let mut bit = Bit::from_usize(val);
    bit.set_by_mask(Mask::new(0, 0), 0x0);
    assert_eq!(bit.as_usize(), 0xffff_ffff);

    bit.set(val);
    bit.set_by_mask(Mask::new(4, 0), 0x0);
    assert_eq!(bit.as_usize(), 0xffff_fff0);

    bit.set(val);
    bit.set_by_mask(Mask::new(4, 4), 0x0);
    assert_eq!(bit.as_usize(), 0xffff_ff0f);

    bit.set(val);
    bit.set_by_mask(Mask::new(4, 8), 0x0);
    assert_eq!(bit.as_usize(), 0xffff_f0ff);

    bit.set(val);
    bit.set_by_mask(Mask::new(4, 0), 0xabcd);
    assert_eq!(bit.as_usize(), 0xffff_fffd);

    bit.set(val);
    bit.set_by_mask(Mask::new(8, 0), 0xabcd);
    assert_eq!(bit.as_usize(), 0xffff_ffcd);

    bit.set(val);
    bit.set_by_mask(Mask::new(16, 0), 0xabcd);
    assert_eq!(bit.as_usize(), 0xffff_abcd);

    bit.set(val);
    bit.set_by_mask(Mask::new(16, 16), 0xabcd);
    assert_eq!(bit.as_usize(), 0xabcd_ffff);

    bit.set(val);
    bit.set_by_mask(Mask::new(32, 0), 0xabcd);
    assert_eq!(bit.as_usize(), 0x0000_abcd);
}

fn ut_bit_set_by_mask_bit64() {
    let val = 0x0usize;
    let mut bit = Bit::from_usize(val);
    bit.set_by_mask(Mask::new(0, 0), 0x0);
    assert_eq!(bit.as_usize(), 0x0);

    bit.clear();
    bit.set_by_mask(Mask::new(4, 0), 0xf);
    assert_eq!(bit.as_usize(), 0xf);

    bit.clear();
    bit.set_by_mask(Mask::new(8, 0), 0xff);
    assert_eq!(bit.as_usize(), 0xff);

    bit.clear();
    bit.set_by_mask(Mask::new(4, 4), 0xf);
    assert_eq!(bit.as_usize(), 0xf0);

    bit.clear();
    bit.set_by_mask(Mask::new(4, 32), 0xf);
    assert_eq!(bit.as_usize(), 0xf_0000_0000);

    bit.clear();
    bit.set_by_mask(Mask::new(4, 0), 0xffff_ffff_ffff_ffff);
    assert_eq!(bit.as_usize(), 0xf);

    bit.clear();
    bit.set_by_mask(Mask::new(4, 4), 0xffff_ffff_ffff_ffff);
    assert_eq!(bit.as_usize(), 0xf0);

    bit.clear();
    bit.set_by_mask(Mask::new(0, 0), 0xffff_ffff_ffff_ffff);
    assert_eq!(bit.as_usize(), 0);

    let val = 0xffff_ffff_ffff_ffffusize;
    let mut bit = Bit::from_usize(val);
    bit.set_by_mask(Mask::new(0, 0), 0x0);
    assert_eq!(bit.as_usize(), 0xffff_ffff_ffff_ffff);

    bit.set(0xffff_ffff_ffff_ffff);
    bit.set_by_mask(Mask::new(4, 0), 0x0);
    assert_eq!(bit.as_usize(), 0xffff_ffff_ffff_fff0);

    bit.set(0xffff_ffff_ffff_ffff);
    bit.set_by_mask(Mask::new(4, 4), 0x0);
    assert_eq!(bit.as_usize(), 0xffff_ffff_ffff_ff0f);

    bit.set(0xffff_ffff_ffff_ffff);
    bit.set_by_mask(Mask::new(4, 32), 0x0);
    assert_eq!(bit.as_usize(), 0xffff_fff0_ffff_ffff);

    bit.set(0xffff_ffff_ffff_ffff);
    bit.set_by_mask(Mask::new(4, 60), 0x0);
    assert_eq!(bit.as_usize(), 0x0fff_ffff_ffff_ffff);

    bit.set(0xffff_ffff_ffff_ffff);
    bit.set_by_mask(Mask::new(16, 0), 0xabcd);
    assert_eq!(bit.as_usize(), 0xffff_ffff_ffff_abcd);

    bit.set(0xffff_ffff_ffff_ffff);
    bit.set_by_mask(Mask::new(32, 0), 0xabcd);
    assert_eq!(bit.as_usize(), 0xffff_ffff_0000_abcd);

    bit.set(0xffff_ffff_ffff_ffff);
    bit.set_by_mask(Mask::new(12, 0), 0xabcd);
    assert_eq!(bit.as_usize(), 0xffff_ffff_ffff_fbcd);

    bit.set(0xffff_ffff_ffff_ffff);
    bit.set_by_mask(Mask::new(16, 8), 0xabcd);
    assert_eq!(bit.as_usize(), 0xffff_ffff_ffab_cdff);
}

fn ut_bit_get_by_mask_bit32() {
    let val = 0x0usize;
    let bit = Bit::from_usize(val);
    assert_eq!(bit.get_by_mask(Mask::new(0, 0)), 0x0);
    assert_eq!(bit.get_by_mask(Mask::new(1, 0)), 0x0);
    assert_eq!(bit.get_by_mask(Mask::new(16, 0)), 0x0);
    assert_eq!(bit.get_by_mask(Mask::new(32, 0)), 0x0);

    let val = 0xffff_ffffusize;
    let bit = Bit::from_usize(val);
    assert_eq!(bit.get_by_mask(Mask::new(0, 0)), 0x0);
    assert_eq!(bit.get_by_mask(Mask::new(1, 0)), 0x1);
    assert_eq!(bit.get_by_mask(Mask::new(16, 0)), 0xffff);
    assert_eq!(bit.get_by_mask(Mask::new(32, 0)), 0xffff_ffff);

    let val = 0x1234_cdefusize;
    let bit = Bit::from_usize(val);
    assert_eq!(bit.get_by_mask(Mask::new(0, 0)), 0x0);
    assert_eq!(bit.get_by_mask(Mask::new(4, 0)), 0xf);
    assert_eq!(bit.get_by_mask(Mask::new(8, 0)), 0xef);
    assert_eq!(bit.get_by_mask(Mask::new(12, 0)), 0xdef);
    assert_eq!(bit.get_by_mask(Mask::new(16, 0)), 0xcdef);
    assert_eq!(bit.get_by_mask(Mask::new(32, 0)), 0x1234_cdef);
    assert_eq!(bit.get_by_mask(Mask::new(4, 4)), 0xe);
    assert_eq!(bit.get_by_mask(Mask::new(8, 4)), 0xde);
    assert_eq!(bit.get_by_mask(Mask::new(12, 4)), 0xcde);
    assert_eq!(bit.get_by_mask(Mask::new(4, 16)), 0x4);
    assert_eq!(bit.get_by_mask(Mask::new(8, 16)), 0x34);
    assert_eq!(bit.get_by_mask(Mask::new(12, 16)), 0x234);
    assert_eq!(bit.get_by_mask(Mask::new(3, 0)), 0x7);
    assert_eq!(bit.get_by_mask(Mask::new(3, 4)), 0x6);
    assert_eq!(bit.get_by_mask(Mask::new(3, 8)), 0x5);
    assert_eq!(bit.get_by_mask(Mask::new(3, 16)), 0x4);
    assert_eq!(bit.get_by_mask(Mask::new(3, 20)), 0x3);
    assert_eq!(bit.get_by_mask(Mask::new(3, 24)), 0x2);
    assert_eq!(bit.get_by_mask(Mask::new(3, 1)), 0x7);
    assert_eq!(bit.get_by_mask(Mask::new(3, 5)), 0x7);
    assert_eq!(bit.get_by_mask(Mask::new(3, 9)), 0x6);
}

fn ut_bit_get_by_mask_bit64() {
    let val = 0x0usize;
    let bit = Bit::from_usize(val);
    assert_eq!(bit.get_by_mask(Mask::new(0, 0)), 0x0);
    assert_eq!(bit.get_by_mask(Mask::new(1, 0)), 0x0);
    assert_eq!(bit.get_by_mask(Mask::new(32, 0)), 0x0);
    assert_eq!(bit.get_by_mask(Mask::new(64, 0)), 0x0);

    let val = 0xffff_ffff_ffff_ffffusize;
    let bit = Bit::from_usize(val);
    assert_eq!(bit.get_by_mask(Mask::new(0, 0)), 0x0);
    assert_eq!(bit.get_by_mask(Mask::new(1, 0)), 0x1);
    assert_eq!(bit.get_by_mask(Mask::new(32, 0)), 0xffff_ffff);
    assert_eq!(bit.get_by_mask(Mask::new(64, 0)), 0xffff_ffff_ffff_ffff);

    let val = 0x0123_4567_89ab_cdefusize;
    let bit = Bit::from_usize(val);
    assert_eq!(bit.get_by_mask(Mask::new(0, 0)), 0x0);
    assert_eq!(bit.get_by_mask(Mask::new(4, 0)), 0xf);
    assert_eq!(bit.get_by_mask(Mask::new(8, 0)), 0xef);
    assert_eq!(bit.get_by_mask(Mask::new(32, 0)), 0x89ab_cdef);
    assert_eq!(bit.get_by_mask(Mask::new(64, 0)), 0x0123_4567_89ab_cdef);
    assert_eq!(bit.get_by_mask(Mask::new(4, 4)), 0xe);
    assert_eq!(bit.get_by_mask(Mask::new(8, 4)), 0xde);
    assert_eq!(bit.get_by_mask(Mask::new(12, 4)), 0xcde);
    assert_eq!(bit.get_by_mask(Mask::new(60, 4)), 0x0012_3456_789a_bcde);
    assert_eq!(bit.get_by_mask(Mask::new(4, 32)), 0x7);
    assert_eq!(bit.get_by_mask(Mask::new(8, 32)), 0x67);
    assert_eq!(bit.get_by_mask(Mask::new(12, 32)), 0x567);
    assert_eq!(bit.get_by_mask(Mask::new(3, 0)), 0x7);
    assert_eq!(bit.get_by_mask(Mask::new(3, 4)), 0x6);
    assert_eq!(bit.get_by_mask(Mask::new(3, 8)), 0x5);
    assert_eq!(bit.get_by_mask(Mask::new(3, 1)), 0x7);
    assert_eq!(bit.get_by_mask(Mask::new(3, 5)), 0x7);
    assert_eq!(bit.get_by_mask(Mask::new(3, 9)), 0x6);
}