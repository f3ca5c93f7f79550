use naia::diff_mask::DiffMask;
use naia::error::ProtocolError;
use naia::packet_reader::PacketReader;

#[test]
fn a_new_mask_is_clear() {
    let mask = DiffMask::new(2);
    assert_eq!(mask.byte_number(), 2);
    assert!(mask.is_clear());
    assert!(!mask.get_bit(0));
    assert!(!mask.get_bit(15));
}

#[test]
fn set_bit_sets_one_bit() {
    let mut mask = DiffMask::new(2);
    mask.set_bit(3);
    mask.set_bit(9);
    assert!(mask.get_bit(3));
    assert!(mask.get_bit(9));
    assert!(!mask.get_bit(2));
    assert!(!mask.get_bit(4));
    assert!(!mask.is_clear());
    assert_eq!(mask.get_byte(0), 0b0000_1000);
    assert_eq!(mask.get_byte(1), 0b0000_0010);
    assert_eq!(mask.get_byte(2), 0);
}

#[test]
fn clear_bit_clears_one_bit() {
    let mut mask = DiffMask::new(1);
    mask.set_bit(0);
    mask.set_bit(7);
    mask.clear_bit(0);
    assert!(!mask.get_bit(0));
    assert!(mask.get_bit(7));
    mask.clear_bit(7);
    assert!(mask.is_clear());
}

#[test]
fn bits_past_the_end_are_ignored() {
    let mut mask = DiffMask::new(1);
    mask.set_bit(8);
    assert!(mask.is_clear());
    assert!(!mask.get_bit(8));
    mask.clear_bit(200);
    assert!(mask.is_clear());
}

#[test]
fn or_with_is_the_union() {
    let mut a = DiffMask::new(1);
    a.set_bit(0);
    a.set_bit(1);
    let mut b = DiffMask::new(1);
    b.set_bit(1);
    b.set_bit(5);
    a.or_with(&b);
    assert_eq!(a.get_byte(0), 0b0010_0011);
}

#[test]
fn merging_two_masks_does_not_depend_on_the_order() {
    let mut a = DiffMask::new(2);
    a.set_bit(0);
    a.set_bit(12);
    let mut b = DiffMask::new(2);
    b.set_bit(3);
    b.set_bit(12);
    let mut c = DiffMask::new(2);
    c.set_bit(9);

    let mut ab = a.duplicate();
    ab.or_with(&b);
    let mut ba = b.duplicate();
    ba.or_with(&a);
    assert_eq!(ab.get_byte(0), ba.get_byte(0));
    assert_eq!(ab.get_byte(1), ba.get_byte(1));

    let mut ab_c = ab.duplicate();
    ab_c.or_with(&c);
    let mut bc = b.duplicate();
    bc.or_with(&c);
    let mut a_bc = a.duplicate();
    a_bc.or_with(&bc);
    assert_eq!(ab_c.get_byte(0), a_bc.get_byte(0));
    assert_eq!(ab_c.get_byte(1), a_bc.get_byte(1));
    assert_eq!(ab_c.get_byte(0), 0b0000_1001);
    assert_eq!(ab_c.get_byte(1), 0b0001_0010);
}

#[test]
fn clear_bits_in_takes_the_other_mask_out() {
    let mut a = DiffMask::new(1);
    a.set_bit(0);
    a.set_bit(1);
    a.set_bit(2);
    let mut b = DiffMask::new(1);
    b.set_bit(1);
    b.set_bit(6);
    a.clear_bits_in(&b);
    assert_eq!(a.get_byte(0), 0b0000_0101);
}

#[test]
fn masks_of_different_widths_do_not_merge() {
    let mut a = DiffMask::new(1);
    a.set_bit(0);
    let mut b = DiffMask::new(2);
    b.set_bit(1);
    a.or_with(&b);
    assert_eq!(a.byte_number(), 1);
    assert_eq!(a.get_byte(0), 1);
    a.clear_bits_in(&b);
    assert_eq!(a.get_byte(0), 1);
}

#[test]
fn copy_from_makes_the_masks_equal() {
    let mut a = DiffMask::new(1);
    a.set_bit(4);
    let mut b = DiffMask::new(3);
    b.set_bit(17);
    a.copy_from(&b);
    assert_eq!(a.byte_number(), 3);
    assert!(a.get_bit(17));
    assert!(!a.get_bit(4));
}

#[test]
fn clear_clears_every_bit() {
    let mut a = DiffMask::new(2);
    a.set_bit(1);
    a.set_bit(10);
    a.clear();
    assert!(a.is_clear());
    assert_eq!(a.byte_number(), 2);
}

#[test]
fn a_mask_is_written_as_its_length_and_its_bytes() {
    let mut mask = DiffMask::new(2);
    mask.set_bit(0);
    mask.set_bit(15);
    let mut out = vec![9u8];
    mask.write(&mut out);
    assert_eq!(out, vec![9, 2, 0b0000_0001, 0b1000_0000]);
}

#[test]
fn a_written_mask_is_read_back() {
    let mut mask = DiffMask::new(2);
    mask.set_bit(3);
    mask.set_bit(8);
    let mut out = Vec::new();
    mask.write(&mut out);
    out.push(77);
    let mut reader = PacketReader::new(&out);
    let read = DiffMask::read(&mut reader).unwrap();
    assert_eq!(read.byte_number(), 2);
    assert_eq!(read.get_byte(0), mask.get_byte(0));
    assert_eq!(read.get_byte(1), mask.get_byte(1));
    assert_eq!(reader.read_u8(), Ok(77));
}

#[test]
fn a_mask_that_is_cut_short_is_a_fault() {
    let bytes = [3u8, 1, 2];
    let mut reader = PacketReader::new(&bytes);
    assert!(matches!(DiffMask::read(&mut reader), Err(ProtocolError::Truncated)));
    let empty: [u8; 0] = [];
    let mut reader = PacketReader::new(&empty);
    assert!(matches!(DiffMask::read(&mut reader), Err(ProtocolError::Truncated)));
}
