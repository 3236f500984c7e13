use chesscore::bits::BitFunctions;

#[test]
fn pop_lsb_walks_ascending() {
    let mut bb: u64 = 0b1010_0100;
    assert_eq!(bb.pop_lsb(), 2);
    assert_eq!(bb.pop_lsb(), 5);
    assert_eq!(bb.pop_lsb(), 7);
    assert_eq!(bb, 0);
    assert_eq!(bb.pop_lsb(), 64);
    assert_eq!(bb, 0);
}

#[test]
fn get_lsb_and_clear_lsb() {
    let bb: u64 = 0x8000_0000_0000_0000;
    assert_eq!(bb.get_lsb(), 63);
    assert_eq!(0u64.get_lsb(), 64);
    let mut x: u64 = 0b110;
    x.clear_lsb();
    assert_eq!(x, 0b100);
    let mut z: u64 = 0;
    z.clear_lsb();
    assert_eq!(z, 0);
}

#[test]
fn contains_is_intersection() {
    assert!(0b1100u64.contains(0b0100));
    assert!(!0b1100u64.contains(0b0011));
    assert!(!0u64.contains(u64::MAX));
}

#[test]
fn count_set_bits_counts() {
    assert_eq!(0u64.count_set_bits(), 0);
    assert_eq!(u64::MAX.count_set_bits(), 64);
    assert_eq!(0x0101_0101_0101_0101u64.count_set_bits(), 8);
}

#[test]
fn bit_indices_ascending() {
    let bb: u64 = (1 << 3) | (1 << 17) | (1 << 63);
    assert_eq!(bb.bit_indices(), vec![3, 17, 63]);
    assert_eq!(0u64.bit_indices(), Vec::<u32>::new());
    assert_eq!(u64::MAX.bit_indices().len(), 64);
}
