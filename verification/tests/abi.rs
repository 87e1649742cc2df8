use min::abi::{pack, unpack};

#[test]
fn packing_puts_the_address_above() {
    assert_eq!(pack(1, 2), 0x1_0000_0002);
    assert_eq!(pack(0, 0), 0);
    assert_eq!(pack(u32::MAX, u32::MAX), u64::MAX);
    assert_eq!(pack(0xdead_beef, 7), 0xdead_beef_0000_0007);
}

#[test]
fn unpacking_undoes_packing() {
    for (p, n) in [(0, 0), (1, 0), (0, 1), (5, u32::MAX), (u32::MAX, 5)] {
        assert_eq!(unpack(pack(p, n)), (p, n));
    }
}

#[test]
fn regions_have_numbers_of_their_own() {
    assert_ne!(pack(1, 0), pack(0, 1));
    assert_ne!(pack(3, 4), pack(3, 5));
}
