use lv2::{lv2_atom_pad_size, LV2_ATOM_MAX_PADDABLE_SIZE};

#[test]
fn pad_size_of_small_sizes() {
    assert_eq!(lv2_atom_pad_size(0), 0);
    assert_eq!(lv2_atom_pad_size(1), 8);
    assert_eq!(lv2_atom_pad_size(3), 8);
    assert_eq!(lv2_atom_pad_size(7), 8);
    assert_eq!(lv2_atom_pad_size(8), 8);
    assert_eq!(lv2_atom_pad_size(9), 16);
    assert_eq!(lv2_atom_pad_size(16), 16);
    assert_eq!(lv2_atom_pad_size(17), 24);
}

#[test]
fn pad_size_is_the_next_multiple_of_eight() {
    let mut size: u32 = 0;
    while size < 4096 {
        let padded = lv2_atom_pad_size(size);
        assert_eq!(padded % 8, 0);
        assert!(size <= padded);
        assert!(padded <= size + 7);
        size += 1;
    }
}

#[test]
fn pad_size_is_idempotent() {
    for size in [0u32, 1, 5, 8, 13, 64, 1000, 0xFFFF_FFF0, 0xFFFF_FFF8] {
        let padded = lv2_atom_pad_size(size);
        assert_eq!(lv2_atom_pad_size(padded), padded);
    }
}

#[test]
fn pad_size_near_the_top_of_the_range() {
    assert_eq!(LV2_ATOM_MAX_PADDABLE_SIZE, 0xFFFF_FFF8);
    assert_eq!(lv2_atom_pad_size(0xFFFF_FFF0), 0xFFFF_FFF0);
    assert_eq!(lv2_atom_pad_size(0xFFFF_FFF1), 0xFFFF_FFF8);
    assert_eq!(lv2_atom_pad_size(0xFFFF_FFF7), 0xFFFF_FFF8);
    assert_eq!(lv2_atom_pad_size(0xFFFF_FFF8), 0xFFFF_FFF8);
}
