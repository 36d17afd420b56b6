use epd_e6_driver::nibbles::{underlying_data_len, Nibbles};
use epd_e6_driver::nibbles_vec::{pairs_count, NibblesVec};

#[test]
fn vec_nibbles_enough_space_test() {
    let nibbles: Nibbles<u8> = Nibbles::new(vec![0u8; 32], 64);
    assert_eq!(nibbles.get(63), 0);
}

#[test]
fn get_set_nibbles_test() {
    let mut nibbles: Nibbles<u8> = Nibbles::new(vec![0u8; 4], 7);
    let mut it = nibbles.iter();
    while let Some(nibble) = it.next() {
        assert_eq!(nibble, 0);
    }

    for i in 0..nibbles.len() {
        nibbles.set(i, i as u8 % 0x0F);
    }

    for i in 0..nibbles.len() {
        assert_eq!(nibbles.get(i), i as u8 % 0x0F);
    }
}

#[test]
fn construction_succeeds_iff_capacity_suffices() {
    assert!(Nibbles::<u8>::try_new(vec![0u8; 32], 64).is_some());
    assert!(Nibbles::<u8>::try_new(vec![0u8; 32], 65).is_none());
    assert!(Nibbles::<u8>::try_new(vec![0u8; 4], 7).is_some());
    assert!(Nibbles::<u8>::try_new(vec![0u8; 4], 8).is_some());
    assert!(Nibbles::<u8>::try_new(vec![0u8; 4], 9).is_none());
    assert!(Nibbles::<u8>::try_new(Vec::new(), 0).is_some());
    assert!(Nibbles::<u8>::try_new(Vec::new(), 1).is_none());
}

#[test]
fn construction_with_len_65_over_32_bytes_fails() {
    let store: Option<Nibbles<u8>> = Nibbles::try_new(vec![0u8; 32], 65);
    assert!(store.is_none());
}

#[test]
fn set_changes_only_its_own_index() {
    let mut nibbles: Nibbles<u8> = Nibbles::new(vec![0u8; 8], 16);
    for i in 0..16 {
        nibbles.set(i, (i % 16) as u8);
    }
    nibbles.set(9, 3);
    for i in 0..16 {
        if i == 9 {
            assert_eq!(nibbles.get(i), 3);
        } else {
            assert_eq!(nibbles.get(i), (i % 16) as u8);
        }
    }
}

#[test]
fn high_nibble_write_keeps_low_half_of_byte() {
    let mut nibbles: Nibbles<u8> = Nibbles::new(vec![0u8; 32], 64);
    nibbles.set(62, 0x0A);
    nibbles.set(63, 0x0F);
    assert_eq!(nibbles.get(63), 0x0F);
    assert_eq!(nibbles.get(62), 0x0A);
    assert_eq!(nibbles.as_underlying_data()[31], 0xAF);
}

#[test]
fn traversal_yields_len_items_in_order_and_repeats() {
    let mut nibbles: Nibbles<u8> = Nibbles::new(vec![0u8; 4], 7);
    for i in 0..7 {
        nibbles.set(i, (6 - i) as u8);
    }
    let first: Vec<u8> = nibbles.to_vec();
    let second: Vec<u8> = nibbles.to_vec();
    assert_eq!(first.len(), 7);
    assert_eq!(first, vec![6, 5, 4, 3, 2, 1, 0]);
    assert_eq!(first, second);

    let mut it = nibbles.iter();
    let mut seen = Vec::new();
    while let Some(v) = it.next() {
        seen.push(v);
    }
    assert_eq!(seen, first);
}

#[test]
fn fill_prefix_fills_in_order_and_keeps_rest() {
    let mut nibbles: Nibbles<u8> = Nibbles::new(vec![0xFFu8; 4], 8);
    nibbles.fill_prefix(&vec![1, 2, 3]);
    let codes: Vec<u8> = nibbles.to_vec();
    assert_eq!(codes, vec![1, 2, 3, 15, 15, 15, 15, 15]);
}

#[test]
fn fill_rect_is_row_major_and_leaves_the_outside() {
    // A 4-wide, 3-tall grid; fill the rectangle x in 1..=2, y in 0..=1.
    let mut nibbles: Nibbles<u8> = Nibbles::new(vec![0u8; 6], 12);
    nibbles.fill_rect(&vec![7, 8, 9, 10], 4, (1, 2), (0, 1));
    let codes: Vec<u8> = nibbles.to_vec();
    let expected = vec![
        0, 7, 8, 0, //
        0, 9, 10, 0, //
        0, 0, 0, 0,
    ];
    assert_eq!(codes, expected);
}

#[test]
fn underlying_data_len_rounds_up() {
    assert_eq!(underlying_data_len(0), 0);
    assert_eq!(underlying_data_len(1), 1);
    assert_eq!(underlying_data_len(7), 4);
    assert_eq!(underlying_data_len(64), 32);
    assert_eq!(underlying_data_len(65), 33);
}

#[test]
fn pairs_count_rounds_up() {
    assert_eq!(pairs_count(0), 0);
    assert_eq!(pairs_count(1), 1);
    assert_eq!(pairs_count(7), 4);
    assert_eq!(pairs_count(64), 32);
}

#[test]
fn nibbles_vec_starts_zeroed_with_exact_size() {
    let store: NibblesVec<u8> = NibblesVec::with_len(7);
    assert_eq!(store.len(), 7);
    assert_eq!(store.as_slice().len(), 4);
    for i in 0..7 {
        assert_eq!(store.get(i), 0);
    }
}

#[test]
fn nibbles_vec_get_set_round_trip() {
    let mut store: NibblesVec<u8> = NibblesVec::with_len(7);
    for i in 0..store.len() {
        store.set(i, i as u8 % 0x0F);
    }
    assert_eq!(store.get(6), 6);
    assert_eq!(store.get(0), 0);
    for i in 0..store.len() {
        assert_eq!(store.get(i), i as u8 % 0x0F);
    }
}

#[test]
fn nibbles_vec_traversal_repeats() {
    let mut store: NibblesVec<u8> = NibblesVec::with_len(5);
    for i in 0..5 {
        store.set(i, (i + 1) as u8);
    }
    let mut it = store.iter();
    let mut first = Vec::new();
    while let Some(v) = it.next() {
        first.push(v);
    }
    let mut it2 = store.iter();
    let mut second = Vec::new();
    while let Some(v) = it2.next() {
        second.push(v);
    }
    assert_eq!(first, vec![1, 2, 3, 4, 5]);
    assert_eq!(first, second);
}
