//! Behaviour of the palette-compressed container: write/read round trips,
//! bulk decoding, growth, and write idempotence.

use automata::Block;
use automata::Palette;

#[test]
fn unwritten_indices_return_background() {
    let p = Palette::new(64);
    assert_eq!(p.len(), 64);
    assert_eq!(p.lookup_len(), 1);
    for i in 0..64 {
        assert_eq!(p.get(i).id(), 0);
    }
}

#[test]
fn set_then_get_round_trip() {
    let mut p = Palette::new(64);
    p.set(0, Block::new(7, 1, 2));
    p.set(13, Block::new(3, 0, 0));
    p.set(63, Block::new(7, 1, 2));
    assert_eq!(p.get(0).id(), 7);
    assert_eq!(p.get(13).id(), 3);
    assert_eq!(p.get(63).id(), 7);
    // Indices never written still resolve to the background value.
    assert_eq!(p.get(1).id(), 0);
    assert_eq!(p.get(62).id(), 0);
}

#[test]
fn overwrite_returns_last_value() {
    let mut p = Palette::new(16);
    p.set(5, Block::new(1, 0, 0));
    p.set(5, Block::new(2, 0, 0));
    p.set(5, Block::new(3, 0, 0));
    assert_eq!(p.get(5).id(), 3);
}

#[test]
fn growth_preserves_previous_values() {
    let mut p = Palette::new(100);
    // Twenty distinct labels force the code width to double repeatedly.
    for i in 0..20 {
        p.set(i, Block::new((i + 1) as u16, 0, 0));
    }
    assert_eq!(p.lookup_len(), 21);
    for i in 0..20 {
        assert_eq!(p.get(i).id(), (i + 1) as u16);
    }
    for i in 20..100 {
        assert_eq!(p.get(i).id(), 0);
    }
}

#[test]
fn redundant_write_does_not_grow_lookup() {
    let mut p = Palette::new(32);
    p.set(5, Block::new(9, 0, 0));
    let n = p.lookup_len();
    p.set(5, Block::new(9, 0, 0));
    assert_eq!(p.lookup_len(), n);
    p.set(6, Block::new(9, 0, 0));
    assert_eq!(p.lookup_len(), n);
}

#[test]
fn copy_to_slice_matches_get() {
    let mut p = Palette::new(75);
    for i in 0..75 {
        p.set(i, Block::new((i % 7) as u16, 0, 0));
    }
    let mut out = vec![Block::air(); 75];
    p.copy_to_slice(&mut out);
    for i in 0..75 {
        assert_eq!(out[i].id(), p.get(i).id());
    }
}

#[test]
fn copy_to_slice_leaves_tail_unchanged() {
    let mut p = Palette::new(10);
    p.set(3, Block::new(4, 0, 0));
    let mut out = vec![Block::new(99, 0, 0); 15];
    p.copy_to_slice(&mut out);
    for i in 0..10 {
        assert_eq!(out[i].id(), p.get(i).id());
    }
    for i in 10..15 {
        assert_eq!(out[i].id(), 99);
    }
}

#[test]
fn block_equality_is_by_identity_only() {
    assert_eq!(Block::new(1, 5, 7), Block::new(1, 9, 0));
    assert_ne!(Block::new(1, 5, 7), Block::new(2, 5, 7));
}

#[test]
fn write_resolves_to_first_stored_attributes() {
    let mut p = Palette::new(8);
    p.set(0, Block::new(1, 5, 0));
    // The same identity with other display attributes resolves to the
    // block already in the lookup table.
    p.set(1, Block::new(1, 9, 0));
    assert_eq!(p.get(1).color(), 5);
    assert_eq!(p.lookup_len(), 2);
}

#[test]
fn lookup_values_are_codes_in_insertion_order() {
    let mut p = Palette::new(8);
    p.set(0, Block::new(5, 0, 0));
    p.set(1, Block::new(2, 0, 0));
    assert_eq!(p.get_lookup_value(0).id(), 0);
    assert_eq!(p.get_lookup_value(1).id(), 5);
    assert_eq!(p.get_lookup_value(2).id(), 2);
}
