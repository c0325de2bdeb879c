//! Behaviour of the block registry and the attribute flag set.

use automata::BlockRegistry;
use automata::block_registry::ATTR_COLLIDEABLE;
use automata::block_registry::ATTR_TRANSPARENT;
use automata::block_registry::Attributes;

#[test]
fn default_registry_holds_transparent_air() {
    let registry = BlockRegistry::default();
    assert!(registry.block_exists(0));
    assert!(!registry.block_exists(1));
    assert_eq!(registry.get_block_name(0), "core:air");
    assert!(registry.get_block_attributes(0).contains(Attributes::from_bits(ATTR_TRANSPARENT)));
}

#[test]
fn register_block_assigns_sequential_ids() {
    let mut registry = BlockRegistry::default();
    let stone = registry.register_block("core", "stone", Attributes::empty());
    let grass = registry.register_block("core", "grass", Attributes::from_bits(ATTR_COLLIDEABLE));
    assert_eq!(stone, 1);
    assert_eq!(grass, 2);
    assert_eq!(registry.get_block_name(1), "core:stone");
    assert_eq!(registry.get_block_name(2), "core:grass");
    assert!(registry.block_exists(2));
    assert!(!registry.block_exists(3));
}

#[test]
fn get_block_id_finds_registered_names() {
    let mut registry = BlockRegistry::default();
    registry.register_block("core", "stone", Attributes::empty());
    assert_eq!(registry.get_block_id(String::from("core:air")), Some(0));
    assert_eq!(registry.get_block_id(String::from("core:stone")), Some(1));
    assert_eq!(registry.get_block_id(String::from("core:missing")), None);
}

#[test]
fn get_block_id_prefers_latest_registration() {
    let mut registry = BlockRegistry::default();
    registry.register_block("core", "stone", Attributes::empty());
    let second = registry.register_block("core", "stone", Attributes::from_bits(ATTR_COLLIDEABLE));
    assert_eq!(registry.get_block_id(String::from("core:stone")), Some(second));
}

#[test]
fn attributes_contains_checks_all_flags() {
    let both = Attributes::from_bits(ATTR_TRANSPARENT).with(Attributes::from_bits(
        ATTR_COLLIDEABLE,
    ));
    assert!(both.contains(Attributes::from_bits(ATTR_TRANSPARENT)));
    assert!(both.contains(Attributes::from_bits(ATTR_COLLIDEABLE)));
    assert!(both.contains(both));
    assert!(both.contains(Attributes::empty()));
    assert!(!Attributes::from_bits(ATTR_TRANSPARENT).contains(both));
}

#[test]
fn block_attributes_round_trip() {
    let mut registry = BlockRegistry::default();
    registry.register_block("core", "stone", Attributes::empty());
    assert!(!registry.get_block_attributes(1).contains(Attributes::from_bits(ATTR_TRANSPARENT)));
    assert_eq!(registry.get_block_attributes(1).bits, 0);
}
