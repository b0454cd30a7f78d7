use stack_scope::bounds::{bound_check, get_wrapped};
use stack_scope::estimate::{check_estimate_size, estimate_size};
use stack_scope::estimate_bounded;
use stack_scope::inventory::{any_inventory, safe_update, safe_update_with_any, Inventory};
use stack_scope::overflow::{add_overflow, find_midpoint, midpoint_overflow, simple_addition};
use stack_scope::prefix::{check_initialize_prefix, initialize_prefix};
use stack_scope::rating::{any_rating, check_rating, Rating};

#[test]
fn lib_it_works() {
    assert_eq!(estimate_size(1024), 7);
    assert_eq!(estimate_bounded::estimate_size(1024), 7);
}

#[test]
fn size_classes() {
    assert_eq!(estimate_size(0), 1);
    assert_eq!(estimate_size(127), 1);
    assert_eq!(estimate_size(128), 3);
    assert_eq!(estimate_size(255), 3);
    assert_eq!(estimate_size(256), 5);
    assert_eq!(estimate_size(1022), 5);
    assert_eq!(estimate_size(2047), 7);
    assert_eq!(estimate_size(2048), 9);
    assert_eq!(estimate_size(u32::MAX), 9);
    assert_eq!(check_estimate_size(255), 3);
    assert_eq!(estimate_bounded::estimate_size(1023), 4);
    assert_eq!(estimate_bounded::estimate_size(4095), 9);
    assert_eq!(estimate_bounded::verify_success(1023), 4);
}

#[test]
fn kani_concrete_playback_check_initialize_prefix_13918637217118803650() {
    let buffer = check_initialize_prefix(9);
    assert_eq!(buffer, vec![0u8; 10]);
}

#[test]
fn prefix_is_zeroed() {
    let mut buffer = vec![1u8; 5];
    initialize_prefix(2, &mut buffer);
    assert_eq!(buffer, vec![0, 0, 0, 1, 1]);
    let mut short = vec![7u8; 3];
    initialize_prefix(4, &mut short);
    assert_eq!(short, vec![7, 7, 7]);
    assert_eq!(check_initialize_prefix(0), vec![0, 1, 1, 1, 1, 1, 1, 1, 1, 1]);
}

#[test]
fn wrapped_reads() {
    assert_eq!(get_wrapped(7, &[]), 0);
    assert_eq!(get_wrapped(7, &[10, 20, 30]), 20);
    assert_eq!(get_wrapped(usize::MAX, &[10, 20]), 20);
    assert_eq!(bound_check(100, 12345), 0);
    assert_eq!(bound_check(0, 3), 0);
}

#[test]
fn additions() {
    assert_eq!(simple_addition(2, 3), 5);
    assert_eq!(add_overflow(u32::MAX - 1, 1), u32::MAX);
    assert_eq!(find_midpoint(4, 10), Some(7));
    assert_eq!(find_midpoint(u32::MAX, 1), None);
    assert_eq!(midpoint_overflow(u32::MAX, 0), Some(u32::MAX / 2));
}

#[test]
fn ratings() {
    assert_eq!(Rating::One.as_int(), 1);
    assert_eq!(Rating::Three.as_int(), 3);
    assert!(check_rating(Rating::Two));
    assert_eq!(any_rating(0), Rating::One);
    assert_eq!(any_rating(1), Rating::Two);
    assert_eq!(any_rating(9), Rating::Three);
}

#[test]
fn inventory_reads_back_updates() {
    let mut inv = Inventory::new();
    assert_eq!(inv.get(&3), None);
    inv.update(3, 10);
    inv.update(4, 1);
    inv.update(3, 12);
    assert_eq!(inv.get(&3), Some(12));
    assert_eq!(inv.get(&4), Some(1));
    assert_eq!(safe_update(5, 9), Some(9));
    assert_eq!(safe_update_with_any(6, 2), Some(2));
    let built = any_inventory(3, &vec![(1, 5), (2, 6), (1, 7)]);
    assert_eq!(built.get(&1), Some(7));
    assert_eq!(built.get(&2), Some(6));
}
