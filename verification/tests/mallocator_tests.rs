use memstress::mallocator::{build_patterned, build_same_value, AllocState};

#[test]
fn same_value_fill_is_uniform() {
    let v = build_same_value(0xab, 1000);
    assert_eq!(v.len(), 1000);
    assert!(v.iter().all(|&b| b == 0xab));
}

#[test]
fn patterned_fill_cycles_seed_bytes() {
    let seed: u128 = 0x0403_0201;
    let v = build_patterned(seed, 100);
    assert_eq!(v.len(), 100);
    for i in 0..100usize {
        if i % 10 != 0 {
            // Position i mod 4 picks byte i mod 4 of the seed's low word.
            let expected = match i % 4 {
                0 => 0x01,
                1 => 0x02,
                2 => 0x03,
                _ => 0x04,
            };
            assert_eq!(v[i], expected, "wrong pattern byte at {}", i);
        }
    }
}

#[test]
fn allocator_state_accounts_bytes() {
    let mut state = AllocState::new();
    assert_eq!(state.tot_allocated, 0);
    assert_eq!(state.base_size, 1_000_000);

    state.set_base_size(1000);
    state.allocate(3);
    assert_eq!(state.tot_allocated, 3000);

    state.set_base_size(500);
    state.allocate(2);
    assert_eq!(state.tot_allocated, 4000);

    // Freeing caps at what the bucket holds.
    state.free(10);
    assert_eq!(state.tot_allocated, 3000);

    state.set_base_size(1000);
    state.free(1);
    assert_eq!(state.tot_allocated, 2000);

    // Freeing a size never allocated changes nothing.
    state.set_base_size(42);
    state.free(5);
    assert_eq!(state.tot_allocated, 2000);
}

#[test]
fn allocator_flags_toggle() {
    let mut state = AllocState::new();
    assert!(!state.binary_multiples);
    assert!(!state.same_value_fill);
    state.toggle_binary_multiples();
    state.toggle_same_value_fill();
    assert!(state.binary_multiples);
    assert!(state.same_value_fill);
    state.toggle_binary_multiples();
    assert!(!state.binary_multiples);
}

#[test]
fn same_value_allocations_are_tracked_too() {
    let mut state = AllocState::new();
    state.toggle_same_value_fill();
    state.set_base_size(256);
    state.allocate(4);
    assert_eq!(state.tot_allocated, 1024);
    state.free(4);
    assert_eq!(state.tot_allocated, 0);
}
