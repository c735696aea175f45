use std::collections::HashSet;

use parakeet::clock::{Clock, ManualClock};
use parakeet::ids::{EntropyIdGen, IdGen, SequentialIdGen};

#[test]
fn minted_ids_carry_the_current_time() {
    let mut clock = ManualClock::new(1_754_800_000_000);
    let mut ids = EntropyIdGen::new(clock.now_ms());
    assert_eq!(ids.mint(clock.now_ms()).timestamp_ms(), 1_754_800_000_000);
    clock.set(1_754_800_005_000);
    assert_eq!(ids.mint(clock.now_ms()).timestamp_ms(), 1_754_800_005_000);
}

#[test]
fn ids_minted_in_the_same_millisecond_are_still_distinct() {
    let clock = ManualClock::new(1_000);
    let mut ids = EntropyIdGen::new(clock.now_ms());
    let minted: HashSet<_> = (0..1_000).map(|_| ids.mint(clock.now_ms())).collect();
    assert_eq!(minted.len(), 1_000);
}

#[test]
fn short_tags_are_distinct_too() {
    let clock = ManualClock::new(1_000);
    let mut ids = EntropyIdGen::new(clock.now_ms());
    let tags: HashSet<_> = (0..1_000).map(|_| ids.mint(clock.now_ms()).short_tag()).collect();
    assert_eq!(tags.len(), 1_000);
}

#[test]
fn a_seeded_generator_repeats_itself() {
    let clock = ManualClock::new(1_000);
    let first: Vec<_> = {
        let mut ids = SequentialIdGen::new(42);
        (0..5).map(|_| ids.mint(clock.now_ms())).collect()
    };
    let second: Vec<_> = {
        let mut ids = SequentialIdGen::new(42);
        (0..5).map(|_| ids.mint(clock.now_ms())).collect()
    };
    assert_eq!(first, second);
}

#[test]
fn the_random_part_follows_split_mix_64() {
    // Reference SplitMix64 outputs for seed 0.
    let mut ids = SequentialIdGen::new(0);
    let id = ids.mint(0);
    let hi: u128 = 0xE220A8397B1DCDAF & 0xFFFF;
    let lo: u128 = 0x6E789E6AA1B965F4;
    assert_eq!(id.as_u128(), (hi << 64) | lo);
    assert_eq!(ids.mint_tag(0).as_u64(), 0xF88BB8A8724C81EC);
}

#[test]
fn a_seeded_generator_mints_distinct_tags_across_times() {
    let mut ids = SequentialIdGen::new(0);
    let tags: HashSet<u64> = (0..2_000u64)
        .map(|k| ids.mint(1_000 + (k % 3)).short_tag().0)
        .collect();
    assert_eq!(tags.len(), 2_000);
}
