//! Minting message ids: the current time above 80 bits drawn from a
//! SplitMix64 sequence, seeded either by the caller or by the process's
//! random hashing keys.

use vstd::prelude::*;
use std::collections::hash_map::RandomState;
use crate::id::{id_from_parts, tag_span, MessageId, ShortTag};
use vstd::arithmetic::div_mod::{
    lemma_add_mod_noop, lemma_mod_twice, lemma_mod_multiples_vanish, lemma_mul_mod_noop_left,
    lemma_mul_mod_noop_right, lemma_small_mod, lemma_sub_mod_noop,
};

verus! {

/// The SplitMix64 increment.
pub const GOLDEN_GAMMA: u64 = 0x9E37_79B9_7F4A_7C15;

/// The SplitMix64 output function applied to a state.
pub open spec fn spec_mix64(z: u64) -> u64 {
    let z1 = (z ^ (z >> 30u64)).wrapping_mul(0xBF58_476D_1CE4_E5B9u64);
    let z2 = (z1 ^ (z1 >> 27u64)).wrapping_mul(0x94D0_49BB_1331_11EBu64);
    z2 ^ (z2 >> 31u64)
}

/// The state after one step of the sequence.
pub open spec fn spec_next_state(state: u64) -> u64 {
    state.wrapping_add(GOLDEN_GAMMA)
}

/// One SplitMix64 step: advances the state and returns its output.
fn split_mix64(state: &mut u64) -> (out: u64)
    ensures
        *final(state) == spec_next_state(*old(state)),
        out == spec_mix64(*final(state)),
{
    let mut z = *state;
    *state = z.wrapping_add(GOLDEN_GAMMA);
    z = z.wrapping_add(GOLDEN_GAMMA);
    z = (z ^ (z >> 30u64)).wrapping_mul(0xBF58_476D_1CE4_E5B9u64);
    z = (z ^ (z >> 27u64)).wrapping_mul(0x94D0_49BB_1331_11EBu64);
    z ^ (z >> 31u64)
}

/// The 80 random bits drawn from `state`: two outputs, the first above the
/// second, cut to 80 bits.
pub open spec fn spec_random_80(state: u64) -> u128 {
    let hi = spec_mix64(spec_next_state(state));
    let lo = spec_mix64(spec_next_state(spec_next_state(state)));
    ((hi as int % 0x1_0000) * 0x1_0000_0000_0000_0000 + lo as int) as u128
}

fn random_80(state: &mut u64) -> (r: u128)
    ensures
        *final(state) == spec_next_state(spec_next_state(*old(state))),
        r == spec_random_80(*old(state)),
{
    let hi = split_mix64(state) as u128;
    let lo = split_mix64(state) as u128;
    proof {
        assert(hi < 0x1_0000_0000_0000_0000u128 && lo < 0x1_0000_0000_0000_0000u128 ==>
            ((hi << 64u128) | lo) & 0xffff_ffff_ffff_ffff_ffffu128
                == (hi % 0x1_0000) * 0x1_0000_0000_0000_0000 + lo) by (bit_vector);
    }
    ((hi << 64u128) | lo) & 0xffff_ffff_ffff_ffff_ffffu128
}

/// A source of fresh message ids, given the current time.
pub trait IdGen: Sized {
    /// The id the generator mints next at time `now_ms`.
    spec fn next_id(&self, now_ms: u64) -> MessageId;

    /// The generator once it minted an id.
    spec fn advanced(&self) -> Self;

    fn mint(&mut self, now_ms: u64) -> (id: MessageId)
        ensures
            id == old(self).next_id(now_ms),
            *final(self) == old(self).advanced(),
    ;

    /// The short tag of a freshly minted id.
    fn mint_tag(&mut self, now_ms: u64) -> (tag: ShortTag)
        ensures
            tag.0 as int == old(self).next_id(now_ms).0 as int % crate::id::tag_span(),
            *final(self) == old(self).advanced(),
    {
        self.mint(now_ms).short_tag()
    }
}

/// An id generator whose random part is a SplitMix64 sequence from a chosen
/// seed: the same seed gives the same ids at the same times.
#[derive(Debug)]
pub struct SequentialIdGen {
    state: u64,
}

impl SequentialIdGen {
    pub closed spec fn state(&self) -> u64 {
        self.state
    }

    /// The generator whose state is `state`.
    pub closed spec fn with_state(state: u64) -> SequentialIdGen {
        SequentialIdGen { state }
    }

    /// A generator is the one with its state.
    pub proof fn lemma_state_determines(g: SequentialIdGen, state: u64)
        ensures
            (g == SequentialIdGen::with_state(state)) == (g.state() == state),
    {
    }

    pub fn new(seed: u64) -> (g: SequentialIdGen)
        ensures
            g.state() == seed,
    {
        SequentialIdGen { state: seed }
    }

    /// A new id: the time above the next 80 random bits of the sequence.
    pub fn next_id(&mut self, now_ms: u64) -> (id: MessageId)
        ensures
            id.0 as int == id_from_parts(now_ms, spec_random_80(old(self).state())),
            final(self).state() == spec_next_state(spec_next_state(old(self).state())),
    {
        let r = random_80(&mut self.state);
        MessageId::from_parts(now_ms, r)
    }
}

impl IdGen for SequentialIdGen {
    open spec fn next_id(&self, now_ms: u64) -> MessageId {
        MessageId(id_from_parts(now_ms, spec_random_80(self.state())) as u128)
    }

    open spec fn advanced(&self) -> Self {
        SequentialIdGen::with_state(spec_next_state(spec_next_state(self.state())))
    }

    fn mint(&mut self, now_ms: u64) -> (id: MessageId) {
        self.next_id(now_ms)
    }
}

/// Hashing keys std draws at random.
///
/// Trusted: calls `std::collections::hash_map::RandomState::new`; nothing is
/// promised of the keys.
#[verifier::external_body]
fn fresh_hash_keys() -> RandomState {
    RandomState::new()
}

/// `value` hashed under `keys`.
///
/// Trusted: calls `std::hash::BuildHasher::hash_one`; with keys drawn at
/// random nothing is promised of the value.
#[verifier::external_body]
fn hash_under(keys: &RandomState, value: u64) -> u64 {
    std::hash::BuildHasher::hash_one(keys, value)
}

/// A seed drawn from the process's random hashing keys and the time.
fn random_seed(now_ms: u64) -> u64 {
    let keys = fresh_hash_keys();
    hash_under(&keys, now_ms)
}

/// An id generator seeded at random: ids minted in the same millisecond
/// still differ in their random bits.
#[derive(Debug)]
pub struct EntropyIdGen {
    state: u64,
}

impl EntropyIdGen {
    pub closed spec fn state(&self) -> u64 {
        self.state
    }

    /// The generator whose state is `state`.
    pub closed spec fn with_state(state: u64) -> EntropyIdGen {
        EntropyIdGen { state }
    }

    /// A generator is the one with its state.
    pub proof fn lemma_state_determines(g: EntropyIdGen, state: u64)
        ensures
            (g == EntropyIdGen::with_state(state)) == (g.state() == state),
    {
    }

    /// A generator seeded from the process's random keys and the time.
    pub fn new(now_ms: u64) -> (g: EntropyIdGen) {
        EntropyIdGen { state: random_seed(now_ms) }
    }

    /// A new id: the time above the next 80 random bits of the sequence.
    pub fn next_id(&mut self, now_ms: u64) -> (id: MessageId)
        ensures
            id.0 as int == id_from_parts(now_ms, spec_random_80(old(self).state())),
            final(self).state() == spec_next_state(spec_next_state(old(self).state())),
    {
        let r = random_80(&mut self.state);
        MessageId::from_parts(now_ms, r)
    }
}

impl IdGen for EntropyIdGen {
    open spec fn next_id(&self, now_ms: u64) -> MessageId {
        MessageId(id_from_parts(now_ms, spec_random_80(self.state())) as u128)
    }

    open spec fn advanced(&self) -> Self {
        EntropyIdGen::with_state(spec_next_state(spec_next_state(self.state())))
    }

    fn mint(&mut self, now_ms: u64) -> (id: MessageId) {
        self.next_id(now_ms)
    }
}

/// The state of a SplitMix64 sequence from `seed` once `k` ids were drawn
/// from it, each taking two steps.
pub open spec fn state_after(seed: u64, k: nat) -> u64
    decreases k,
{
    if k == 0 {
        seed
    } else {
        spec_next_state(spec_next_state(state_after(seed, (k - 1) as nat)))
    }
}

/// The generator `g` once it minted `k` ids.
pub open spec fn advanced_by(g: SequentialIdGen, k: nat) -> SequentialIdGen
    decreases k,
{
    if k == 0 {
        g
    } else {
        advanced_by(g, (k - 1) as nat).advanced()
    }
}

/// The inverse of `GOLDEN_GAMMA` modulo 2^64.
spec fn gamma_inverse() -> int {
    0xF1DE_83E1_9937_733D
}

/// Multiplying modulo 2^64 by a number with an inverse loses nothing.
proof fn lemma_invertible_product(x: int, y: int, c: int, cinv: int)
    requires
        0 <= x < tag_span(),
        0 <= y < tag_span(),
        (c * cinv) % tag_span() == 1,
        (x * c) % tag_span() == (y * c) % tag_span(),
    ensures
        x == y,
{
    let m = tag_span();
    lemma_mul_mod_noop_left(x * c, cinv, m);
    lemma_mul_mod_noop_left(y * c, cinv, m);
    assert((x * c) * cinv == x * (c * cinv)) by (nonlinear_arith);
    assert((y * c) * cinv == y * (c * cinv)) by (nonlinear_arith);
    lemma_mul_mod_noop_right(x, c * cinv, m);
    lemma_mul_mod_noop_right(y, c * cinv, m);
    lemma_small_mod(x as nat, m as nat);
    lemma_small_mod(y as nat, m as nat);
}

proof fn lemma_xorshift_30(x: u64, y: u64)
    by (bit_vector)
    requires
        x ^ (x >> 30u64) == y ^ (y >> 30u64),
    ensures
        x == y,
{
}

proof fn lemma_xorshift_27(x: u64, y: u64)
    by (bit_vector)
    requires
        x ^ (x >> 27u64) == y ^ (y >> 27u64),
    ensures
        x == y,
{
}

proof fn lemma_xorshift_31(x: u64, y: u64)
    by (bit_vector)
    requires
        x ^ (x >> 31u64) == y ^ (y >> 31u64),
    ensures
        x == y,
{
}

/// The SplitMix64 output function tells states apart: each of its steps
/// can be undone.
pub proof fn law_mix64_is_injective(a: u64, b: u64)
    requires
        spec_mix64(a) == spec_mix64(b),
    ensures
        a == b,
{
    let a1 = a ^ (a >> 30u64);
    let b1 = b ^ (b >> 30u64);
    let a2 = a1.wrapping_mul(0xBF58_476D_1CE4_E5B9u64);
    let b2 = b1.wrapping_mul(0xBF58_476D_1CE4_E5B9u64);
    let a3 = a2 ^ (a2 >> 27u64);
    let b3 = b2 ^ (b2 >> 27u64);
    let a4 = a3.wrapping_mul(0x94D0_49BB_1331_11EBu64);
    let b4 = b3.wrapping_mul(0x94D0_49BB_1331_11EBu64);
    lemma_xorshift_31(a4, b4);
    lemma_invertible_product(a3 as int, b3 as int, 0x94D0_49BB_1331_11EB, 0x3196_42B2_D24D_8EC3);
    lemma_xorshift_27(a2, b2);
    lemma_invertible_product(a1 as int, b1 as int, 0xBF58_476D_1CE4_E5B9, 0x96DE_1B17_3F11_9089);
    lemma_xorshift_30(a, b);
}

/// One step of the sequence adds the increment modulo 2^64.
proof fn lemma_next_state_adds(s: u64)
    ensures
        spec_next_state(s) as int == (s + GOLDEN_GAMMA) % tag_span(),
{
    if s + GOLDEN_GAMMA >= tag_span() {
        lemma_mod_multiples_vanish(1, s + GOLDEN_GAMMA - tag_span(), tag_span());
        lemma_small_mod((s + GOLDEN_GAMMA - tag_span()) as nat, tag_span() as nat);
    } else {
        lemma_small_mod((s + GOLDEN_GAMMA) as nat, tag_span() as nat);
    }
}

/// After `k` draws the state has moved by `2 * k` increments modulo 2^64.
pub proof fn lemma_state_after(seed: u64, k: nat)
    ensures
        state_after(seed, k) as int == (seed + 2 * k * GOLDEN_GAMMA) % tag_span(),
    decreases k,
{
    let m = tag_span();
    if k == 0 {
        lemma_small_mod(seed as nat, m as nat);
    } else {
        let p = state_after(seed, (k - 1) as nat);
        lemma_state_after(seed, (k - 1) as nat);
        lemma_next_state_adds(p);
        lemma_next_state_adds(spec_next_state(p));
        let base = seed + 2 * (k - 1) * GOLDEN_GAMMA;
        lemma_add_mod_noop(base, GOLDEN_GAMMA as int, m);
        lemma_small_mod(GOLDEN_GAMMA as nat, m as nat);
        lemma_mod_twice(base, m);
        lemma_add_mod_noop(base + GOLDEN_GAMMA, GOLDEN_GAMMA as int, m);
        lemma_mod_twice(base + GOLDEN_GAMMA, m);
        assert(base + GOLDEN_GAMMA + GOLDEN_GAMMA == seed + 2 * k * GOLDEN_GAMMA) by (nonlinear_arith)
            requires
                base == seed + 2 * (k - 1) * GOLDEN_GAMMA,
                k > 0,
        ;
    }
}

/// Within 2^63 draws the sequence never comes back to a state.
proof fn lemma_states_differ(seed: u64, i: nat, j: nat)
    requires
        i < j,
        j - i < 0x8000_0000_0000_0000,
    ensures
        state_after(seed, i) != state_after(seed, j),
{
    let m = tag_span();
    lemma_state_after(seed, i);
    lemma_state_after(seed, j);
    let xi = seed + 2 * i * GOLDEN_GAMMA;
    let xj = seed + 2 * j * GOLDEN_GAMMA;
    let d = 2 * (j - i);
    if state_after(seed, i) == state_after(seed, j) {
        lemma_sub_mod_noop(xj, xi, m);
        assert(xj - xi == d * GOLDEN_GAMMA) by (nonlinear_arith)
            requires
                xi == seed + 2 * i * GOLDEN_GAMMA,
                xj == seed + 2 * j * GOLDEN_GAMMA,
                d == 2 * (j - i),
        ;
        assert((d * GOLDEN_GAMMA) % m == 0);
        assert((0 * GOLDEN_GAMMA) % m == 0);
        lemma_invertible_product(d, 0, GOLDEN_GAMMA as int, gamma_inverse());
    }
}

/// The short tag of an id minted from `state` at `now_ms` is the SplitMix64
/// output of the state two steps on.
proof fn lemma_minted_tag(state: u64, now_ms: u64)
    ensures
        id_from_parts(now_ms, spec_random_80(state)) % tag_span() == spec_mix64(
            spec_next_state(spec_next_state(state)),
        ) as int,
        0 <= id_from_parts(now_ms, spec_random_80(state)) < crate::id::id_span(),
{
    let hi = spec_mix64(spec_next_state(state));
    let lo = spec_mix64(spec_next_state(spec_next_state(state)));
    let r = (hi as int % 0x1_0000) * 0x1_0000_0000_0000_0000 + lo as int;
    assert(spec_random_80(state) as int == r);
    lemma_small_mod(r as nat, crate::id::random_span() as nat);
    let t = now_ms as int % 0x1_0000_0000_0000;
    assert(id_from_parts(now_ms, spec_random_80(state)) == tag_span() * (t * 0x1_0000 + hi as int % 0x1_0000) + lo);
    lemma_mod_multiples_vanish(t * 0x1_0000 + hi as int % 0x1_0000, lo as int, tag_span());
    lemma_small_mod(lo as nat, tag_span() as nat);
}

/// The ids one seeded generator mints carry distinct short tags, whatever
/// the times they are minted at, as long as fewer than 2^63 ids lie between
/// them: the `i`th and the `j`th minted ids differ in their low 64 bits.
pub proof fn law_seeded_tags_are_distinct(g: SequentialIdGen, i: nat, j: nat, ti: u64, tj: u64)
    requires
        i < j,
        j - i < 0x8000_0000_0000_0000,
    ensures
        IdGen::next_id(&advanced_by(g, i), ti).0 as int % tag_span() != IdGen::next_id(
            &advanced_by(g, j),
            tj,
        ).0 as int % tag_span(),
{
    lemma_advanced_by_state(g, i);
    lemma_advanced_by_state(g, j);
    lemma_advanced_by_state(g, i + 1);
    lemma_advanced_by_state(g, j + 1);
    let si = advanced_by(g, i).state();
    let sj = advanced_by(g, j).state();
    lemma_minted_tag(si, ti);
    lemma_minted_tag(sj, tj);
    lemma_states_differ(g.state(), i + 1, j + 1);
    assert(state_after(g.state(), i + 1) == spec_next_state(spec_next_state(si)));
    assert(state_after(g.state(), j + 1) == spec_next_state(spec_next_state(sj)));
    if spec_mix64(spec_next_state(spec_next_state(si))) == spec_mix64(spec_next_state(spec_next_state(sj))) {
        law_mix64_is_injective(spec_next_state(spec_next_state(si)), spec_next_state(spec_next_state(sj)));
    }
}

/// Minting `k` ids from `g` leaves the state `k` draws on.
proof fn lemma_advanced_by_state(g: SequentialIdGen, k: nat)
    ensures
        advanced_by(g, k).state() == state_after(g.state(), k),
    decreases k,
{
    if k > 0 {
        lemma_advanced_by_state(g, (k - 1) as nat);
    }
}

/// A minted id carries the time it was minted at.
pub proof fn law_minted_ids_carry_the_time(now_ms: u64, random: u128)
    requires
        now_ms <= crate::id::MAX_TIMESTAMP_MS,
    ensures
        id_from_parts(now_ms, random) / crate::id::random_span() == now_ms,
{
    crate::id::law_timestamp_survives(now_ms, random);
    vstd::arithmetic::div_mod::lemma_small_mod(now_ms as nat, 0x1_0000_0000_0000);
}

} // verus!
