//! Fresh root seeds for key generation, drawn from the standard library's
//! randomly keyed hasher.
use std::collections::hash_map::RandomState;
use std::hash::BuildHasher;
use vstd::prelude::*;
use crate::prg::join_words;

verus! {

/// Relies on `RandomState::new`: a hasher builder with freshly chosen random
/// keys. Nothing is known of the keys.
#[verifier::external_body]
fn fresh_state() -> (r: RandomState) {
    RandomState::new()
}

/// Relies on `BuildHasher::hash_one`: the hash of `x` under the builder's
/// random keys. Nothing is known of the value.
#[verifier::external_body]
fn draw(state: &RandomState, x: u64) -> (r: u64) {
    state.hash_one(x)
}

/// Two root seeds drawn under a freshly keyed hasher.
pub fn fresh_seed_pair() -> (r: (u128, u128)) {
    let state = fresh_state();
    let a = draw(&state, 0);
    let b = draw(&state, 1);
    let c = draw(&state, 2);
    let d = draw(&state, 3);
    (join_words(a, b), join_words(c, d))
}

} // verus!
