use vstd::prelude::*;

use crate::strutil::{chars_to_string, str_to_chars};

verus! {

// The generator type of the rand_chacha crate, declared so that a value
// of it can live in a field; nothing of its inside is visible here.
#[verifier::external_type_specification]
#[verifier::external_body]
pub struct ExChaCha8Rng(rand_chacha::ChaCha8Rng);

// The identifier type of the uuid crate.
#[verifier::external_type_specification]
#[verifier::external_body]
pub struct ExUuid(uuid::Uuid);

/// The abstract state a generator is in; every draw is a function of it.
pub uninterp spec fn rng_state(r: rand_chacha::ChaCha8Rng) -> int;

/// The state a generator starts in for a given seed.
pub uninterp spec fn seed_state(seed: u64) -> int;

pub uninterp spec fn next_u64_of(state: int) -> u64;

pub uninterp spec fn next_u64_state(state: int) -> int;

pub uninterp spec fn next_u32_of(state: int) -> u32;

pub uninterp spec fn next_u32_state(state: int) -> int;

pub uninterp spec fn next_i64_of(state: int) -> i64;

pub uninterp spec fn next_i64_state(state: int) -> int;

pub uninterp spec fn next_bool_of(state: int) -> bool;

pub uninterp spec fn next_bool_state(state: int) -> int;

pub uninterp spec fn bytes16_of(state: int) -> Seq<u8>;

pub uninterp spec fn bytes16_state(state: int) -> int;

pub uninterp spec fn range_of(state: int, min: u64, max: u64) -> u64;

pub uninterp spec fn range_state(state: int, min: u64, max: u64) -> int;

/// The sixteen bytes an identifier was built from.
pub uninterp spec fn uuid_bytes(u: uuid::Uuid) -> Seq<u8>;

/// The seed a scenario name hashes to.
pub uninterp spec fn name_hash(s: Seq<char>) -> u64;

/// Relies on `SeedableRng::seed_from_u64` of rand_chacha: one seed always
/// builds one generator state.
#[verifier::external_body]
fn chacha_from_seed(seed: u64) -> (r: rand_chacha::ChaCha8Rng)
    ensures
        rng_state(r) == seed_state(seed),
{
    <rand_chacha::ChaCha8Rng as rand::SeedableRng>::seed_from_u64(seed)
}

/// Relies on `Rng::gen` for one 64-bit word: the value drawn and the state
/// left behind are functions of the state alone.
#[verifier::external_body]
fn chacha_next_u64(rng: &mut rand_chacha::ChaCha8Rng) -> (r: u64)
    ensures
        r == next_u64_of(rng_state(*old(rng))),
        rng_state(*final(rng)) == next_u64_state(rng_state(*old(rng))),
{
    rand::Rng::gen(rng)
}

/// Relies on `Rng::gen` for one 32-bit word.
#[verifier::external_body]
fn chacha_next_u32(rng: &mut rand_chacha::ChaCha8Rng) -> (r: u32)
    ensures
        r == next_u32_of(rng_state(*old(rng))),
        rng_state(*final(rng)) == next_u32_state(rng_state(*old(rng))),
{
    rand::Rng::gen(rng)
}

/// Relies on `Rng::gen` for one signed 64-bit word.
#[verifier::external_body]
fn chacha_next_i64(rng: &mut rand_chacha::ChaCha8Rng) -> (r: i64)
    ensures
        r == next_i64_of(rng_state(*old(rng))),
        rng_state(*final(rng)) == next_i64_state(rng_state(*old(rng))),
{
    rand::Rng::gen(rng)
}

/// Relies on `Rng::gen` for one boolean.
#[verifier::external_body]
fn chacha_next_bool(rng: &mut rand_chacha::ChaCha8Rng) -> (r: bool)
    ensures
        r == next_bool_of(rng_state(*old(rng))),
        rng_state(*final(rng)) == next_bool_state(rng_state(*old(rng))),
{
    rand::Rng::gen(rng)
}

/// Relies on `Rng::gen` for sixteen bytes.
#[verifier::external_body]
fn chacha_next_bytes16(rng: &mut rand_chacha::ChaCha8Rng) -> (r: [u8; 16])
    ensures
        r@ == bytes16_of(rng_state(*old(rng))),
        rng_state(*final(rng)) == bytes16_state(rng_state(*old(rng))),
{
    rand::Rng::gen(rng)
}

/// Relies on `Rng::gen_range` over a half-open range: the draw lies in the
/// range, and value and new state are functions of state and bounds alone.
#[verifier::external_body]
fn chacha_next_range(rng: &mut rand_chacha::ChaCha8Rng, min: u64, max: u64) -> (r: u64)
    requires
        min < max,
    ensures
        min <= r < max,
        r == range_of(rng_state(*old(rng)), min, max),
        rng_state(*final(rng)) == range_state(rng_state(*old(rng)), min, max),
{
    rand::Rng::gen_range(rng, min..max)
}

/// Relies on `Uuid::from_bytes`: the identifier holds exactly the sixteen
/// bytes given.
#[verifier::external_body]
fn uuid_of_bytes(b: [u8; 16]) -> (r: uuid::Uuid)
    ensures
        uuid_bytes(r) == b@,
{
    uuid::Uuid::from_bytes(b)
}

/// Relies on `DefaultHasher`, which always starts from the same fixed
/// keys: a name hashes to a seed that depends on the name alone.
#[verifier::external_body]
fn hash_scenario_name(name: &str) -> (r: u64)
    ensures
        r == name_hash(name@),
{
    let mut hasher = std::collections::hash_map::DefaultHasher::new();
    std::hash::Hash::hash(name, &mut hasher);
    std::hash::Hasher::finish(&hasher)
}

/// A deterministic generator: the same seed always yields the same draws,
/// in every typed form, so runs can be replayed.
#[derive(Debug)]
pub struct SeededRng {
    pub rng: rand_chacha::ChaCha8Rng,
    pub seed: u64,
}

pub struct SeededRngView {
    pub state: int,
    pub seed: u64,
}

impl View for SeededRng {
    type V = SeededRngView;

    open spec fn view(&self) -> SeededRngView {
        SeededRngView { state: rng_state(self.rng), seed: self.seed }
    }
}

/// The alphanumeric alphabet draws are mapped into.
pub open spec fn charset() -> Seq<char> {
    "ABCDEFGHIJKLMNOPQRSTUVWXYZabcdefghijklmnopqrstuvwxyz0123456789"@
}

pub open spec fn hex_charset() -> Seq<char> {
    "0123456789abcdef"@
}

/// The characters and the state a run of alphabet draws yields.
pub open spec fn rand_chars(alphabet: Seq<char>, state: int, n: nat) -> (Seq<char>, int)
    decreases n,
{
    if n == 0 {
        (Seq::empty(), state)
    } else {
        let (pre, st) = rand_chars(alphabet, state, (n - 1) as nat);
        let idx = range_of(st, 0, alphabet.len() as u64);
        (pre.push(alphabet[idx as int]), range_state(st, 0, alphabet.len() as u64))
    }
}

impl SeededRng {
    pub fn new() -> (r: Self)
        ensures
            r@.seed == 0,
            r@.state == seed_state(0),
    {
        Self::with_seed(0)
    }

    pub fn with_seed(seed: u64) -> (r: Self)
        ensures
            r@.seed == seed,
            r@.state == seed_state(seed),
    {
        SeededRng { rng: chacha_from_seed(seed), seed }
    }

    /// Seed a generator from a scenario name, so that the same scenario
    /// always replays the same way.
    pub fn from_scenario_name(name: &str) -> (r: Self)
        ensures
            r@.seed == name_hash(name@),
            r@.state == seed_state(name_hash(name@)),
    {
        Self::with_seed(hash_scenario_name(name))
    }

    pub fn seed(&self) -> (r: u64)
        ensures
            r == self@.seed,
    {
        self.seed
    }

    pub fn next_u64(&mut self) -> (r: u64)
        ensures
            r == next_u64_of(old(self)@.state),
            final(self)@.state == next_u64_state(old(self)@.state),
            final(self)@.seed == old(self)@.seed,
    {
        chacha_next_u64(&mut self.rng)
    }

    pub fn next_u32(&mut self) -> (r: u32)
        ensures
            r == next_u32_of(old(self)@.state),
            final(self)@.state == next_u32_state(old(self)@.state),
            final(self)@.seed == old(self)@.seed,
    {
        chacha_next_u32(&mut self.rng)
    }

    pub fn next_i64(&mut self) -> (r: i64)
        ensures
            r == next_i64_of(old(self)@.state),
            final(self)@.state == next_i64_state(old(self)@.state),
            final(self)@.seed == old(self)@.seed,
    {
        chacha_next_i64(&mut self.rng)
    }

    pub fn next_bool(&mut self) -> (r: bool)
        ensures
            r == next_bool_of(old(self)@.state),
            final(self)@.state == next_bool_state(old(self)@.state),
            final(self)@.seed == old(self)@.seed,
    {
        chacha_next_bool(&mut self.rng)
    }

    /// Sixteen drawn bytes as an identifier.
    pub fn next_uuid(&mut self) -> (r: uuid::Uuid)
        ensures
            uuid_bytes(r) == bytes16_of(old(self)@.state),
            final(self)@.state == bytes16_state(old(self)@.state),
            final(self)@.seed == old(self)@.seed,
    {
        let b = chacha_next_bytes16(&mut self.rng);
        uuid_of_bytes(b)
    }

    /// A draw from a half-open range.
    pub fn next_range(&mut self, min: u64, max: u64) -> (r: u64)
        requires
            min < max,
        ensures
            min <= r < max,
            r == range_of(old(self)@.state, min, max),
            final(self)@.state == range_state(old(self)@.state, min, max),
            final(self)@.seed == old(self)@.seed,
    {
        chacha_next_range(&mut self.rng, min, max)
    }

    /// A string of alphanumeric characters.
    pub fn next_string(&mut self, len: usize) -> (r: String)
        ensures
            (r@, final(self)@.state) == rand_chars(charset(), old(self)@.state, len as nat),
            final(self)@.seed == old(self)@.seed,
    {
        let alphabet = str_to_chars(
            "ABCDEFGHIJKLMNOPQRSTUVWXYZabcdefghijklmnopqrstuvwxyz0123456789",
        );
        proof {
            reveal_strlit("ABCDEFGHIJKLMNOPQRSTUVWXYZabcdefghijklmnopqrstuvwxyz0123456789");
            assert(alphabet@.len() == 62);
        }
        let mut out: Vec<char> = Vec::new();
        let mut i: usize = 0;
        while i < len
            invariant
                0 <= i <= len,
                alphabet@ == charset(),
                alphabet@.len() == 62,
                (out@, self@.state) == rand_chars(charset(), old(self)@.state, i as nat),
                self@.seed == old(self)@.seed,
            decreases len - i,
        {
            let idx = self.next_range(0, 62);
            out.push(alphabet[idx as usize]);
            i = i + 1;
        }
        chars_to_string(&out)
    }

    /// The same alphanumeric draw under its other name.
    pub fn next_alphanumeric(&mut self, len: usize) -> (r: String)
        ensures
            (r@, final(self)@.state) == rand_chars(charset(), old(self)@.state, len as nat),
            final(self)@.seed == old(self)@.seed,
    {
        self.next_string(len)
    }

    /// A string of lower-case hexadecimal digits.
    pub fn next_hex(&mut self, len: usize) -> (r: String)
        ensures
            (r@, final(self)@.state) == rand_chars(hex_charset(), old(self)@.state, len as nat),
            final(self)@.seed == old(self)@.seed,
    {
        let alphabet = str_to_chars("0123456789abcdef");
        proof {
            reveal_strlit("0123456789abcdef");
            assert(alphabet@.len() == 16);
        }
        let mut out: Vec<char> = Vec::new();
        let mut i: usize = 0;
        while i < len
            invariant
                0 <= i <= len,
                alphabet@ == hex_charset(),
                alphabet@.len() == 16,
                (out@, self@.state) == rand_chars(hex_charset(), old(self)@.state, i as nat),
                self@.seed == old(self)@.seed,
            decreases len - i,
        {
            let idx = self.next_range(0, 16);
            out.push(alphabet[idx as usize]);
            i = i + 1;
        }
        chars_to_string(&out)
    }

    /// One element of the slice, drawn by index; nothing from an empty
    /// slice.
    pub fn pick<'a, T>(&mut self, items: &'a [T]) -> (r: Option<&'a T>)
        ensures
            items@.len() == 0 ==> r is None && final(self)@ == old(self)@,
            items@.len() > 0 ==> (r matches Some(v) && *v == items@[range_of(
                old(self)@.state,
                0,
                items@.len() as u64,
            ) as int] && final(self)@.state == range_state(old(self)@.state, 0,
                items@.len() as u64) && final(self)@.seed == old(self)@.seed),
    {
        let n = items.len();
        if n == 0 {
            None
        } else {
            let idx = self.next_range(0, n as u64);
            Some(vstd::slice::slice_index_get(items, idx as usize))
        }
    }
}

/// The order and the final state that repeatedly drawing an index and
/// taking that element out yields.
pub open spec fn spec_shuffle<T>(pool: Seq<T>, state: int) -> (Seq<T>, int)
    decreases pool.len(),
{
    if pool.len() == 0 {
        (Seq::empty(), state)
    } else {
        let raw = range_of(state, 0, pool.len() as u64) as int;
        let idx = if 0 <= raw < pool.len() {
            raw
        } else {
            0
        };
        let st2 = range_state(state, 0, pool.len() as u64);
        let v = pool[idx];
        let pool2 = pool.update(idx, pool.last()).drop_last();
        let (rest, st3) = spec_shuffle(pool2, st2);
        (seq![v] + rest, st3)
    }
}

/// A shuffle hands back the same elements: the result holds exactly the
/// multiset of the pool.
pub proof fn lemma_shuffle_multiset<T>(pool: Seq<T>, state: int)
    ensures
        spec_shuffle(pool, state).0.to_multiset() == pool.to_multiset(),
        spec_shuffle(pool, state).0.len() == pool.len(),
    decreases pool.len(),
{
    broadcast use vstd::seq_lib::group_to_multiset_ensures;

    if pool.len() > 0 {
        let raw = range_of(state, 0, pool.len() as u64) as int;
        let idx = if 0 <= raw < pool.len() {
            raw
        } else {
            0
        };
        let v = pool[idx];
        let upd = pool.update(idx, pool.last());
        let pool2 = upd.drop_last();
        lemma_shuffle_multiset(pool2, range_state(state, 0, pool.len() as u64));
        vstd::seq_lib::to_multiset_update(pool, idx, pool.last());
        assert(upd.drop_last().push(upd.last()) =~= upd);
        vstd::seq_lib::to_multiset_build(upd.drop_last(), upd.last());
        assert(upd.last() == pool.last());
        let rest = spec_shuffle(pool2, range_state(state, 0, pool.len() as u64)).0;
        assert(seq![v] + rest =~= rest.insert(0, v));
        vstd::seq_lib::to_multiset_insert(rest, 0, v);
        assert(upd.to_multiset() == pool.to_multiset().remove(v).insert(pool.last()));
        assert(pool2.to_multiset().insert(pool.last()) == upd.to_multiset());
        assert(spec_shuffle(pool, state).0.to_multiset() == pool2.to_multiset().insert(v));
        assert(pool2.to_multiset() == pool.to_multiset().remove(v).insert(pool.last()).remove(
            pool.last(),
        ));
        assert(pool.to_multiset().contains(v));
        assert(pool2.to_multiset().insert(v) =~= pool.to_multiset());
    }
}

impl SeededRng {
    /// Put the elements into a drawn order, in place.
    pub fn shuffle<T>(&mut self, items: &mut Vec<T>)
        ensures
            (final(items)@, final(self)@.state) == spec_shuffle(old(items)@, old(self)@.state),
            final(items)@.to_multiset() == old(items)@.to_multiset(),
            final(self)@.seed == old(self)@.seed,
    {
        let mut out: Vec<T> = Vec::new();
        proof {
            assert(out@ =~= Seq::<T>::empty());
        }
        while items.len() > 0
            invariant
                self@.seed == old(self)@.seed,
                spec_shuffle(old(items)@, old(self)@.state) == ({
                    let (rest, st) = spec_shuffle(items@, self@.state);
                    (out@ + rest, st)
                }),
            decreases items@.len(),
        {
            let n = items.len();
            let ghost st0 = self@.state;
            let ghost pre_pool = items@;
            let ghost pre_out = out@;
            let idx = self.next_range(0, n as u64);
            let v = items.swap_remove(idx as usize);
            out.push(v);
            proof {
                let raw = range_of(st0, 0, pre_pool.len() as u64) as int;
                assert(0 <= raw < pre_pool.len());
                assert(v == pre_pool[raw]);
                assert(items@ == pre_pool.update(raw, pre_pool.last()).drop_last());
                let (rest2, st2) = spec_shuffle(items@, self@.state);
                assert(spec_shuffle(pre_pool, st0) == (seq![v] + rest2, st2));
                assert(out@ + rest2 =~= pre_out + (seq![v] + rest2));
            }
        }
        proof {
            assert(spec_shuffle(items@, self@.state) == (Seq::<T>::empty(), self@.state));
            assert(out@ + Seq::<T>::empty() =~= out@);
        }
        *items = out;
        proof {
            lemma_shuffle_multiset(old(items)@, old(self)@.state);
        }
    }
}

impl Clone for SeededRng {
    /// A clone starts over from the stored seed: a fresh generator that
    /// will replay the same sequence from the beginning.
    fn clone(&self) -> (r: Self)
        ensures
            r@.seed == self@.seed,
            r@.state == seed_state(self@.seed),
    {
        SeededRng::with_seed(self.seed)
    }
}

/// The state after a number of 64-bit draws from a seed.
pub open spec fn nth_state(seed: u64, n: nat) -> int
    decreases n,
{
    if n == 0 {
        seed_state(seed)
    } else {
        next_u64_state(nth_state(seed, (n - 1) as nat))
    }
}

/// The n-th 64-bit word a seed yields: a function of the seed and the
/// position alone, so two generators started from one seed agree at
/// every position.
pub open spec fn nth_u64(seed: u64, n: nat) -> u64 {
    next_u64_of(nth_state(seed, n))
}

/// Equal states draw equal values and move to equal states, for every
/// typed draw: two generators seeded alike stay alike, so their whole
/// sequences coincide.
pub proof fn lemma_rng_determinism(a: int, b: int)
    requires
        a == b,
    ensures
        next_u64_of(a) == next_u64_of(b),
        next_u64_state(a) == next_u64_state(b),
        next_u32_of(a) == next_u32_of(b),
        next_i64_of(a) == next_i64_of(b),
        next_bool_of(a) == next_bool_of(b),
        bytes16_of(a) == bytes16_of(b),
        forall|min: u64, max: u64| range_of(a, min, max) == range_of(b, min, max),
{
}

} // verus!
