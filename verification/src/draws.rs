//! Random draws.

use rand::distr::Alphanumeric;
use rand::rngs::StdRng;
use rand::{RngExt, SeedableRng};
use vstd::prelude::*;

use crate::chaos::{tell, tell_both};

verus! {

/// A random number generator of `rand`.
#[verifier::external_type_specification]
#[verifier::external_body]
pub struct OutsideStdRng(rand::rngs::StdRng);

/// The seed of all measurements.
pub const BENCH_SEED: u64 = 0x3A02_9E81_F650_7B4C;

/// `SeedableRng::seed_from_u64`. What the generator will draw is left unsaid: by its documentation
/// that is not the same on every machine, even with a fixed seed.
#[verifier::external_body]
pub(crate) fn seeded_rng(seed: u64) -> (r: StdRng) {
    StdRng::seed_from_u64(seed)
}

/// `RngExt::random_range` over the numbers below `n`: one of them.
#[verifier::external_body]
pub(crate) fn draw_below(rng: &mut StdRng, n: usize) -> (r: usize)
    requires
        n > 0,
    ensures
        r < n,
{
    rng.random_range(0..n)
}

/// `RngExt::random_range` from `low` to below `high`: one of the numbers between.
#[verifier::external_body]
pub(crate) fn draw_between(rng: &mut StdRng, low: i64, high: i64) -> (r: i64)
    requires
        low < high,
    ensures
        low <= r < high,
{
    rng.random_range(low..high)
}

/// `RngExt::random_range` from `low` to below `high`: one of the numbers between.
#[verifier::external_body]
pub(crate) fn draw_small(rng: &mut StdRng, low: i32, high: i32) -> (r: i32)
    requires
        low < high,
    ensures
        low <= r < high,
{
    rng.random_range(low..high)
}

/// `RngExt::random`: any 64-bit number.
#[verifier::external_body]
pub(crate) fn draw_word(rng: &mut StdRng) -> (r: u64) {
    rng.random()
}

/// `RngExt::fill` on as many bytes: any bytes.
#[verifier::external_body]
pub(crate) fn draw_bytes(rng: &mut StdRng, n: usize) -> (r: Vec<u8>)
    ensures
        r.len() == n,
{
    let mut bytes = vec![0u8; n];
    rng.fill(&mut bytes[..]);
    bytes
}

/// Whether a character is an ASCII letter or digit.
pub open spec fn is_alphanumeric(c: char) -> bool {
    'a' <= c <= 'z' || 'A' <= c <= 'Z' || '0' <= c <= '9'
}

/// `RngExt::sample` with `rand::distr::Alphanumeric`: an ASCII letter or digit.
#[verifier::external_body]
pub(crate) fn draw_alphanumeric(rng: &mut StdRng) -> (r: char)
    ensures
        is_alphanumeric(r),
{
    rng.sample(Alphanumeric) as char
}

/// Whether all characters are ASCII letters or digits.
pub open spec fn all_alphanumeric(s: Seq<char>) -> bool {
    forall|i: int| 0 <= i < s.len() ==> is_alphanumeric(#[trigger] s[i])
}

// ---- what a generator gives ----------------------------------------------------------------

/// Calls a function of three arguments, and tells that its result is one that it gives for them.
fn tell_three<A, B, C, R, F: Fn(A, B, C) -> R>(f: F, a: A, b: B, c: C) -> (r: R)
    requires
        call_requires(f, (a, b, c)),
    ensures
        call_ensures(f, (a, b, c), r),
{
    f(a, b, c)
}

/// Whether a generator is one that a seed makes.
pub closed spec fn seeded(seed: u64, rng: StdRng) -> bool {
    call_ensures(seeded_rng, (seed,), rng)
}

/// Whether a number is one that the generator gives where it is asked for a number below `n`, and
/// this is what becomes of the generator.
spec fn below_given(rng: &mut StdRng, n: usize, r: usize) -> bool {
    call_ensures(draw_below, (rng, n), r)
}

fn take_below(rng: StdRng, n: usize) -> (r: (StdRng, usize))
    requires
        n > 0,
    ensures
        r.1 < n,
        exists|m: &mut StdRng|
            *m == rng && *final(m) == r.0 && #[trigger] below_given(m, n, r.1),
{
    let mut rng = rng;
    let r: usize = tell_both(draw_below, &mut rng, n);
    assert(forall|m: &mut StdRng| #[trigger]
        call_ensures(draw_below, (m, n), r) ==> below_given(m, n, r));
    (rng, r)
}

/// Whether a number is one that the generator gives where it is asked for a number below `n`, and
/// the generator then stands at `after`.
pub closed spec fn gave_below(before: StdRng, n: usize, r: usize, after: StdRng) -> bool {
    call_ensures(take_below, (before, n), (after, r))
}

/// Whether a number is one that the generator gives where it is asked for a number from `low` to below `high`, and
/// this is what becomes of the generator.
spec fn between_given(rng: &mut StdRng, low: i64, high: i64, r: i64) -> bool {
    call_ensures(draw_between, (rng, low, high), r)
}

fn take_between(rng: StdRng, low: i64, high: i64) -> (r: (StdRng, i64))
    requires
        low < high,
    ensures
        low <= r.1 < high,
        exists|m: &mut StdRng|
            *m == rng && *final(m) == r.0 && #[trigger] between_given(m, low, high, r.1),
{
    let mut rng = rng;
    let r: i64 = tell_three(draw_between, &mut rng, low, high);
    assert(forall|m: &mut StdRng| #[trigger]
        call_ensures(draw_between, (m, low, high), r) ==> between_given(m, low, high, r));
    (rng, r)
}

/// Whether a number is one that the generator gives where it is asked for a number from `low` to below `high`, and
/// the generator then stands at `after`.
pub closed spec fn gave_between(before: StdRng, low: i64, high: i64, r: i64, after: StdRng) -> bool {
    call_ensures(take_between, (before, low, high), (after, r))
}

/// Whether a number is one that the generator gives where it is asked for a number from `low` to below `high`, and
/// this is what becomes of the generator.
spec fn small_given(rng: &mut StdRng, low: i32, high: i32, r: i32) -> bool {
    call_ensures(draw_small, (rng, low, high), r)
}

fn take_small(rng: StdRng, low: i32, high: i32) -> (r: (StdRng, i32))
    requires
        low < high,
    ensures
        low <= r.1 < high,
        exists|m: &mut StdRng|
            *m == rng && *final(m) == r.0 && #[trigger] small_given(m, low, high, r.1),
{
    let mut rng = rng;
    let r: i32 = tell_three(draw_small, &mut rng, low, high);
    assert(forall|m: &mut StdRng| #[trigger]
        call_ensures(draw_small, (m, low, high), r) ==> small_given(m, low, high, r));
    (rng, r)
}

/// Whether a number is one that the generator gives where it is asked for a number from `low` to below `high`, and
/// the generator then stands at `after`.
pub closed spec fn gave_small(before: StdRng, low: i32, high: i32, r: i32, after: StdRng) -> bool {
    call_ensures(take_small, (before, low, high), (after, r))
}

/// Whether a word is one that the generator gives where it is asked for a word, and
/// this is what becomes of the generator.
spec fn word_given(rng: &mut StdRng, r: u64) -> bool {
    call_ensures(draw_word, (rng,), r)
}

fn take_word(rng: StdRng) -> (r: (StdRng, u64))
    ensures
        exists|m: &mut StdRng|
            *m == rng && *final(m) == r.0 && #[trigger] word_given(m, r.1),
{
    let ghost before = rng;
    let mut rng = rng;
    let r: u64 = tell(draw_word, &mut rng);
    assert(exists|m: &mut StdRng|
        *m == before && *final(m) == rng && #[trigger] call_ensures(draw_word, (m,), r));
    assert(forall|m: &mut StdRng| #[trigger]
        call_ensures(draw_word, (m,), r) ==> word_given(m, r));
    let result: (StdRng, u64) = (rng, r);
    assert(result.1 == r);
    assert(exists|m: &mut StdRng|
        *m == before && *final(m) == result.0 && #[trigger] word_given(m, result.1));
    result
}

/// Whether a word is one that the generator gives where it is asked for a word, and
/// the generator then stands at `after`.
pub closed spec fn gave_word(before: StdRng, r: u64, after: StdRng) -> bool {
    call_ensures(take_word, (before,), (after, r))
}

/// Whether bytes are some that the generator gives where it is asked for so many bytes, and
/// this is what becomes of the generator.
spec fn bytes_given(rng: &mut StdRng, n: usize, r: Vec<u8>) -> bool {
    call_ensures(draw_bytes, (rng, n), r)
}

fn take_bytes(rng: StdRng, n: usize) -> (r: (StdRng, Vec<u8>))
    ensures
        r.1.len() == n,
        exists|m: &mut StdRng|
            *m == rng && *final(m) == r.0 && #[trigger] bytes_given(m, n, r.1),
{
    let mut rng = rng;
    let r: Vec<u8> = tell_both(draw_bytes, &mut rng, n);
    assert(forall|m: &mut StdRng| #[trigger]
        call_ensures(draw_bytes, (m, n), r) ==> bytes_given(m, n, r));
    (rng, r)
}

/// Whether bytes are some that the generator gives where it is asked for so many bytes, and
/// the generator then stands at `after`.
pub closed spec fn gave_bytes(before: StdRng, n: usize, r: Vec<u8>, after: StdRng) -> bool {
    call_ensures(take_bytes, (before, n), (after, r))
}

/// Whether a character is one that the generator gives where it is asked for a letter or digit, and
/// this is what becomes of the generator.
spec fn alphanumeric_given(rng: &mut StdRng, r: char) -> bool {
    call_ensures(draw_alphanumeric, (rng,), r)
}

fn take_alphanumeric(rng: StdRng) -> (r: (StdRng, char))
    ensures
        is_alphanumeric(r.1),
        exists|m: &mut StdRng|
            *m == rng && *final(m) == r.0 && #[trigger] alphanumeric_given(m, r.1),
{
    let mut rng = rng;
    let r: char = tell(draw_alphanumeric, &mut rng);
    assert(forall|m: &mut StdRng| #[trigger]
        call_ensures(draw_alphanumeric, (m,), r) ==> alphanumeric_given(m, r));
    (rng, r)
}

/// Whether a character is one that the generator gives where it is asked for a letter or digit, and
/// the generator then stands at `after`.
pub closed spec fn gave_alphanumeric(before: StdRng, r: char, after: StdRng) -> bool {
    call_ensures(take_alphanumeric, (before,), (after, r))
}

/// What a generator gives is of the kind that it is asked for.
pub proof fn given_numbers_lie_in_their_ranges(before: StdRng, after: StdRng)
    ensures
        forall|n: usize, r: usize| n > 0 && #[trigger] gave_below(before, n, r, after) ==> r < n,
        forall|low: i64, high: i64, r: i64|
            low < high && #[trigger] gave_between(before, low, high, r, after) ==> low <= r < high,
        forall|low: i32, high: i32, r: i32|
            low < high && #[trigger] gave_small(before, low, high, r, after) ==> low <= r < high,
        forall|n: usize, r: Vec<u8>| #[trigger] gave_bytes(before, n, r, after) ==> r.len() == n,
        forall|c: char| #[trigger] gave_alphanumeric(before, c, after) ==> is_alphanumeric(c),
{
}

/// A generator that can be taken out and put back.
pub(crate) struct Generator {
    rng: Option<StdRng>,
}

impl Generator {
    /// The generator of a seed.
    pub(crate) fn from_seed(seed: u64) -> (r: Self)
        ensures
            r.well_formed(),
            seeded(seed, r@),
    {
        Generator { rng: Some(tell(seeded_rng, seed)) }
    }

    /// A generator that is given.
    pub(crate) fn new(rng: StdRng) -> (r: Self)
        ensures
            r.well_formed(),
            r@ == rng,
    {
        Generator { rng: Some(rng) }
    }

    /// Hands the generator out.
    pub(crate) fn into_inner(self) -> (r: StdRng)
        requires
            self.well_formed(),
        ensures
            r == self@,
    {
        self.rng.unwrap()
    }

    /// Where the generator stands.
    pub(crate) closed spec fn view(&self) -> StdRng {
        self.rng->0
    }

    /// The generator is there.
    pub(crate) closed spec fn well_formed(&self) -> bool {
        self.rng is Some
    }

    /// A number below `n`.
    pub(crate) fn below(&mut self, n: usize) -> (r: usize)
        requires
            old(self).well_formed(),
            n > 0,
        ensures
            final(self).well_formed(),
            gave_below(old(self)@, n, r, final(self)@),
            r < n,
    {
        let rng = self.rng.take().unwrap();
        let (rng, r) = tell_both(take_below, rng, n);
        self.rng = Some(rng);
        r
    }

    /// A number from `low` to below `high`.
    pub(crate) fn between(&mut self, low: i64, high: i64) -> (r: i64)
        requires
            old(self).well_formed(),
            low < high,
        ensures
            final(self).well_formed(),
            gave_between(old(self)@, low, high, r, final(self)@),
            low <= r < high,
    {
        let rng = self.rng.take().unwrap();
        let (rng, r) = tell_three(take_between, rng, low, high);
        self.rng = Some(rng);
        r
    }

    /// A number from `low` to below `high`.
    pub(crate) fn small(&mut self, low: i32, high: i32) -> (r: i32)
        requires
            old(self).well_formed(),
            low < high,
        ensures
            final(self).well_formed(),
            gave_small(old(self)@, low, high, r, final(self)@),
            low <= r < high,
    {
        let rng = self.rng.take().unwrap();
        let (rng, r) = tell_three(take_small, rng, low, high);
        self.rng = Some(rng);
        r
    }

    /// A 64-bit number.
    pub(crate) fn word(&mut self) -> (r: u64)
        requires
            old(self).well_formed(),
        ensures
            final(self).well_formed(),
            gave_word(old(self)@, r, final(self)@),
    {
        let rng = self.rng.take().unwrap();
        let (rng, r) = tell(take_word, rng);
        self.rng = Some(rng);
        r
    }

    /// So many bytes.
    pub(crate) fn bytes(&mut self, n: usize) -> (r: Vec<u8>)
        requires
            old(self).well_formed(),
        ensures
            final(self).well_formed(),
            gave_bytes(old(self)@, n, r, final(self)@),
            r.len() == n,
    {
        let rng = self.rng.take().unwrap();
        let (rng, r) = tell_both(take_bytes, rng, n);
        self.rng = Some(rng);
        r
    }

    /// A letter or digit.
    pub(crate) fn alphanumeric(&mut self) -> (r: char)
        requires
            old(self).well_formed(),
        ensures
            final(self).well_formed(),
            gave_alphanumeric(old(self)@, r, final(self)@),
            is_alphanumeric(r),
    {
        let rng = self.rng.take().unwrap();
        let (rng, r) = tell(take_alphanumeric, rng);
        self.rng = Some(rng);
        r
    }
}

/// Whether numbers below `n` are those that a generator gives one after the other, where it stands
/// at these places.
pub open spec fn belows_drawn(states: Seq<StdRng>, n: usize, draws: Seq<usize>) -> bool {
    &&& states.len() == draws.len() + 1
    &&& forall|i: int|
        0 <= i < draws.len() ==> gave_below(states[i], n, #[trigger] draws[i], states[i + 1])
}

/// Whether numbers below `n` are those that a generator gives one after the other.
pub open spec fn belows_run(before: StdRng, n: usize, draws: Seq<usize>, after: StdRng) -> bool {
    exists|states: Seq<StdRng>| #[trigger]
        belows_drawn(states, n, draws) && states.first() == before && states.last() == after
}

/// Whether characters are those that a generator gives one after the other, where it stands at these
/// places.
pub open spec fn chars_drawn(states: Seq<StdRng>, s: Seq<char>) -> bool {
    &&& states.len() == s.len() + 1
    &&& forall|i: int|
        0 <= i < s.len() ==> gave_alphanumeric(states[i], #[trigger] s[i], states[i + 1])
}

/// Whether characters are those that a generator gives one after the other.
pub open spec fn chars_run(before: StdRng, s: Seq<char>, after: StdRng) -> bool {
    exists|states: Seq<StdRng>| #[trigger]
        chars_drawn(states, s) && states.first() == before && states.last() == after
}

/// Draws so many numbers below `n`.
pub(crate) fn draw_belows(rng: &mut Generator, n: usize, count: usize) -> (r: Vec<usize>)
    requires
        old(rng).well_formed(),
        count > 0 ==> n > 0,
    ensures
        final(rng).well_formed(),
        r.len() == count,
        forall|i: int| 0 <= i < r.len() ==> #[trigger] r[i] < n,
        belows_run(old(rng)@, n, r@, final(rng)@),
{
    let mut draws: Vec<usize> = Vec::new();
    let ghost mut states: Seq<StdRng> = seq![rng@];
    let mut i: usize = 0;
    while i < count
        invariant
            i <= count,
            count > 0 ==> n > 0,
            rng.well_formed(),
            draws.len() == i,
            forall|j: int| 0 <= j < draws.len() ==> #[trigger] draws[j] < n,
            belows_drawn(states, n, draws@),
            states.first() == old(rng)@,
            states.last() == rng@,
        decreases count - i,
    {
        let ghost earlier = draws@;
        let ghost before = states;
        let drawn: usize = rng.below(n);
        draws.push(drawn);
        proof {
            states = states.push(rng@);
            assert forall|j: int| 0 <= j < draws@.len() implies gave_below(
                states[j],
                n,
                #[trigger] draws@[j],
                states[j + 1],
            ) by {
                if j < earlier.len() {
                    assert(draws@[j] == earlier[j]);
                    assert(gave_below(before[j], n, earlier[j], before[j + 1]));
                }
            }
        }
        i += 1;
    }
    draws
}

/// Appends as many letters and digits that a generator gives to a text.
pub(crate) fn append_alphanumeric(out: &mut String, rng: &mut Generator, n: usize)
    requires
        old(rng).well_formed(),
    ensures
        final(rng).well_formed(),
        final(out)@.len() == old(out)@.len() + n,
        final(out)@.take(old(out)@.len() as int) == old(out)@,
        all_alphanumeric(final(out)@.skip(old(out)@.len() as int)),
        chars_run(old(rng)@, final(out)@.skip(old(out)@.len() as int), final(rng)@),
{
    let ghost before = out@;
    let ghost mut states: Seq<StdRng> = seq![rng@];
    let ghost mut drawn: Seq<char> = seq![];
    let mut i: usize = 0;
    while i < n
        invariant
            i <= n,
            rng.well_formed(),
            drawn.len() == i,
            out@ == before + drawn,
            all_alphanumeric(drawn),
            chars_drawn(states, drawn),
            states.first() == old(rng)@,
            states.last() == rng@,
        decreases n - i,
    {
        let ghost earlier = drawn;
        let ghost stood = states;
        let c: char = rng.alphanumeric();
        out.push(c);
        proof {
            drawn = drawn.push(c);
            states = states.push(rng@);
            assert(out@ =~= before + drawn);
            assert forall|j: int| 0 <= j < drawn.len() implies gave_alphanumeric(
                states[j],
                #[trigger] drawn[j],
                states[j + 1],
            ) by {
                if j < earlier.len() {
                    assert(drawn[j] == earlier[j]);
                    assert(gave_alphanumeric(stood[j], earlier[j], stood[j + 1]));
                }
            }
        }
        i += 1;
    }
    assert(out@.take(before.len() as int) =~= before);
    assert(out@.skip(before.len() as int) =~= drawn);
}

/// Appends as many random letters and digits to a text: those that the generator gives.
pub fn push_alphanumeric(out: &mut String, rng: &mut StdRng, n: usize)
    ensures
        final(out)@.len() == old(out)@.len() + n,
        final(out)@.take(old(out)@.len() as int) == old(out)@,
        all_alphanumeric(final(out)@.skip(old(out)@.len() as int)),
        chars_run(*old(rng), final(out)@.skip(old(out)@.len() as int), *final(rng)),
{
    let mut taken = seeded_rng(BENCH_SEED);
    std::mem::swap(rng, &mut taken);
    let mut generator = Generator::new(taken);
    append_alphanumeric(out, &mut generator, n);
    *rng = generator.into_inner();
}

/// The draws of one of eight or nine times in ten: those below a bound. A word stands for the
/// number between zero and one whose first fifty-three binary digits are the word's.
pub open spec fn fraction_of(word: u64) -> int {
    word as int / 2048
}

/// How many fifty-three-digit binary fractions lie below nine tenths.
pub const NINE_TENTHS: u64 = 8106479329266893;

/// How many fifty-three-digit binary fractions lie below eight tenths.
pub const EIGHT_TENTHS: u64 = 7205759403792794;

/// Whether the number that a word stands for is below a bound.
pub fn falls_below(word: u64, bound: u64) -> (r: bool)
    ensures
        r == (fraction_of(word) < bound),
{
    word / 2048 < bound
}

} // verus!
