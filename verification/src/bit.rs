//! Bit strategies: which bit of a channel byte carries one payload bit.

use crate::parse::{find_dash, first_dash, is_word, number, parse_number, ParseError};
use rand::Rng;
use rand_pcg::Lcg128Xsl64;
use rand_seeder::Seeder;
use vstd::prelude::*;
use vstd::string::StringSliceAdditionalSpecFns;

verus! {

/// The generator `rand_pcg::Pcg64`, carried as an opaque value.
#[verifier::external_type_specification]
#[verifier::external_body]
pub struct ExLcg128Xsl64(Lcg128Xsl64);

/// The generator that `rand_seeder::Seeder` makes from the seed string.
pub uninterp spec fn seeded_generator(seed: Seq<char>) -> Lcg128Xsl64;

/// The number that `rand::Rng::gen_range` draws from `low..=high` on the
/// generator `rng`, and the generator as the draw leaves it.
pub uninterp spec fn range_draw(rng: Lcg128Xsl64, low: u8, high: u8) -> (u8, Lcg128Xsl64);

/// Calls `rand_seeder::Seeder::from(seed).make_rng()`. The seeder hashes the
/// string with its own portable SipHash and fills the generator's seed from
/// it, so the generator is a function of the string alone.
#[verifier::external_body]
fn seeded(seed: &str) -> (rng: Lcg128Xsl64)
    ensures
        rng == seeded_generator(seed@),
{
    Seeder::from(seed).make_rng()
}

/// Calls `rand::Rng::gen_range(low..=high)`. The draw lies in the range, and
/// both the draw and the generator's next state are functions of the
/// generator's state and of the bounds. The call panics on an empty range,
/// which `low <= high` rules out.
#[verifier::external_body]
fn draw(rng: &mut Lcg128Xsl64, low: u8, high: u8) -> (n: u8)
    requires
        low <= high,
    ensures
        (n, *final(rng)) == range_draw(*old(rng), low, high),
        low <= n <= high,
{
    rng.gen_range(low..=high)
}

/// Whether `n` selects exactly one of the four low-order bits.
pub open spec fn is_mask(n: u8) -> bool {
    n == 1 || n == 2 || n == 4 || n == 8
}

/// The channel byte `c` after the bit under `mask` has been cleared
/// (`bit == 0`) or set (`bit == 1`); any other `bit` leaves `c` as it is.
pub open spec fn stored(c: u8, mask: u8, bit: u8) -> u8 {
    if bit == 0 {
        c & !mask
    } else if bit == 1 {
        c | mask
    } else {
        c
    }
}

/// The payload bit that the channel byte `c` carries under `mask`.
pub open spec fn loaded(c: u8, mask: u8) -> u8 {
    if c & mask != 0 {
        1
    } else {
        0
    }
}

/// Supported ways of spreading the bits over the pixels.
#[derive(Debug, Clone, Copy, PartialEq, Eq, Structural)]
pub enum BitDistribution {
    /// Encode bits sequentially into the image starting from top-left.
    Sequential,
    /// Evenly space out the bits in the image so that they are not all
    /// packed into the top-left; `length` is the number of pixels visited.
    Linear { length: usize },
}

impl BitDistribution {
    /// The distribution that the text names. The name stands before the
    /// first hyphen: `sequential`, or `linear`, whose length stands between
    /// the first hyphen and the second and is 0 where there is no hyphen.
    pub open spec fn parse(s: Seq<u8>) -> Result<BitDistribution, ParseError> {
        let dash = find_dash(s, 0);
        let name = s.subrange(0, dash);
        if name == "sequential".spec_bytes() {
            Ok(BitDistribution::Sequential)
        } else if name == "linear".spec_bytes() {
            if dash < s.len() {
                match parse_number(s.subrange(dash + 1, find_dash(s, dash + 1))) {
                    Some(length) => Ok(BitDistribution::Linear { length }),
                    None => Err(ParseError::BadLength),
                }
            } else {
                Ok(BitDistribution::Linear { length: 0 })
            }
        } else {
            Err(ParseError::UnknownDistribution)
        }
    }

    /// Reads a distribution from its name: `sequential`, `linear` or
    /// `linear-N` with the number of pixels to visit.
    pub fn from_str(method: &str) -> (r: Result<BitDistribution, ParseError>)
        ensures
            r == BitDistribution::parse(method.spec_bytes()),
    {
        let text = method.as_bytes();
        let dash: usize = first_dash(text, 0);
        if is_word(text, 0, dash, "sequential".as_bytes()) {
            Ok(BitDistribution::Sequential)
        } else if is_word(text, 0, dash, "linear".as_bytes()) {
            if dash < text.len() {
                let next: usize = first_dash(text, dash + 1);
                match number(text, dash + 1, next) {
                    Some(length) => Ok(BitDistribution::Linear { length }),
                    None => Err(ParseError::BadLength),
                }
            } else {
                Ok(BitDistribution::Linear { length: 0 })
            }
        } else {
            Err(ParseError::UnknownDistribution)
        }
    }
}

impl Default for BitDistribution {
    fn default() -> (dist: Self)
        ensures
            dist == BitDistribution::Sequential,
    {
        BitDistribution::Sequential
    }
}

/// Bit masks for setting or clearing bits in bytes.
#[derive(Clone, Copy, Debug)]
pub enum BitMask {
    One,
    Two,
    Four,
    Eight,
}

impl BitMask {
    /// The byte with only the selected bit set.
    pub open spec fn value(self) -> u8 {
        match self {
            BitMask::One => 1,
            BitMask::Two => 2,
            BitMask::Four => 4,
            BitMask::Eight => 8,
        }
    }

    /// The mask whose byte is `n`.
    pub fn from(n: u8) -> (mask: BitMask)
        requires
            is_mask(n),
        ensures
            mask.value() == n,
    {
        if n == 1 {
            BitMask::One
        } else if n == 2 {
            BitMask::Two
        } else if n == 4 {
            BitMask::Four
        } else {
            BitMask::Eight
        }
    }

    /// The mask as a byte.
    pub fn bits(self) -> (n: u8)
        ensures
            n == self.value(),
            is_mask(n),
    {
        match self {
            BitMask::One => 1,
            BitMask::Two => 2,
            BitMask::Four => 4,
            BitMask::Eight => 8,
        }
    }
}

/// A strategy for carrying one payload bit in one channel byte.
///
/// A strategy may have state: every call of `encode` or `decode` uses the
/// selector that the state holds and moves the state on by one step.
pub trait BitEncode: Sized {
    /// What holds of every state that the strategy can be in.
    spec fn wf(&self) -> bool;

    /// The selector that the next call of `encode` or `decode` uses.
    spec fn selector(&self) -> u8;

    /// The state after the next call of `encode` or `decode`.
    spec fn advance(&self) -> Self;

    /// Whether the next selector names a single bit, so that `encode` and
    /// `decode` can be called.
    fn ready(&self) -> (ok: bool)
        requires
            self.wf(),
        ensures
            ok == is_mask(self.selector()),
    ;

    /// Encode a bit of information into a byte.
    fn encode(&mut self, bit: &u8, color_val: &mut u8)
        requires
            old(self).wf(),
            is_mask(old(self).selector()),
        ensures
            final(self).wf(),
            *final(self) == old(self).advance(),
            *final(color_val) == stored(*old(color_val), old(self).selector(), *bit),
    ;

    /// Decode a bit of information from a byte.
    fn decode(&mut self, color_val: &u8) -> (bit: u8)
        requires
            old(self).wf(),
            is_mask(old(self).selector()),
        ensures
            final(self).wf(),
            *final(self) == old(self).advance(),
            bit == loaded(*color_val, old(self).selector()),
    ;
}

/// The state of the strategy `e` after `k` calls.
pub open spec fn after<E: BitEncode>(e: E, k: nat) -> E
    decreases k,
{
    if k == 0 {
        e
    } else {
        after(e, (k - 1) as nat).advance()
    }
}

/// How many of the next `n` calls of the strategy `e` can be made before
/// one meets a selector that names no single bit.
pub open spec fn ready_prefix<E: BitEncode>(e: E, n: nat) -> nat
    decreases n,
{
    if n == 0 {
        0
    } else {
        let before = ready_prefix(e, (n - 1) as nat);
        if before == n - 1 && is_mask(after(e, before).selector()) {
            n
        } else {
            before
        }
    }
}

/// The next `n` calls of the strategy `e` all use a selector that names a
/// single bit.
pub open spec fn usable<E: BitEncode>(e: E, n: nat) -> bool {
    ready_prefix(e, n) == n
}

/// The calls that can be made are counted among the calls asked for.
pub proof fn lemma_ready_prefix_bound<E: BitEncode>(e: E, n: nat)
    ensures
        ready_prefix(e, n) <= n,
    decreases n,
{
    if n > 0 {
        lemma_ready_prefix_bound(e, (n - 1) as nat);
    }
}

/// Once a call meets a selector that names no single bit, no later call is
/// counted.
pub proof fn lemma_ready_prefix_stops<E: BitEncode>(e: E, k: nat, n: nat)
    requires
        usable(e, k),
        !is_mask(after(e, k).selector()),
        k <= n,
    ensures
        ready_prefix(e, n) == k,
    decreases n,
{
    if n > k {
        lemma_ready_prefix_stops(e, k, (n - 1) as nat);
    }
}

/// The strategy is usable for `n` calls exactly if each of them meets a
/// selector that names a single bit.
pub proof fn lemma_usable_each<E: BitEncode>(e: E, n: nat)
    ensures
        usable(e, n) <==> forall|k: nat| k < n ==> is_mask(#[trigger] after(e, k).selector()),
    decreases n,
{
    if n > 0 {
        let m = (n - 1) as nat;
        lemma_usable_each(e, m);
        lemma_ready_prefix_bound(e, m);
        if usable(e, n) {
            assert forall|k: nat| k < n implies is_mask(#[trigger] after(e, k).selector()) by {
                if k < m {
                } else {
                    assert(k == m);
                }
            }
        }
    }
}

/// A bit strategy together with the way its bits are spread over an image.
pub struct BitEncoder<E: BitEncode> {
    /// The bit strategy.
    pub encoder: E,
    /// Bit distribution method.
    pub bit_dist: BitDistribution,
    /// Add a token sequence to the end of encoding.
    pub end_seq: bool,
}

impl<E: BitEncode> BitEncoder<E> {
    /// An encoder with the given strategy that appends the end-of-message
    /// marker and, unless told otherwise, visits the pixels sequentially.
    pub fn new(encoder: E, bd: Option<BitDistribution>) -> (coder: Self)
        ensures
            coder.encoder == encoder,
            coder.bit_dist == match bd {
                Some(dist) => dist,
                None => BitDistribution::Sequential,
            },
            coder.end_seq,
    {
        let bit_dist = match bd {
            Some(dist) => dist,
            None => BitDistribution::default(),
        };
        BitEncoder { encoder, bit_dist, end_seq: true }
    }
}

/// LSB: each bit of the message goes into the least significant bit of a
/// channel byte.
#[derive(Default)]
pub struct Lsb;

impl BitEncode for Lsb {
    open spec fn wf(&self) -> bool {
        true
    }

    open spec fn selector(&self) -> u8 {
        1
    }

    open spec fn advance(&self) -> Self {
        *self
    }

    fn ready(&self) -> (ok: bool) {
        true
    }

    fn encode(&mut self, bit: &u8, color_val: &mut u8) {
        let mask: u8 = BitMask::One.bits();
        if *bit == 0 {
            *color_val = *color_val & !mask;
        } else if *bit == 1 {
            *color_val = *color_val | mask;
        }
    }

    fn decode(&mut self, color_val: &u8) -> (bit: u8) {
        let mask: u8 = BitMask::One.bits();
        let bit: u8 = *color_val & mask;
        assert(bit == loaded(*color_val, 1)) by (bit_vector)
            requires
                bit == *color_val & 1,
        ;
        bit
    }
}

/// RSB: each bit of the message goes into one of the `max` least significant
/// bits of a channel byte, chosen by a seeded generator.
///
/// The strategy holds the selector of its next call, drawn ahead, so that
/// `ready` can tell whether that call may be made. With a maximum of 0 there
/// is nothing to draw from: the selector is 0 and the strategy is never
/// ready.
pub struct Rsb {
    /// The maximum significant bit to possibly set or clear (1-4).
    max: u8,
    /// The seeded generator that picks the selectors.
    rng: Lcg128Xsl64,
    /// The selector of the next call, already drawn from `rng`.
    next: u8,
}

impl Rsb {
    /// The selector that is drawn from `1..=max` on the generator `rng`, and
    /// the generator after the draw; with a maximum of 0 no draw is made.
    pub closed spec fn drawn(rng: Lcg128Xsl64, max: u8) -> (u8, Lcg128Xsl64) {
        if max >= 1 {
            range_draw(rng, 1, max)
        } else {
            (0, rng)
        }
    }

    /// The strategy as `new` makes it from `max` and `seed`.
    pub closed spec fn seeded(max: u8, seed: Seq<char>) -> Rsb {
        let first = Rsb::drawn(seeded_generator(seed), max);
        Rsb { max, rng: first.1, next: first.0 }
    }

    /// The largest selector that the strategy can draw.
    pub closed spec fn max(&self) -> u8 {
        self.max
    }

    /// A strategy that draws its selectors from `1..=max`, with a generator
    /// seeded from `seed`. The maximum is taken as it is given: whether it
    /// lies within 1-4 is for the caller to check before.
    pub fn new(max: u8, seed: &str) -> (rsb: Rsb)
        ensures
            rsb.wf(),
            rsb == Rsb::seeded(max, seed@),
            rsb.max() == max,
    {
        let mut rng = seeded(seed);
        let next: u8 = if max >= 1 {
            draw(&mut rng, 1, max)
        } else {
            0
        };
        Rsb { max, rng, next }
    }

    /// The selector of the next call lies between 1 and `max`, and a call
    /// leaves `max` as it is.
    pub proof fn lemma_selector_in_range(&self)
        requires
            self.wf(),
            self.max() >= 1,
        ensures
            1 <= self.selector() <= self.max(),
            self.advance().max() == self.max(),
    {
    }

    /// With a maximum of 1 or 2 every selector names a single bit, so the
    /// strategy is always ready.
    pub proof fn lemma_ready_up_to_two(&self)
        requires
            self.wf(),
            1 <= self.max() <= 2,
        ensures
            is_mask(self.selector()),
    {
    }

    /// With a maximum of 0 the strategy is never ready.
    pub proof fn lemma_never_ready_with_zero(&self)
        requires
            self.wf(),
            self.max() == 0,
        ensures
            !is_mask(self.selector()),
    {
    }

    /// Two strategies made from the same seed and the same maximum are in
    /// the same state, and so use the same selector at every step.
    pub proof fn lemma_same_seed_same_selectors(a: Rsb, b: Rsb, max: u8, seed: Seq<char>, k: nat)
        requires
            a == Rsb::seeded(max, seed),
            b == Rsb::seeded(max, seed),
        ensures
            a == b,
            a.max() == max,
            after(a, k) == after(b, k),
            after(a, k).selector() == after(b, k).selector(),
    {
    }

    /// Returns the mask of this call, a number between 1 and `max`
    /// inclusive, and draws the selector of the call after it.
    fn rand(&mut self) -> (mask: BitMask)
        requires
            old(self).wf(),
            is_mask(old(self).selector()),
        ensures
            final(self).wf(),
            *final(self) == old(self).advance(),
            mask.value() == old(self).selector(),
    {
        let mask = BitMask::from(self.next);
        self.next = draw(&mut self.rng, 1, self.max);
        mask
    }
}

impl BitEncode for Rsb {
    closed spec fn wf(&self) -> bool {
        if self.max >= 1 {
            1 <= self.next <= self.max
        } else {
            self.next == 0
        }
    }

    closed spec fn selector(&self) -> u8 {
        self.next
    }

    closed spec fn advance(&self) -> Self {
        let step = Rsb::drawn(self.rng, self.max);
        Rsb { max: self.max, rng: step.1, next: step.0 }
    }

    fn ready(&self) -> (ok: bool) {
        self.next == 1 || self.next == 2 || self.next == 4 || self.next == 8
    }

    fn encode(&mut self, bit: &u8, color_val: &mut u8) {
        let mask: u8 = self.rand().bits();
        if *bit == 0 {
            *color_val = *color_val & !mask;
        } else if *bit == 1 {
            *color_val = *color_val | mask;
        }
    }

    fn decode(&mut self, color_val: &u8) -> (bit: u8) {
        let mask: u8 = self.rand().bits();
        let c: u8 = *color_val & mask;
        if c > 0 {
            1
        } else {
            0
        }
    }
}

} // verus!
