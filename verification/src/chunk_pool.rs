//! The pool of pre-generated fragments: four stacks, one for each size
//! class, served fragment by fragment and refilled in small rounds while
//! the memory budget allows.
//!
//! The pool is an owned value. Whoever shares it between tasks puts it
//! behind a lock of their own; every operation that changes it takes it by
//! exclusive reference, so a fragment that was handed out is in the pool no
//! longer.

use vstd::prelude::*;
use crate::content::{fresh_fragment, make_fragments};
use crate::envelope::{
    all_json_texts, documents_of, envelope_open, is_envelope_text, joined,
    lemma_joined_is_chunks_text, lemma_pool_response_is_envelope,
    lemma_responses_are_envelope_texts, pool_response_text, EnvelopeWriter,
};
use crate::json::is_json_text;
use crate::text::{byte_len, byte_length};

verus! {

/// The size classes in which fragments are pre-generated.
#[derive(Debug, Clone, Copy, PartialEq, Eq, Hash, Structural)]
pub enum ChunkSize {
    Small,
    Medium,
    Large,
    XLarge,
}

/// Below this many remaining bytes a response takes no further fragment.
pub const REMAINDER_FLOOR: usize = 500;

/// A response assembled from the pool takes at most this many fragments.
pub const MAX_RESPONSE_CHUNKS: usize = 1000;

/// A round of replenishment generates at most this many fragments.
pub const MAX_BATCH: usize = 3;

/// Tick interval while the pool fills up for the first time.
pub const STARTUP_INTERVAL_MS: u64 = 100;

impl ChunkSize {
    /// Nominal byte size of the class.
    pub open spec fn nominal(self) -> nat {
        match self {
            ChunkSize::Small => 1_024,
            ChunkSize::Medium => 10_240,
            ChunkSize::Large => 102_400,
            ChunkSize::XLarge => 1_048_576,
        }
    }

    /// Position of the class in the order from small to large.
    pub open spec fn position(self) -> int {
        match self {
            ChunkSize::Small => 0,
            ChunkSize::Medium => 1,
            ChunkSize::Large => 2,
            ChunkSize::XLarge => 3,
        }
    }

    /// The classes from small to large.
    pub open spec fn ordered() -> Seq<ChunkSize> {
        seq![ChunkSize::Small, ChunkSize::Medium, ChunkSize::Large, ChunkSize::XLarge]
    }

    /// The largest class whose nominal size does not exceed `remaining`,
    /// and the smallest class where none fits.
    pub open spec fn fitting(remaining: nat) -> ChunkSize {
        if remaining >= ChunkSize::XLarge.nominal() {
            ChunkSize::XLarge
        } else if remaining >= ChunkSize::Large.nominal() {
            ChunkSize::Large
        } else if remaining >= ChunkSize::Medium.nominal() {
            ChunkSize::Medium
        } else {
            ChunkSize::Small
        }
    }

    /// Nominal byte size of the class.
    pub fn target_bytes(&self) -> (bytes: usize)
        ensures
            bytes == self.nominal(),
    {
        match self {
            ChunkSize::Small => 1_024,
            ChunkSize::Medium => 10_240,
            ChunkSize::Large => 102_400,
            ChunkSize::XLarge => 1_048_576,
        }
    }

    /// The classes from small to large.
    pub fn all() -> (classes: &'static [ChunkSize])
        ensures
            classes@ == ChunkSize::ordered(),
    {
        let classes: &'static [ChunkSize] = &[
            ChunkSize::Small,
            ChunkSize::Medium,
            ChunkSize::Large,
            ChunkSize::XLarge,
        ];
        assert(classes@ =~= ChunkSize::ordered());
        classes
    }

    /// The class that follows in the order from small to large, and the
    /// smallest after the largest.
    pub open spec fn following(self) -> ChunkSize {
        match self {
            ChunkSize::Small => ChunkSize::Medium,
            ChunkSize::Medium => ChunkSize::Large,
            ChunkSize::Large => ChunkSize::XLarge,
            ChunkSize::XLarge => ChunkSize::Small,
        }
    }

    /// The class that follows in the order from small to large, and the
    /// smallest after the largest.
    pub fn next(self) -> (class: ChunkSize)
        ensures
            class == self.following(),
    {
        match self {
            ChunkSize::Small => ChunkSize::Medium,
            ChunkSize::Medium => ChunkSize::Large,
            ChunkSize::Large => ChunkSize::XLarge,
            ChunkSize::XLarge => ChunkSize::Small,
        }
    }

    /// The class that a response with `remaining` bytes to go asks the
    /// pool for.
    pub fn largest_fitting(remaining: usize) -> (class: ChunkSize)
        ensures
            class == ChunkSize::fitting(remaining as nat),
    {
        if remaining >= 1_048_576 {
            ChunkSize::XLarge
        } else if remaining >= 102_400 {
            ChunkSize::Large
        } else if remaining >= 10_240 {
            ChunkSize::Medium
        } else {
            ChunkSize::Small
        }
    }

    fn slot(self) -> (index: usize)
        ensures
            index == self.position(),
    {
        match self {
            ChunkSize::Small => 0,
            ChunkSize::Medium => 1,
            ChunkSize::Large => 2,
            ChunkSize::XLarge => 3,
        }
    }
}

/// Settings of a pool, fixed when it is made.
#[derive(Debug, Clone, Copy)]
pub struct ChunkPoolConfig {
    /// Memory budget of the pool, in mebibytes.
    pub max_memory_mb: usize,
    /// Number of fragments below which a class is refilled.
    pub min_chunks_per_size: usize,
    pub max_chunks_per_size: usize,
    /// Tick interval once the pool has filled up, in milliseconds.
    pub background_generation_interval_ms: u64,
    pub memory_check_interval_ms: u64,
}

impl Default for ChunkPoolConfig {
    /// A budget of 128 MiB, five fragments for each class, and a tick
    /// every second.
    fn default() -> (config: Self)
        ensures
            config.max_memory_mb == 128,
            config.min_chunks_per_size == 5,
            config.max_chunks_per_size == 50,
            config.background_generation_interval_ms == 1000,
            config.memory_check_interval_ms == 5000,
    {
        Self {
            max_memory_mb: 128,
            min_chunks_per_size: 5,
            max_chunks_per_size: 50,
            background_generation_interval_ms: 1000,
            memory_check_interval_ms: 5000,
        }
    }
}

/// Counters and gauges of a pool. The counters only grow, and stop at the
/// largest value they can hold. The gauges are as of the last round of
/// replenishment; the number of fragments also goes down with each
/// fragment that is handed out singly.
#[derive(Debug, Clone, Copy)]
pub struct ChunkPoolStats {
    pub total_chunks: usize,
    pub memory_usage_bytes: usize,
    pub cache_hits: u64,
    pub cache_misses: u64,
    pub background_generations: u64,
}

impl Default for ChunkPoolStats {
    /// All counters and gauges at zero.
    fn default() -> (stats: Self)
        ensures
            stats == ChunkPoolStats::zero(),
    {
        Self {
            total_chunks: 0,
            memory_usage_bytes: 0,
            cache_hits: 0,
            cache_misses: 0,
            background_generations: 0,
        }
    }
}

/// `a + b`, or the largest `u64` if the sum is larger.
pub open spec fn capped_sum(a: u64, b: nat) -> u64 {
    if a + b > u64::MAX {
        u64::MAX
    } else {
        (a + b) as u64
    }
}

/// `n`, or the largest `usize` if `n` is larger.
pub open spec fn capped(n: nat) -> usize {
    if n > usize::MAX {
        usize::MAX
    } else {
        n as usize
    }
}

/// `a - b`, or zero if `b` is larger.
pub open spec fn floored_difference(a: nat, b: nat) -> nat {
    if b >= a {
        0
    } else {
        (a - b) as nat
    }
}

impl ChunkPoolStats {
    /// The estimate of the memory in use in whole mebibytes.
    pub fn memory_usage_mb(&self) -> (mb: usize)
        ensures
            mb == self.memory_usage_bytes / 1_048_576,
    {
        self.memory_usage_bytes / (1024 * 1024)
    }

    /// Number of requests for a fragment that the pool has counted.
    pub fn requests(&self) -> (total: u128)
        ensures
            total == self.cache_hits + self.cache_misses,
    {
        self.cache_hits as u128 + self.cache_misses as u128
    }

    /// All counters and gauges at zero.
    pub open spec fn zero() -> ChunkPoolStats {
        ChunkPoolStats {
            total_chunks: 0,
            memory_usage_bytes: 0,
            cache_hits: 0,
            cache_misses: 0,
            background_generations: 0,
        }
    }

    /// The statistics after `hits` fragments were found and `misses` were
    /// found missing, where each hit was taken off the gauge of fragments.
    pub open spec fn after_requests(self, hits: nat, misses: nat) -> ChunkPoolStats {
        ChunkPoolStats {
            total_chunks: floored_difference(self.total_chunks as nat, hits) as usize,
            cache_hits: capped_sum(self.cache_hits, hits),
            cache_misses: capped_sum(self.cache_misses, misses),
            ..self
        }
    }

    /// The statistics after a batch request found `hits` fragments and
    /// `misses` missing. The gauge of fragments is left as it was.
    pub open spec fn after_batch(self, hits: nat, misses: nat) -> ChunkPoolStats {
        ChunkPoolStats {
            cache_hits: capped_sum(self.cache_hits, hits),
            cache_misses: capped_sum(self.cache_misses, misses),
            ..self
        }
    }
}

/// The characters of each string.
pub open spec fn texts(strings: Seq<String>) -> Seq<Seq<char>> {
    Seq::new(strings.len(), |i: int| strings[i]@)
}

/// Number of bytes of the first `n` of `fragments`.
pub open spec fn bytes_of(fragments: Seq<Seq<char>>, n: nat) -> nat
    decreases n,
{
    if n == 0 || n > fragments.len() {
        0
    } else {
        bytes_of(fragments, (n - 1) as nat) + byte_len(fragments[n - 1])
    }
}

/// Number of bytes of all of `fragments`.
pub open spec fn total_bytes(fragments: Seq<Seq<char>>) -> nat {
    bytes_of(fragments, fragments.len())
}

/// What the first `n` fragments weigh does not depend on later ones.
pub proof fn lemma_bytes_of_prefix(a: Seq<Seq<char>>, b: Seq<Seq<char>>, n: nat)
    requires
        n <= a.len(),
        n <= b.len(),
        forall|i: int| 0 <= i < n ==> a[i] == b[i],
    ensures
        bytes_of(a, n) == bytes_of(b, n),
    decreases n,
{
    if n > 0 {
        lemma_bytes_of_prefix(a, b, (n - 1) as nat);
    }
}

/// Number of bytes of an envelope's opening followed by `fragments`,
/// separated by commas.
pub open spec fn assembled_size(fragments: Seq<Seq<char>>) -> nat {
    byte_len(envelope_open() + joined(fragments, fragments.len()))
}

/// What is left of `target` bytes once `fragments` are taken off it, and
/// zero where they weigh more.
pub open spec fn budget_left(target: nat, fragments: Seq<Seq<char>>) -> nat {
    floored_difference(target, total_bytes(fragments))
}

/// A response of `target` bytes that holds `fragments` takes another one:
/// more than [`REMAINDER_FLOOR`] bytes are left, fewer than
/// [`MAX_RESPONSE_CHUNKS`] fragments are in, and the text has not grown
/// beyond twice the target.
pub open spec fn wants_fragment(target: nat, fragments: Seq<Seq<char>>) -> bool {
    &&& budget_left(target, fragments) > REMAINDER_FLOOR
    &&& fragments.len() < MAX_RESPONSE_CHUNKS
    &&& (fragments.len() > 0 ==> assembled_size(fragments) <= 2 * target)
}

/// `fragments` are what a response of `target` bytes assembles: each was
/// taken because one more was wanted, and after the last none is.
pub open spec fn is_pool_assembly(target: nat, fragments: Seq<Seq<char>>) -> bool {
    &&& forall|k: int|
        0 <= k < fragments.len() ==> wants_fragment(target, #[trigger] fragments.take(k))
    &&& !wants_fragment(target, fragments)
}

/// `text` is the response of `target` bytes assembled from `fragments`:
/// their envelope, with the size before the record as the actual size.
pub open spec fn is_pool_response(
    text: Seq<char>,
    target: nat,
    fragments: Seq<Seq<char>>,
) -> bool {
    &&& all_json_texts(fragments)
    &&& is_pool_assembly(target, fragments)
    &&& text == pool_response_text(documents_of(fragments), target, assembled_size(fragments))
}

/// A response assembled from the pool holds at most
/// [`MAX_RESPONSE_CHUNKS`] fragments, and at least one where the target is
/// above [`REMAINDER_FLOOR`]. Without its last fragment it is no longer
/// than twice the target. It is a JSON text: a well-formed envelope of its
/// fragments.
pub proof fn lemma_pool_response_bounds(text: Seq<char>, target: nat, fragments: Seq<Seq<char>>)
    requires
        is_pool_response(text, target, fragments),
    ensures
        fragments.len() <= MAX_RESPONSE_CHUNKS,
        target > REMAINDER_FLOOR ==> fragments.len() >= 1,
        fragments.len() > 1 ==> assembled_size(fragments.drop_last()) <= 2 * target,
        fragments.len() > 0 ==> budget_left(target, fragments.drop_last()) > REMAINDER_FLOOR,
        is_json_text(text),
{
    let n = fragments.len();
    if n > 0 {
        assert(wants_fragment(target, fragments.take(n - 1)));
        assert(fragments.take(n - 1) =~= fragments.drop_last());
    }
    lemma_joined_is_chunks_text(fragments, n);
    lemma_pool_response_is_envelope(documents_of(fragments), target, assembled_size(fragments));
}

/// How many fragments the pool holds for each size class, and the class
/// that the last round of replenishment served.
pub struct Stock {
    pub small: nat,
    pub medium: nat,
    pub large: nat,
    pub xlarge: nat,
    pub served: Option<ChunkSize>,
}

/// How many fragments a class that holds `count` lacks of `minimum`.
pub open spec fn shortfall(minimum: nat, count: nat) -> nat {
    floored_difference(minimum, count)
}

/// How many fragments a round adds to a class that holds `count`: what it
/// lacks, and at most [`MAX_BATCH`].
pub open spec fn batch_size(minimum: nat, count: nat) -> nat {
    if shortfall(minimum, count) < MAX_BATCH {
        shortfall(minimum, count)
    } else {
        MAX_BATCH as nat
    }
}

impl Stock {
    /// Number of fragments held for `class`.
    pub open spec fn of(self, class: ChunkSize) -> nat {
        match class {
            ChunkSize::Small => self.small,
            ChunkSize::Medium => self.medium,
            ChunkSize::Large => self.large,
            ChunkSize::XLarge => self.xlarge,
        }
    }

    /// The stock with `count` fragments for `class`.
    pub open spec fn with(self, class: ChunkSize, count: nat) -> Stock {
        match class {
            ChunkSize::Small => Stock { small: count, ..self },
            ChunkSize::Medium => Stock { medium: count, ..self },
            ChunkSize::Large => Stock { large: count, ..self },
            ChunkSize::XLarge => Stock { xlarge: count, ..self },
        }
    }

    /// The class with which the next round begins its search: the one
    /// that follows the class served last, and the smallest before any
    /// round.
    pub open spec fn turn(self) -> ChunkSize {
        match self.served {
            Some(class) => class.following(),
            None => ChunkSize::Small,
        }
    }

    /// `class` holds fewer than `minimum` fragments.
    pub open spec fn lacks(self, class: ChunkSize, minimum: nat) -> bool {
        self.of(class) < minimum
    }

    /// The class that the next round serves: the first that holds fewer
    /// than `minimum` fragments, in the cyclic order that begins after the
    /// class served last.
    pub open spec fn next_deficient(self, minimum: nat) -> Option<ChunkSize> {
        let first = self.turn();
        let second = first.following();
        let third = second.following();
        let fourth = third.following();
        if self.lacks(first, minimum) {
            Some(first)
        } else if self.lacks(second, minimum) {
            Some(second)
        } else if self.lacks(third, minimum) {
            Some(third)
        } else if self.lacks(fourth, minimum) {
            Some(fourth)
        } else {
            None
        }
    }

    /// Number of fragments that all classes together lack of `minimum`.
    pub open spec fn deficit(self, minimum: nat) -> nat {
        shortfall(minimum, self.small) + shortfall(minimum, self.medium) + shortfall(
            minimum,
            self.large,
        ) + shortfall(minimum, self.xlarge)
    }

    /// The stock after one round of replenishment: the class whose turn it
    /// is among the deficient ones gains its batch and is the class served
    /// last, and nothing changes where no class is deficient.
    pub open spec fn refilled(self, minimum: nat) -> Stock {
        match self.next_deficient(minimum) {
            Some(class) => Stock {
                served: Some(class),
                ..self.with(class, self.of(class) + batch_size(minimum, self.of(class)))
            },
            None => self,
        }
    }

    /// The stock after `rounds` rounds of replenishment.
    pub open spec fn refilled_times(self, minimum: nat, rounds: nat) -> Stock
        decreases rounds,
    {
        if rounds == 0 {
            self
        } else {
            self.refilled(minimum).refilled_times(minimum, (rounds - 1) as nat)
        }
    }

    /// Every class holds at least `minimum` fragments.
    pub open spec fn replenished(self, minimum: nat) -> bool {
        &&& self.small >= minimum
        &&& self.medium >= minimum
        &&& self.large >= minimum
        &&& self.xlarge >= minimum
    }

    /// A round of replenishment makes the deficit smaller while there is
    /// one, and never takes a fragment away.
    pub proof fn lemma_round_reduces_deficit(self, minimum: nat)
        ensures
            self.deficit(minimum) > 0 ==> self.refilled(minimum).deficit(minimum) < self.deficit(
                minimum,
            ),
            self.deficit(minimum) == 0 <==> self.replenished(minimum),
            self.deficit(minimum) > 0 <==> self.next_deficient(minimum) is Some,
            forall|class: ChunkSize| #[trigger]
                self.refilled(minimum).of(class) >= self.of(class),
    {
        match self.served {
            Some(ChunkSize::Small) => {},
            Some(ChunkSize::Medium) => {},
            Some(ChunkSize::Large) => {},
            Some(ChunkSize::XLarge) => {},
            None => {},
        }
        assert forall|class: ChunkSize| #[trigger]
            self.refilled(minimum).of(class) >= self.of(class) by {
            match class {
                ChunkSize::Small => {},
                ChunkSize::Medium => {},
                ChunkSize::Large => {},
                ChunkSize::XLarge => {},
            }
        }
    }

    /// Replenishment goes round: where a class other than the one just
    /// served is deficient, the next round serves another class. So of two
    /// rounds that follow each other while two or more classes are
    /// deficient, the second never serves the class of the first.
    pub proof fn lemma_rounds_take_turns(self, minimum: nat, other: ChunkSize)
        requires
            self.served is Some,
            other != self.served->0,
            self.lacks(other, minimum),
        ensures
            self.next_deficient(minimum) is Some,
            self.next_deficient(minimum) != self.served,
            self.refilled(minimum).served != self.served,
    {
        match self.served->0 {
            ChunkSize::Small => {},
            ChunkSize::Medium => {},
            ChunkSize::Large => {},
            ChunkSize::XLarge => {},
        }
        match other {
            ChunkSize::Small => {},
            ChunkSize::Medium => {},
            ChunkSize::Large => {},
            ChunkSize::XLarge => {},
        }
    }

    /// Two rounds that follow each other, each with two or more classes
    /// deficient before it, serve different classes.
    pub proof fn lemma_consecutive_rounds_differ(
        self,
        minimum: nat,
        one: ChunkSize,
        other: ChunkSize,
    )
        requires
            one != other,
            self.lacks(one, minimum),
            self.lacks(other, minimum),
            self.refilled(minimum).lacks(one, minimum),
            self.refilled(minimum).lacks(other, minimum),
        ensures
            self.refilled(minimum).served is Some,
            self.refilled(minimum).refilled(minimum).served is Some,
            self.refilled(minimum).refilled(minimum).served != self.refilled(minimum).served,
    {
        self.lemma_round_reduces_deficit(minimum);
        let first = self.refilled(minimum);
        assert(first.served is Some);
        if first.served->0 == one {
            first.lemma_rounds_take_turns(minimum, other);
        } else {
            first.lemma_rounds_take_turns(minimum, one);
        }
    }

    /// Replenishment converges: after as many rounds as fragments are
    /// lacking, with nothing taken in between, every class holds the
    /// minimum.
    pub proof fn lemma_replenishment_converges(self, minimum: nat, rounds: nat)
        requires
            rounds >= self.deficit(minimum),
        ensures
            self.refilled_times(minimum, rounds).replenished(minimum),
        decreases rounds,
    {
        self.lemma_round_reduces_deficit(minimum);
        if rounds > 0 {
            self.refilled(minimum).lemma_replenishment_converges(minimum, (rounds - 1) as nat);
        }
    }
}

/// Where background replenishment stands: filling the pool for the first
/// time, at a short interval, or keeping it filled at the configured one.
#[derive(Debug, Clone, Copy)]
pub struct MaintenanceState {
    pub fast_startup: bool,
    pub startup_rounds: u64,
}

impl MaintenanceState {
    /// The state in which replenishment starts.
    pub fn new() -> (state: Self)
        ensures
            state.fast_startup,
            state.startup_rounds == 0,
    {
        MaintenanceState { fast_startup: true, startup_rounds: 0 }
    }
}

/// A pool of pre-generated fragments for fast response assembly.
pub struct ChunkPool {
    stacks: Vec<Vec<String>>,
    config: ChunkPoolConfig,
    stats: ChunkPoolStats,
    last_served: Option<ChunkSize>,
}

/// What asking `before` for a fragment of `size` gives, and leaves:
/// the top fragment and a hit, with the stack one shorter, or nothing and a
/// miss where the class has none. The stacks are there afterwards, and the
/// other classes are as they were.
pub open spec fn chunk_taken(
    before: ChunkPool,
    after: ChunkPool,
    size: ChunkSize,
    chunk: Option<String>,
) -> bool {
    &&& after.well_formed()
    &&& after.initialized()
    &&& after.config() == before.config()
    &&& after.last_served() == before.last_served()
    &&& forall|class: ChunkSize|
        class != size ==> #[trigger] after.fragments(class) == before.fragments(class)
    &&& match chunk {
        Some(fragment) => {
            &&& before.fragments(size).len() > 0
            &&& fragment@ == before.fragments(size).last()
            &&& is_json_text(fragment@)
            &&& after.fragments(size) == before.fragments(size).drop_last()
            &&& after.stats() == before.stats().after_requests(1, 0)
        },
        None => {
            &&& before.fragments(size).len() == 0
            &&& after.fragments(size) == before.fragments(size)
            &&& after.stats() == before.stats().after_requests(0, 1)
        },
    }
}

/// What fetching a fragment of `class` from `before` gives, and leaves:
/// the top fragment and a hit, with the stack one shorter, or a fresh
/// fragment and a miss where the class has none. Either way the fragment is
/// a JSON text, the stacks are there afterwards, and the other classes are
/// as they were.
pub open spec fn fragment_fetched(
    before: ChunkPool,
    after: ChunkPool,
    class: ChunkSize,
    fragment: Seq<char>,
) -> bool {
    &&& after.well_formed()
    &&& after.initialized()
    &&& after.config() == before.config()
    &&& after.last_served() == before.last_served()
    &&& is_json_text(fragment)
    &&& forall|other: ChunkSize|
        other != class ==> #[trigger] after.fragments(other) == before.fragments(other)
    &&& if before.fragments(class).len() > 0 {
        &&& fragment == before.fragments(class).last()
        &&& after.fragments(class) == before.fragments(class).drop_last()
        &&& after.stats() == before.stats().after_requests(1, 0)
    } else {
        &&& after.fragments(class) == before.fragments(class)
        &&& after.stats() == before.stats().after_requests(0, 1)
    }
}

/// `a` and `b` hold the same fragments and statistics, have the same
/// settings and have served the same class last.
pub open spec fn same_content(a: ChunkPool, b: ChunkPool) -> bool {
    &&& a.config() == b.config()
    &&& a.stats() == b.stats()
    &&& a.last_served() == b.last_served()
    &&& forall|class: ChunkSize| #[trigger] a.fragments(class) == b.fragments(class)
}

/// `pools` are the states through which a pool goes while a response of
/// `target` bytes fetches `fragments` from it: each fragment is fetched
/// from the class that fits what is left of the target before it.
#[verifier::opaque]
pub open spec fn is_fetch_chain(
    pools: Seq<ChunkPool>,
    target: nat,
    fragments: Seq<Seq<char>>,
) -> bool {
    &&& pools.len() == fragments.len() + 1
    &&& forall|k: int|
        0 <= k < fragments.len() ==> fragment_fetched(
            #[trigger] pools[k],
            pools[k + 1],
            ChunkSize::fitting(budget_left(target, fragments.take(k))),
            fragments[k],
        )
}

/// A chain of fetches goes on with one more fetch from its last state.
pub proof fn lemma_fetch_chain_extends(
    pools: Seq<ChunkPool>,
    next: ChunkPool,
    target: nat,
    fragments: Seq<Seq<char>>,
    fragment: Seq<char>,
)
    requires
        is_fetch_chain(pools, target, fragments),
        fragment_fetched(
            pools.last(),
            next,
            ChunkSize::fitting(budget_left(target, fragments)),
            fragment,
        ),
    ensures
        is_fetch_chain(pools.push(next), target, fragments.push(fragment)),
{
    reveal(is_fetch_chain);
    let longer = pools.push(next);
    let grown = fragments.push(fragment);
    assert forall|k: int| 0 <= k < grown.len() implies fragment_fetched(
        #[trigger] longer[k],
        longer[k + 1],
        ChunkSize::fitting(budget_left(target, grown.take(k))),
        grown[k],
    ) by {
        if k < fragments.len() {
            assert(grown.take(k) =~= fragments.take(k));
            assert(longer[k] == pools[k]);
            assert(longer[k + 1] == pools[k + 1]);
            assert(grown[k] == fragments[k]);
        } else {
            assert(grown.take(k) =~= fragments);
            assert(longer[k] == pools.last());
        }
    }
}

/// What building a response of `target` bytes from `before` gives, and
/// leaves.
///
/// The pool is initialized, and each stack is what it was or shorter. The
/// response is assembled from fragments that were fetched one after the
/// other, each from the class that fits what was left of the target: the
/// top of that stack where it held one, and a fresh fragment where not. As
/// many count as hits as the pool has given, and the others as misses.
pub open spec fn response_built(
    before: ChunkPool,
    after: ChunkPool,
    target: nat,
    text: Seq<char>,
) -> bool {
    &&& after.well_formed()
    &&& after.initialized()
    &&& after.config() == before.config()
    &&& after.last_served() == before.last_served()
    &&& forall|class: ChunkSize|
        (#[trigger] after.fragments(class)).is_prefix_of(before.fragments(class))
    &&& exists|fragments: Seq<Seq<char>>, pools: Seq<ChunkPool>|
        {
            &&& #[trigger] is_pool_response(text, target, fragments)
            &&& #[trigger] is_fetch_chain(pools, target, fragments)
            &&& same_content(pools.first(), before)
            &&& same_content(pools.last(), after)
            &&& before.held() - after.held() <= fragments.len()
            &&& after.stats() == before.stats().after_requests(
                (before.held() - after.held()) as nat,
                (fragments.len() - (before.held() - after.held())) as nat,
            )
        }
}

/// A fragment leaves the pool once: of two requests for the same class
/// that both find a fragment, the first gets the top of the stack and the
/// second the one below it, and neither fragment is in the pool
/// afterwards.
pub proof fn lemma_fragments_leave_once(
    before: ChunkPool,
    between: ChunkPool,
    after: ChunkPool,
    size: ChunkSize,
    first: Option<String>,
    second: Option<String>,
)
    requires
        chunk_taken(before, between, size, first),
        chunk_taken(between, after, size, second),
        first is Some,
        second is Some,
    ensures
        ({
            let stock = before.fragments(size);
            &&& stock.len() >= 2
            &&& first->0@ == stock[stock.len() - 1]
            &&& second->0@ == stock[stock.len() - 2]
            &&& after.fragments(size) == stock.take(stock.len() - 2)
        }),
        forall|class: ChunkSize|
            class != size ==> #[trigger] after.fragments(class) == before.fragments(class),
{
    let stock = before.fragments(size);
    assert(between.fragments(size) == stock.drop_last());
    assert(after.fragments(size) =~= stock.take(stock.len() - 2));
}

/// `missing` fresh fragments of `size`, made side by side and without the
/// pool: what a batch request lacks after [`ChunkPool::take_available`].
pub fn make_shortfall(size: ChunkSize, missing: usize) -> (fragments: Vec<String>)
    ensures
        fragments.len() == missing,
        forall|i: int| 0 <= i < fragments.len() ==> is_json_text((#[trigger] fragments[i])@),
{
    make_fragments(size.target_bytes(), missing)
}

impl ChunkPool {
    /// Every size class has its stack.
    pub closed spec fn initialized(&self) -> bool {
        self.stacks.len() == 4
    }

    /// The fragments held for `class`, the one handed out next last.
    pub closed spec fn fragments(&self, class: ChunkSize) -> Seq<Seq<char>> {
        if self.stacks.len() == 4 {
            texts(self.stacks[class.position()]@)
        } else {
            Seq::empty()
        }
    }

    /// The settings the pool was made with.
    pub closed spec fn config(&self) -> ChunkPoolConfig {
        self.config
    }

    /// The statistics as they stand.
    pub closed spec fn stats(&self) -> ChunkPoolStats {
        self.stats
    }

    /// The class that the last round of replenishment served, if there
    /// was one.
    pub closed spec fn last_served(&self) -> Option<ChunkSize> {
        self.last_served
    }

    /// The stacks are all there or none is, and every fragment is the
    /// compact text of a JSON document.
    pub closed spec fn well_formed(&self) -> bool {
        &&& (self.stacks.len() == 0 || self.stacks.len() == 4)
        &&& forall|s: int, i: int|
            0 <= s < self.stacks.len() && 0 <= i < self.stacks[s].len() ==> is_json_text(
                (#[trigger] self.stacks[s][i])@,
            )
    }

    /// In a well-formed pool every fragment is a JSON text.
    pub proof fn lemma_fragments_are_json(&self, class: ChunkSize)
        requires
            self.well_formed(),
        ensures
            all_json_texts(self.fragments(class)),
    {
        if self.stacks.len() == 4 {
            let s = class.position();
            assert forall|i: int| 0 <= i < self.fragments(class).len() implies is_json_text(
                #[trigger] self.fragments(class)[i],
            ) by {
                assert(is_json_text(self.stacks[s][i]@));
            }
        }
    }

    /// A pool without stacks. Nothing is generated yet.
    pub fn new(config: ChunkPoolConfig) -> (pool: Self)
        ensures
            pool.well_formed(),
            !pool.initialized(),
            pool.config() == config,
            pool.stats() == ChunkPoolStats::zero(),
            pool.last_served() is None,
            forall|class: ChunkSize| #[trigger] pool.fragments(class) == Seq::<Seq<char>>::empty(),
    {
        Self { stacks: Vec::new(), config, stats: ChunkPoolStats::default(), last_served: None }
    }

    /// Gives every size class its stack, empty, unless the stacks are
    /// there already.
    pub fn lazy_initialize(&mut self)
        requires
            old(self).well_formed(),
        ensures
            final(self).well_formed(),
            final(self).initialized(),
            final(self).config() == old(self).config(),
            final(self).stats() == old(self).stats(),
            final(self).last_served() == old(self).last_served(),
            forall|class: ChunkSize| #[trigger]
                final(self).fragments(class) == old(self).fragments(class),
    {
        if self.stacks.len() == 0 {
            self.stacks.push(Vec::new());
            self.stacks.push(Vec::new());
            self.stacks.push(Vec::new());
            self.stacks.push(Vec::new());
            assert forall|class: ChunkSize| #[trigger]
                self.fragments(class) == old(self).fragments(class) by {
                assert(self.fragments(class) =~= Seq::<Seq<char>>::empty());
            }
        }
    }

    /// Takes the top fragment of `class` off the pool and counts a hit, or
    /// counts a miss where the class has none. Never generates.
    pub fn get_chunk(&mut self, size: ChunkSize) -> (chunk: Option<String>)
        requires
            old(self).well_formed(),
        ensures
            chunk_taken(*old(self), *final(self), size, chunk),
    {
        self.lazy_initialize();
        let ghost before = *self;
        let slot = size.slot();
        let popped = self.stacks[slot].pop();
        let ghost stacks = self.stacks;
        assert(forall|s: int| 0 <= s < 4 && s != slot ==> stacks[s] == before.stacks[s]);
        match popped {
            Some(fragment) => {
                self.stats.cache_hits = self.stats.cache_hits.saturating_add(1);
                self.stats.total_chunks = self.stats.total_chunks.saturating_sub(1);
                proof {
                    let stack = before.stacks[slot as int]@;
                    assert(fragment == stack.last());
                    assert(is_json_text(before.stacks[slot as int][stack.len() - 1]@));
                    assert(self.fragments(size) =~= before.fragments(size).drop_last());
                    assert(self.stacks == stacks);
                    assert forall|class: ChunkSize| class != size implies #[trigger]
                        self.fragments(class) == before.fragments(class) by {
                        assert(self.stacks[class.position()] == before.stacks[class.position()]);
                    }
                }
                Some(fragment)
            },
            None => {
                self.stats.cache_misses = self.stats.cache_misses.saturating_add(1);
                proof {
                    assert(self.fragments(size) =~= before.fragments(size));
                    assert(self.stacks == stacks);
                    assert forall|class: ChunkSize| class != size implies #[trigger]
                        self.fragments(class) == before.fragments(class) by {
                        assert(self.stacks[class.position()] == before.stacks[class.position()]);
                    }
                }
                None
            },
        }
    }

    /// A fragment of `class` from the pool, or, where the pool has none, a
    /// fresh one aimed at `fresh_size` bytes.
    pub fn fetch(&mut self, class: ChunkSize, fresh_size: usize) -> (fragment: String)
        requires
            old(self).well_formed(),
        ensures
            fragment_fetched(*old(self), *final(self), class, fragment@),
    {
        match self.get_chunk(class) {
            Some(fragment) => fragment,
            None => fresh_fragment(fresh_size),
        }
    }

    /// Number of fragments in the pool, over all classes.
    pub open spec fn held(&self) -> nat {
        self.fragments(ChunkSize::Small).len() + self.fragments(ChunkSize::Medium).len()
            + self.fragments(ChunkSize::Large).len() + self.fragments(ChunkSize::XLarge).len()
    }

    /// Number of fragments held for `class`.
    pub fn available(&self, class: ChunkSize) -> (count: usize)
        ensures
            count == self.fragments(class).len(),
    {
        if self.stacks.len() == 4 {
            self.stacks[class.slot()].len()
        } else {
            0
        }
    }

    /// `count` fragments of `class`: as many as the pool holds, from the
    /// top of the stack down, and fresh ones for the rest. Counts a hit
    /// for each fragment found and a miss for each one made.
    pub fn get_chunks(&mut self, size: ChunkSize, count: usize) -> (chunks: Vec<String>)
        requires
            old(self).well_formed(),
        ensures
            final(self).well_formed(),
            final(self).initialized() == old(self).initialized(),
            final(self).config() == old(self).config(),
            final(self).last_served() == old(self).last_served(),
            chunks.len() == count,
            forall|i: int| 0 <= i < count ==> is_json_text((#[trigger] chunks[i])@),
            forall|class: ChunkSize|
                class != size ==> #[trigger] final(self).fragments(class) == old(self).fragments(
                    class,
                ),
            ({
                let stock = old(self).fragments(size);
                let found = if stock.len() < count {
                    stock.len()
                } else {
                    count as nat
                };
                &&& final(self).fragments(size) == stock.take(stock.len() - found)
                &&& forall|i: int|
                    0 <= i < found ==> (#[trigger] chunks[i])@ == stock[stock.len() - 1 - i]
                &&& final(self).stats() == old(self).stats().after_batch(
                    found,
                    (count - found) as nat,
                )
            }),
    {
        let mut result = self.take_available(size, count);
        let ghost taken = result@;
        let mut fresh = make_shortfall(size, count - result.len());
        result.append(&mut fresh);
        assert forall|i: int| 0 <= i < taken.len() implies (#[trigger] result[i]) == taken[i] by {}
        result
    }

    /// Up to `count` fragments of `class`: as many as the pool holds, from
    /// the top of the stack down. Counts a hit for each fragment found and
    /// a miss for each one that `count` asks for beyond them, and generates
    /// nothing: the caller makes the rest, with [`make_shortfall`].
    pub fn take_available(&mut self, size: ChunkSize, count: usize) -> (chunks: Vec<String>)
        requires
            old(self).well_formed(),
        ensures
            final(self).well_formed(),
            final(self).initialized() == old(self).initialized(),
            final(self).config() == old(self).config(),
            final(self).last_served() == old(self).last_served(),
            forall|i: int| 0 <= i < chunks.len() ==> is_json_text((#[trigger] chunks[i])@),
            forall|class: ChunkSize|
                class != size ==> #[trigger] final(self).fragments(class) == old(self).fragments(
                    class,
                ),
            ({
                let stock = old(self).fragments(size);
                let found = if stock.len() < count {
                    stock.len()
                } else {
                    count as nat
                };
                &&& chunks.len() == found
                &&& final(self).fragments(size) == stock.take(stock.len() - found)
                &&& forall|i: int|
                    0 <= i < found ==> (#[trigger] chunks[i])@ == stock[stock.len() - 1 - i]
                &&& final(self).stats() == old(self).stats().after_batch(
                    found,
                    (count - found) as nat,
                )
            }),
    {
        let ghost before = *self;
        let ghost stock = self.fragments(size);
        let mut result: Vec<String> = Vec::new();
        let mut found: usize = 0;
        if self.stacks.len() == 4 {
            let slot = size.slot();
            while found < count && self.stacks[slot].len() > 0
                invariant
                    slot == size.position(),
                    self.stacks.len() == 4,
                    self.config == before.config,
                    self.stats == before.stats,
                    self.last_served == before.last_served,
                    before.well_formed(),
                    before.stacks.len() == 4,
                    stock == before.fragments(size),
                    found <= count,
                    found <= stock.len(),
                    result.len() == found,
                    forall|s: int| 0 <= s < 4 && s != slot ==> self.stacks[s] == before.stacks[s],
                    self.stacks[slot as int]@ == before.stacks[slot as int]@.take(
                        stock.len() - found,
                    ),
                    forall|i: int|
                        0 <= i < found ==> (#[trigger] result[i]) == before.stacks[slot as int][stock.len()
                            - 1 - i],
                decreases count - found,
            {
                let fragment = self.stacks[slot].pop().unwrap();
                result.push(fragment);
                found = found + 1;
                assert(self.stacks[slot as int]@ =~= before.stacks[slot as int]@.take(
                    stock.len() - found,
                ));
            }
            proof {
                assert(self.fragments(size) =~= stock.take(stock.len() - found));
                assert forall|class: ChunkSize| class != size implies #[trigger] self.fragments(
                    class,
                ) == before.fragments(class) by {
                    assert(self.stacks[class.position()] == before.stacks[class.position()]);
                }
                assert forall|s: int, i: int|
                    0 <= s < self.stacks.len() && 0 <= i < self.stacks[s].len() implies is_json_text(
                    (#[trigger] self.stacks[s][i])@,
                ) by {
                    if s == slot {
                        assert(self.stacks[s][i] == before.stacks[s][i]);
                    } else {
                        assert(self.stacks[s] == before.stacks[s]);
                    }
                    assert(is_json_text(before.stacks[s][i]@));
                }
            }
        } else {
            proof {
                assert(self.fragments(size) =~= stock.take(stock.len() - found));
            }
        }
        let missing: usize = count - found;
        let ghost stacks = self.stacks;
        assert(forall|s: int, i: int|
            0 <= s < stacks.len() && 0 <= i < stacks[s].len() ==> is_json_text(
                (#[trigger] stacks[s][i])@,
            ));
        self.stats.cache_misses = self.stats.cache_misses.saturating_add(missing as u64);
        self.stats.cache_hits = self.stats.cache_hits.saturating_add(found as u64);
        proof {
            assert(self.stacks == stacks);
            assert(self.fragments(size) =~= stock.take(stock.len() - found));
            assert forall|class: ChunkSize| class != size implies #[trigger] self.fragments(class)
                == before.fragments(class) by {
                if self.stacks.len() == 4 {
                    assert(self.stacks[class.position()] == before.stacks[class.position()]);
                }
            }
            assert forall|i: int| 0 <= i < found implies is_json_text((#[trigger] result[i])@) by {
                assert(is_json_text(before.stacks[size.position()][stock.len() - 1 - i]@));
            }
        }
        result
    }

    /// A complete response of about `target_size` bytes: the envelope of
    /// the fragments that it takes.
    ///
    /// Fragments are taken while one more is wanted: each from the class
    /// that fits what is left, or, where the pool has none, made on the
    /// spot for what is left, at most the nominal size of the smallest
    /// class. What is left goes down by the bytes of each fragment. The
    /// bounds that end the assembly keep it finite; they promise no size.
    pub fn build_response(&mut self, target_size: usize) -> (text: String)
        requires
            old(self).well_formed(),
        ensures
            response_built(*old(self), *final(self), target_size as nat, text@),
            is_json_text(text@),
            is_envelope_text(text@, target_size as nat),
    {
        self.lazy_initialize();
        let ghost before = *self;
        let mut writer = EnvelopeWriter::new();
        let mut remaining: usize = target_size;
        let ghost mut hits: nat = 0;
        let ghost mut pools: Seq<ChunkPool> = seq![before];
        proof {
            assert(writer.fragments().take(0) =~= writer.fragments());
            assert(is_fetch_chain(pools, target_size as nat, writer.fragments())) by {
                reveal(is_fetch_chain);
            }
        }
        while remaining > REMAINDER_FLOOR && writer.chunk_count() < MAX_RESPONSE_CHUNKS
            invariant_except_break
                writer.fragments().len() > 0 ==> assembled_size(writer.fragments()) <= 2
                    * target_size,
            invariant
                self.well_formed(),
                self.initialized(),
                self.config() == before.config(),
                self.last_served() == before.last_served(),
                writer.well_formed(),
                all_json_texts(writer.fragments()),
                writer.fragments().len() <= MAX_RESPONSE_CHUNKS,
                remaining == budget_left(target_size as nat, writer.fragments()),
                forall|k: int|
                    0 <= k < writer.fragments().len() ==> wants_fragment(
                        target_size as nat,
                        #[trigger] writer.fragments().take(k),
                    ),
                forall|class: ChunkSize|
                    (#[trigger] self.fragments(class)).is_prefix_of(before.fragments(class)),
                hits == before.held() - self.held(),
                hits <= writer.fragments().len(),
                is_fetch_chain(pools, target_size as nat, writer.fragments()),
                pools.len() == writer.fragments().len() + 1,
                pools.first() == before,
                pools.last() == *self,
                self.stats() == before.stats().after_requests(
                    hits,
                    (writer.fragments().len() - hits) as nat,
                ),
            ensures
                !wants_fragment(target_size as nat, writer.fragments()),
            decreases MAX_RESPONSE_CHUNKS - writer.fragments().len(),
        {
            let ghost pool = *self;
            let ghost taken = writer.fragments();
            let class = ChunkSize::largest_fitting(remaining);
            let fresh_size: usize = if remaining < 1_024 {
                remaining
            } else {
                1_024
            };
            let fragment = self.fetch(class, fresh_size);
            proof {
                if pool.fragments(class).len() > 0 {
                    hits = hits + 1;
                }
            }
            writer.push(fragment.as_str());
            remaining = remaining.saturating_sub(byte_length(fragment.as_str()));
            let size = writer.byte_size();
            proof {
                let grown = writer.fragments();
                let earlier = pools;
                lemma_fetch_chain_extends(earlier, *self, target_size as nat, taken, fragment@);
                pools = earlier.push(*self);
                writer.lemma_written();
                lemma_bytes_of_prefix(grown, taken, taken.len());
                assert(grown.take(taken.len() as int) =~= taken);
                assert forall|k: int| 0 <= k < grown.len() implies wants_fragment(
                    target_size as nat,
                    #[trigger] grown.take(k),
                ) by {
                    if k < taken.len() {
                        assert(grown.take(k) =~= taken.take(k));
                    }
                }
                assert forall|c: ChunkSize|
                    (#[trigger] self.fragments(c)).is_prefix_of(before.fragments(c)) by {
                    assert(pool.fragments(c).is_prefix_of(before.fragments(c)));
                    if c == class && pool.fragments(c).len() > 0 {
                        assert(self.fragments(c) =~= pool.fragments(c).drop_last());
                    }
                }
            }
            if size as u128 > 2 * (target_size as u128) {
                break ;
            }
        }
        proof {
            writer.lemma_written();
            lemma_joined_is_chunks_text(writer.fragments(), writer.fragments().len());
        }
        let ghost fragments = writer.fragments();
        let text = writer.finish_pool(target_size);
        proof {
            assert(is_pool_response(text@, target_size as nat, fragments));
            assert(is_fetch_chain(pools, target_size as nat, fragments));
            assert(same_content(pools.first(), *old(self)));
            assert(same_content(pools.last(), *self));
            lemma_pool_response_bounds(text@, target_size as nat, fragments);
            lemma_responses_are_envelope_texts(
                fragments,
                target_size as nat,
                assembled_size(fragments),
            );
        }
        text
    }

    /// How many fragments the pool holds for each size class.
    pub open spec fn stock(&self) -> Stock {
        Stock {
            small: self.fragments(ChunkSize::Small).len(),
            medium: self.fragments(ChunkSize::Medium).len(),
            large: self.fragments(ChunkSize::Large).len(),
            xlarge: self.fragments(ChunkSize::XLarge).len(),
            served: self.last_served(),
        }
    }

    /// Number of bytes of all fragments in the pool.
    pub open spec fn memory_usage(&self) -> nat {
        total_bytes(self.fragments(ChunkSize::Small)) + total_bytes(
            self.fragments(ChunkSize::Medium),
        ) + total_bytes(self.fragments(ChunkSize::Large)) + total_bytes(
            self.fragments(ChunkSize::XLarge),
        )
    }

    /// The memory budget in bytes.
    pub open spec fn budget(&self) -> nat {
        (self.config().max_memory_mb * 1024 * 1024) as nat
    }

    /// The estimate of the memory in use is below the budget.
    pub open spec fn has_memory(&self) -> bool {
        capped(self.memory_usage()) < self.budget()
    }

    /// The class that the next round of replenishment serves, if any: the
    /// first deficient one in the cyclic order that begins after the class
    /// served last.
    pub open spec fn due_class(&self) -> Option<ChunkSize> {
        self.stock().next_deficient(self.config().min_chunks_per_size as nat)
    }

    /// Number of bytes of the fragments of one stack, capped.
    fn stack_bytes(stack: &Vec<String>) -> (bytes: usize)
        ensures
            bytes == capped(total_bytes(texts(stack@))),
    {
        let mut bytes: usize = 0;
        let mut i: usize = 0;
        while i < stack.len()
            invariant
                i <= stack.len(),
                bytes == capped(bytes_of(texts(stack@), i as nat)),
            decreases stack.len() - i,
        {
            bytes = bytes.saturating_add(byte_length(stack[i].as_str()));
            i = i + 1;
        }
        bytes
    }

    /// Estimate of the memory in use: the bytes of all fragments, or the
    /// largest number there is if they are more.
    pub fn estimate_memory_usage(&self) -> (bytes: usize)
        ensures
            bytes == capped(self.memory_usage()),
    {
        if self.stacks.len() == 4 {
            let small = Self::stack_bytes(&self.stacks[0]);
            let medium = Self::stack_bytes(&self.stacks[1]);
            let large = Self::stack_bytes(&self.stacks[2]);
            let xlarge = Self::stack_bytes(&self.stacks[3]);
            small.saturating_add(medium).saturating_add(large).saturating_add(xlarge)
        } else {
            0
        }
    }

    /// Whether the estimate of the memory in use is below the budget.
    pub fn has_memory_available(&self) -> (available: bool)
        ensures
            available == self.has_memory(),
    {
        let usage = self.estimate_memory_usage();
        let budget: u128 = self.config.max_memory_mb as u128 * 1024 * 1024;
        (usage as u128) < budget
    }

    /// The class that the next round of replenishment serves, if any.
    pub fn next_deficient(&self) -> (class: Option<ChunkSize>)
        ensures
            class == self.due_class(),
    {
        let minimum = self.config.min_chunks_per_size;
        let first = match self.last_served {
            Some(class) => class.next(),
            None => ChunkSize::Small,
        };
        let second = first.next();
        let third = second.next();
        let fourth = third.next();
        if self.available(first) < minimum {
            Some(first)
        } else if self.available(second) < minimum {
            Some(second)
        } else if self.available(third) < minimum {
            Some(third)
        } else if self.available(fourth) < minimum {
            Some(fourth)
        } else {
            None
        }
    }

    /// Whether a round of replenishment is due: memory is available and
    /// some class holds fewer fragments than the minimum.
    pub fn should_generate_chunks(&self) -> (due: bool)
        ensures
            due == (self.has_memory() && self.due_class() is Some),
    {
        if !self.has_memory_available() {
            return false;
        }
        self.next_deficient().is_some()
    }

    /// Brings the gauges up to date: the number of fragments and the
    /// estimate of the memory in use.
    pub fn update_stats(&mut self)
        ensures
            final(self).stats() == (ChunkPoolStats {
                total_chunks: capped(old(self).held()),
                memory_usage_bytes: capped(old(self).memory_usage()),
                ..old(self).stats()
            }),
            final(self).config() == old(self).config(),
            final(self).last_served() == old(self).last_served(),
            final(self).initialized() == old(self).initialized(),
            final(self).well_formed() == old(self).well_formed(),
            forall|class: ChunkSize| #[trigger]
                final(self).fragments(class) == old(self).fragments(class),
    {
        let total = self.available(ChunkSize::Small).saturating_add(
            self.available(ChunkSize::Medium),
        ).saturating_add(self.available(ChunkSize::Large)).saturating_add(
            self.available(ChunkSize::XLarge),
        );
        let usage = self.estimate_memory_usage();
        self.stats.total_chunks = total;
        self.stats.memory_usage_bytes = usage;
    }

    /// Puts `fresh` on the stack of `class`.
    fn add_fragments(&mut self, class: ChunkSize, fresh: Vec<String>)
        requires
            old(self).well_formed(),
            old(self).initialized(),
            forall|i: int| 0 <= i < fresh.len() ==> is_json_text((#[trigger] fresh[i])@),
        ensures
            final(self).well_formed(),
            final(self).initialized(),
            final(self).config() == old(self).config(),
            final(self).stats() == old(self).stats(),
            final(self).last_served() == old(self).last_served(),
            final(self).fragments(class) == old(self).fragments(class) + texts(fresh@),
            forall|other: ChunkSize|
                other != class ==> #[trigger] final(self).fragments(other) == old(self).fragments(
                    other,
                ),
    {
        let ghost before = *self;
        let ghost added = fresh@;
        let mut fresh = fresh;
        let slot = class.slot();
        self.stacks[slot].append(&mut fresh);
        proof {
            assert(forall|s: int| 0 <= s < 4 && s != slot ==> self.stacks[s] == before.stacks[s]);
            assert(self.stacks[slot as int]@ == before.stacks[slot as int]@ + added);
            assert forall|s: int, i: int|
                0 <= s < self.stacks.len() && 0 <= i < self.stacks[s].len() implies is_json_text(
                (#[trigger] self.stacks[s][i])@,
            ) by {
                if s == slot {
                    if i < before.stacks[s].len() {
                        assert(self.stacks[s][i] == before.stacks[s][i]);
                        assert(is_json_text(before.stacks[s][i]@));
                    } else {
                        assert(self.stacks[s][i] == added[i - before.stacks[s].len()]);
                    }
                } else {
                    assert(self.stacks[s] == before.stacks[s]);
                    assert(is_json_text(before.stacks[s][i]@));
                }
            }
            assert(self.fragments(class) =~= before.fragments(class) + texts(added));
            assert forall|other: ChunkSize| other != class implies #[trigger] self.fragments(other)
                == before.fragments(other) by {
                assert(self.stacks[other.position()] == before.stacks[other.position()]);
            }
        }
    }

    /// Brings the gauges up to date and counts a round of replenishment.
    fn record_round(&mut self)
        ensures
            final(self).stats() == (ChunkPoolStats {
                total_chunks: capped(old(self).held()),
                memory_usage_bytes: capped(old(self).memory_usage()),
                background_generations: capped_sum(old(self).stats().background_generations, 1),
                ..old(self).stats()
            }),
            final(self).config() == old(self).config(),
            final(self).last_served() == old(self).last_served(),
            final(self).initialized() == old(self).initialized(),
            final(self).well_formed() == old(self).well_formed(),
            forall|class: ChunkSize| #[trigger]
                final(self).fragments(class) == old(self).fragments(class),
    {
        self.update_stats();
        let ghost updated = *self;
        self.stats.background_generations = self.stats.background_generations.saturating_add(1);
        proof {
            assert(self.stacks == updated.stacks);
            assert forall|class: ChunkSize| #[trigger]
                self.fragments(class) == updated.fragments(class) by {}
        }
    }

    /// Remembers `class` as the class served last.
    fn mark_served(&mut self, class: ChunkSize)
        ensures
            final(self).last_served() == Some(class),
            final(self).stats() == old(self).stats(),
            final(self).config() == old(self).config(),
            final(self).initialized() == old(self).initialized(),
            final(self).well_formed() == old(self).well_formed(),
            forall|any: ChunkSize| #[trigger]
                final(self).fragments(any) == old(self).fragments(any),
    {
        self.last_served = Some(class);
        proof {
            assert(self.stacks == old(self).stacks);
            assert forall|any: ChunkSize| #[trigger]
                self.fragments(any) == old(self).fragments(any) by {}
        }
    }

    /// One round of replenishment: the deficient class whose turn it is
    /// gains a batch of fresh fragments, at most [`MAX_BATCH`], and is
    /// remembered as the class served last; the gauges are brought up to
    /// date and the round is counted. The turn goes round the classes from
    /// small to large, beginning after the class served last. Where no
    /// class is deficient nothing changes.
    pub fn generate_background_chunks(&mut self)
        requires
            old(self).well_formed(),
        ensures
            final(self).well_formed(),
            final(self).initialized(),
            final(self).config() == old(self).config(),
            final(self).stock() == old(self).stock().refilled(
                old(self).config().min_chunks_per_size as nat,
            ),
            forall|class: ChunkSize|
                old(self).fragments(class).is_prefix_of(#[trigger] final(self).fragments(class)),
            match old(self).due_class() {
                Some(class) => final(self).stats() == (ChunkPoolStats {
                    total_chunks: capped(final(self).held()),
                    memory_usage_bytes: capped(final(self).memory_usage()),
                    background_generations: capped_sum(old(self).stats().background_generations, 1),
                    ..old(self).stats()
                }),
                None => final(self).stats() == old(self).stats(),
            },
    {
        self.lazy_initialize();
        match self.next_deficient() {
            Some(class) => {
                self.serve(class);
                proof {
                    let minimum = self.config().min_chunks_per_size as nat;
                    let before = old(self).stock();
                    assert(before.next_deficient(minimum) == Some(class));
                    assert(self.stock() == before.refilled(minimum)) by {
                        match class {
                            ChunkSize::Small => {},
                            ChunkSize::Medium => {},
                            ChunkSize::Large => {},
                            ChunkSize::XLarge => {},
                        }
                    }
                }
            },
            None => {},
        }
    }

    /// Gives `class`, which is deficient, its batch of fresh fragments,
    /// remembers it as the class served last, brings the gauges up to date
    /// and counts the round.
    fn serve(&mut self, class: ChunkSize)
        requires
            old(self).well_formed(),
            old(self).initialized(),
            old(self).fragments(class).len() < old(self).config().min_chunks_per_size,
        ensures
            final(self).well_formed(),
            final(self).initialized(),
            final(self).config() == old(self).config(),
            final(self).last_served() == Some(class),
            final(self).fragments(class).len() == old(self).fragments(class).len() + batch_size(
                old(self).config().min_chunks_per_size as nat,
                old(self).fragments(class).len(),
            ),
            forall|other: ChunkSize|
                other != class ==> #[trigger] final(self).fragments(other) == old(self).fragments(
                    other,
                ),
            forall|any: ChunkSize|
                old(self).fragments(any).is_prefix_of(#[trigger] final(self).fragments(any)),
            final(self).stats() == (ChunkPoolStats {
                total_chunks: capped(final(self).held()),
                memory_usage_bytes: capped(final(self).memory_usage()),
                background_generations: capped_sum(old(self).stats().background_generations, 1),
                ..old(self).stats()
            }),
    {
        let ghost before = *self;
        let minimum = self.config.min_chunks_per_size;
        let lacking: usize = minimum - self.available(class);
        let count: usize = if lacking < MAX_BATCH {
            lacking
        } else {
            MAX_BATCH
        };
        let fresh = make_fragments(class.target_bytes(), count);
        self.add_fragments(class, fresh);
        let ghost filled = *self;
        self.record_round();
        self.mark_served(class);
        proof {
            assert forall|any: ChunkSize|
                before.fragments(any).is_prefix_of(#[trigger] self.fragments(any)) by {
                assert(self.fragments(any) == filled.fragments(any));
            }
        }
    }

    /// The interval after which the next tick of replenishment is due, in
    /// milliseconds: [`STARTUP_INTERVAL_MS`] while the pool fills up for
    /// the first time, and the configured interval afterwards.
    pub fn tick_interval_ms(&self, state: &MaintenanceState) -> (interval: u64)
        ensures
            interval == if state.fast_startup {
                STARTUP_INTERVAL_MS
            } else {
                self.config().background_generation_interval_ms
            },
    {
        if state.fast_startup {
            STARTUP_INTERVAL_MS
        } else {
            self.config.background_generation_interval_ms
        }
    }

    /// One tick of replenishment. Where memory is available and a class is
    /// deficient, a round takes place and is counted in the state. Where
    /// not, nothing is generated, and the first such tick ends the
    /// start-up phase.
    pub fn maintenance_tick(&mut self, state: &mut MaintenanceState)
        requires
            old(self).well_formed(),
        ensures
            final(self).well_formed(),
            final(self).initialized(),
            final(self).config() == old(self).config(),
            old(self).has_memory() ==> final(self).stock() == old(self).stock().refilled(
                old(self).config().min_chunks_per_size as nat,
            ),
            !old(self).has_memory() ==> final(self).stats() == old(self).stats() && forall|
                class: ChunkSize,
            | #[trigger] final(self).fragments(class) == old(self).fragments(class),
            forall|class: ChunkSize|
                old(self).fragments(class).is_prefix_of(#[trigger] final(self).fragments(class)),
            *final(state) == if old(self).has_memory() && old(self).due_class() is Some {
                MaintenanceState {
                    fast_startup: old(state).fast_startup,
                    startup_rounds: capped_sum(old(state).startup_rounds, 1),
                }
            } else {
                MaintenanceState { fast_startup: false, startup_rounds: old(state).startup_rounds }
            },
    {
        self.lazy_initialize();
        if self.should_generate_chunks() {
            self.generate_background_chunks();
            state.startup_rounds = state.startup_rounds.saturating_add(1);
        } else {
            state.fast_startup = false;
        }
    }

    /// A copy of the statistics.
    pub fn get_stats(&self) -> (stats: ChunkPoolStats)
        ensures
            stats == self.stats(),
    {
        ChunkPoolStats {
            total_chunks: self.stats.total_chunks,
            memory_usage_bytes: self.stats.memory_usage_bytes,
            cache_hits: self.stats.cache_hits,
            cache_misses: self.stats.cache_misses,
            background_generations: self.stats.background_generations,
        }
    }
}

} // verus!
