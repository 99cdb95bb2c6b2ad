//! The three ways to answer a request, chosen by the size asked for: a
//! payload made directly, an envelope built in memory, or an envelope
//! emitted piece by piece.

use vstd::prelude::*;
use vstd::string::StringExecFns;
use crate::chunk_pool::{
    budget_left, chunk_taken, fragment_fetched, lemma_bytes_of_prefix, response_built, ChunkPool,
    ChunkSize, REMAINDER_FLOOR,
};
use crate::content::{direct_payload, fresh_fragment, generate_parallel};
use crate::generator::{payload_limit, RandomDataGenerator};
use crate::decimal::append_decimal;
use crate::envelope::{
    all_json_texts, documents_of, envelope_open, joined, lemma_joined_is_chunks_text,
    is_envelope_text, lemma_envelope_text_is_json, lemma_joined_prefix,
    lemma_responses_are_envelope_texts, lemma_streaming_response_is_envelope,
    parallel_response_text, streaming_response_text, streaming_tail, EnvelopeWriter,
};
use crate::json::{is_json_object_text, is_json_text};
use crate::text::{byte_len, byte_length};

verus! {

/// Below this many bytes a response is made directly.
pub const FAST_THRESHOLD: usize = 10_000;

/// From this many bytes on a response is streamed.
pub const STREAMING_THRESHOLD: usize = 1_000_000;

/// From this many bytes on an envelope is assembled side by side.
pub const PARALLEL_THRESHOLD: usize = 100_000;

/// Number of bytes of one slice of a response assembled side by side.
pub const SLICE_BYTES: usize = 102_400;

/// How a response is produced.
#[derive(Debug, Clone, Copy, PartialEq, Eq, Structural)]
pub enum ResponseStrategy {
    /// A single random object, without an envelope.
    Direct,
    /// An envelope built in memory.
    Fast,
    /// An envelope emitted piece by piece.
    Streaming,
}

impl ResponseStrategy {
    /// The strategy for a response of `size` bytes.
    pub open spec fn chosen(size: nat) -> ResponseStrategy {
        if size < FAST_THRESHOLD {
            ResponseStrategy::Direct
        } else if size < STREAMING_THRESHOLD {
            ResponseStrategy::Fast
        } else {
            ResponseStrategy::Streaming
        }
    }

    /// The strategy for a response of `size` bytes.
    pub fn for_size(size: usize) -> (strategy: Self)
        ensures
            strategy == Self::chosen(size as nat),
    {
        if size < FAST_THRESHOLD {
            ResponseStrategy::Direct
        } else if size < STREAMING_THRESHOLD {
            ResponseStrategy::Fast
        } else {
            ResponseStrategy::Streaming
        }
    }
}

/// The class after which a streamed response of `target` bytes counts its
/// fragments.
pub open spec fn stream_class(target: nat) -> ChunkSize {
    if target > 10_000_000 {
        ChunkSize::XLarge
    } else if target > 1_000_000 {
        ChunkSize::Large
    } else {
        ChunkSize::Medium
    }
}

/// `a` divided by `b`, rounded up.
pub open spec fn div_ceil(a: nat, b: nat) -> nat
    recommends
        b > 0,
{
    if a % b == 0 {
        a / b
    } else {
        a / b + 1
    }
}

/// Number of fragments that a streamed response of `target` bytes expects:
/// the target divided by the nominal size of its class, rounded up.
pub open spec fn expected_chunks(target: nat) -> nat {
    div_ceil(target, stream_class(target).nominal())
}

/// A streamed response takes another fragment: more than
/// [`REMAINDER_FLOOR`] bytes are left and fewer fragments than expected
/// are out.
pub open spec fn stream_wants(target: nat, expected: nat, fragments: Seq<Seq<char>>) -> bool {
    budget_left(target, fragments) > REMAINDER_FLOOR && fragments.len() < expected
}

/// `fragments` are what a streamed response of `target` bytes emits: each
/// was emitted because one more was wanted, and after the last none is.
pub open spec fn is_stream_assembly(
    target: nat,
    expected: nat,
    fragments: Seq<Seq<char>>,
) -> bool {
    &&& forall|k: int|
        0 <= k < fragments.len() ==> stream_wants(target, expected, #[trigger] fragments.take(k))
    &&& !stream_wants(target, expected, fragments)
}

/// A streamed response emits as many fragments as it expects, unless so
/// few bytes are left that it stops before.
pub proof fn lemma_stream_count(target: nat, expected: nat, fragments: Seq<Seq<char>>)
    requires
        is_stream_assembly(target, expected, fragments),
    ensures
        fragments.len() <= expected,
        fragments.len() == expected || budget_left(target, fragments) <= REMAINDER_FLOOR,
{
    let n = fragments.len();
    if n > 0 {
        assert(stream_wants(target, expected, fragments.take(n - 1)));
    }
}

/// `a` divided by `b`, rounded up.
fn divide_rounding_up(a: usize, b: usize) -> (q: usize)
    requires
        b > 0,
    ensures
        q == div_ceil(a as nat, b as nat),
{
    if a % b == 0 {
        a / b
    } else {
        assert(a / b < a) by (nonlinear_arith)
            requires
                b > 0,
                a % b != 0,
        ;
        a / b + 1
    }
}

/// The pieces of a stream, one after the other.
pub open spec fn concatenated(pieces: Seq<Seq<char>>, n: nat) -> Seq<char>
    decreases n,
{
    if n == 0 || n > pieces.len() {
        Seq::empty()
    } else {
        concatenated(pieces, (n - 1) as nat) + pieces[n - 1]
    }
}

/// What the first `n` pieces add up to does not depend on later ones.
pub proof fn lemma_concatenated_prefix(a: Seq<Seq<char>>, b: Seq<Seq<char>>, n: nat)
    requires
        n <= a.len(),
        n <= b.len(),
        forall|i: int| 0 <= i < n ==> a[i] == b[i],
    ensures
        concatenated(a, n) == concatenated(b, n),
    decreases n,
{
    if n > 0 {
        lemma_concatenated_prefix(a, b, (n - 1) as nat);
    }
}

/// A prefix of a prefix is a prefix.
pub proof fn lemma_prefix_transitive<A>(a: Seq<A>, b: Seq<A>, c: Seq<A>)
    requires
        a.is_prefix_of(b),
        b.is_prefix_of(c),
    ensures
        a.is_prefix_of(c),
{
    assert(a =~= c.subrange(0, a.len() as int));
}

/// A response that is emitted piece by piece.
pub struct StreamingGarbleResponse {
    target_size: usize,
    chunk_size: usize,
}

/// Where a stream stands.
#[derive(Debug, Clone, Copy, PartialEq, Eq, Structural)]
pub enum StreamPhase {
    /// Nothing is out yet.
    Opening,
    /// The opening is out; fragments follow.
    Fragments,
    /// The record is out, and with it everything.
    Closed,
}

/// A stream in progress: what is still to come of a streamed response.
/// Each call of [`GarbleStream::next_piece`] gives the next piece, and
/// does the work for that piece only.
pub struct GarbleStream {
    target_size: usize,
    total_chunks: usize,
    remaining: usize,
    chunk_count: usize,
    separated: bool,
    phase: StreamPhase,
    fragments: Ghost<Seq<Seq<char>>>,
    written: Ghost<Seq<char>>,
}

impl StreamingGarbleResponse {
    /// The fragments are counted after the class that goes with the size
    /// asked for.
    #[verifier::type_invariant]
    spec fn counted_by_class(self) -> bool {
        self.chunk_size == stream_class(self.target_size as nat).nominal()
    }

    /// The size asked for.
    pub closed spec fn target(&self) -> nat {
        self.target_size as nat
    }

    /// The nominal size after which the fragments are counted.
    pub closed spec fn chunk_bytes(&self) -> nat {
        self.chunk_size as nat
    }

    /// A streamed response of `target_size` bytes, not yet started.
    pub fn new(target_size: usize) -> (response: Self)
        ensures
            response.target() == target_size,
            response.chunk_bytes() == stream_class(target_size as nat).nominal(),
    {
        let chunk_size = if target_size > 10_000_000 {
            ChunkSize::XLarge.target_bytes()
        } else if target_size > 1_000_000 {
            ChunkSize::Large.target_bytes()
        } else {
            ChunkSize::Medium.target_bytes()
        };
        Self { target_size, chunk_size }
    }

    /// The size asked for.
    pub fn target_size(&self) -> (size: usize)
        ensures
            size == self.target(),
    {
        self.target_size
    }

    /// The nominal size after which the fragments are counted.
    pub fn chunk_size(&self) -> (size: usize)
        ensures
            size == self.chunk_bytes(),
    {
        self.chunk_size
    }

    /// The stream of the response, with nothing emitted yet.
    pub fn into_stream(self) -> (stream: GarbleStream)
        ensures
            stream.well_formed(),
            stream.target() == self.target(),
            stream.expected() == expected_chunks(self.target()),
            stream.written() == Seq::<char>::empty(),
            stream.fragments() == Seq::<Seq<char>>::empty(),
            stream.phase() == StreamPhase::Opening,
    {
        proof {
            use_type_invariant(&self);
        }
        GarbleStream {
            target_size: self.target_size,
            total_chunks: divide_rounding_up(self.target_size, self.chunk_size),
            remaining: self.target_size,
            chunk_count: 0,
            separated: false,
            phase: StreamPhase::Opening,
            fragments: Ghost(Seq::empty()),
            written: Ghost(Seq::empty()),
        }
    }

    /// Asks the pool for a fragment of the largest class that fits
    /// `target_size`.
    pub fn get_pooled_chunk(&self, pool: &mut ChunkPool, target_size: usize) -> (chunk: Option<
        String,
    >)
        requires
            old(pool).well_formed(),
        ensures
            chunk_taken(*old(pool), *final(pool), ChunkSize::fitting(target_size as nat), chunk),
    {
        pool.get_chunk(ChunkSize::largest_fitting(target_size))
    }

    /// A fresh fragment aimed at `size` bytes; the sentinel where it cannot
    /// be written out.
    pub fn generate_chunk(&self, size: usize) -> (chunk: String)
        ensures
            is_json_text(chunk@),
    {
        fresh_fragment(size)
    }
}

impl GarbleStream {
    /// The size asked for.
    pub closed spec fn target(&self) -> nat {
        self.target_size as nat
    }

    /// Number of fragments expected.
    pub closed spec fn expected(&self) -> nat {
        self.total_chunks as nat
    }

    /// The fragments emitted so far.
    pub closed spec fn fragments(&self) -> Seq<Seq<char>> {
        self.fragments@
    }

    /// Everything emitted so far, piece after piece.
    pub closed spec fn written(&self) -> Seq<char> {
        self.written@
    }

    /// Where the stream stands.
    pub closed spec fn phase(&self) -> StreamPhase {
        self.phase
    }

    /// The comma before the next fragment is out.
    pub closed spec fn separated(&self) -> bool {
        self.separated
    }

    /// Everything is out.
    pub open spec fn is_closed(&self) -> bool {
        self.phase() == StreamPhase::Closed
    }

    /// The next piece is a fragment: one more is wanted, and it is the
    /// first or its comma is out.
    pub open spec fn fragment_is_next(&self) -> bool {
        &&& self.phase() == StreamPhase::Fragments
        &&& stream_wants(self.target(), self.expected(), self.fragments())
        &&& (self.fragments().len() == 0 || self.separated())
    }

    /// What a stream emits next, and where that leaves it: the opening;
    /// then, while one more fragment is wanted, a comma unless it is the
    /// first, and the fragment; then the record with the closing; then
    /// nothing.
    pub open spec fn piece_emitted(self, after: GarbleStream, piece: Option<Seq<char>>) -> bool {
        match self.phase() {
            StreamPhase::Opening => {
                &&& piece == Some(envelope_open())
                &&& after.phase() == StreamPhase::Fragments
                &&& !after.separated()
                &&& after.fragments() == self.fragments()
            },
            StreamPhase::Fragments => if self.fragment_is_next() {
                &&& piece matches Some(fragment)
                &&& is_json_text(fragment)
                &&& after.phase() == StreamPhase::Fragments
                &&& !after.separated()
                &&& after.fragments() == self.fragments().push(fragment)
            } else if stream_wants(self.target(), self.expected(), self.fragments()) {
                &&& piece == Some(seq![','])
                &&& after.phase() == StreamPhase::Fragments
                &&& after.separated()
                &&& after.fragments() == self.fragments()
            } else {
                &&& piece == Some(streaming_tail(self.target(), self.fragments().len()))
                &&& after.phase() == StreamPhase::Closed
                &&& after.fragments() == self.fragments()
            },
            StreamPhase::Closed => {
                &&& piece is None
                &&& after.phase() == StreamPhase::Closed
                &&& after.fragments() == self.fragments()
            },
        }
    }

    /// A bound on the number of pieces still to come.
    pub closed spec fn steps_left(&self) -> nat {
        match self.phase {
            StreamPhase::Opening => 2 * self.total_chunks as nat + 3,
            StreamPhase::Fragments => (2 * (self.total_chunks - self.chunk_count) + (
            if self.separated || self.chunk_count == 0 {
                1nat
            } else {
                2nat
            })) as nat,
            StreamPhase::Closed => 0,
        }
    }

    /// What is out is what the phase says: nothing, then the opening and
    /// the fragments with their commas, then the whole envelope.
    pub closed spec fn well_formed(&self) -> bool {
        let fragments = self.fragments@;
        &&& all_json_texts(fragments)
        &&& self.chunk_count == fragments.len()
        &&& self.chunk_count <= self.total_chunks
        &&& forall|k: int|
            0 <= k < fragments.len() ==> stream_wants(
                self.target_size as nat,
                self.total_chunks as nat,
                #[trigger] fragments.take(k),
            )
        &&& match self.phase {
            StreamPhase::Opening => {
                &&& fragments.len() == 0
                &&& self.written@ == Seq::<char>::empty()
                &&& self.remaining == self.target_size
                &&& !self.separated
            },
            StreamPhase::Fragments => {
                &&& self.remaining == budget_left(self.target_size as nat, fragments)
                &&& if self.separated {
                    &&& fragments.len() > 0
                    &&& stream_wants(self.target_size as nat, self.total_chunks as nat, fragments)
                    &&& self.written@ == envelope_open() + joined(fragments, fragments.len())
                        + seq![',']
                } else {
                    self.written@ == envelope_open() + joined(fragments, fragments.len())
                }
            },
            StreamPhase::Closed => {
                &&& !stream_wants(self.target_size as nat, self.total_chunks as nat, fragments)
                &&& self.written@ == streaming_response_text(
                    documents_of(fragments),
                    self.target_size as nat,
                )
            },
        }
    }

    /// A closed stream has emitted the envelope of its fragments, which
    /// are as many as the stopping rule allows.
    pub proof fn lemma_closed(&self)
        requires
            self.well_formed(),
            self.is_closed(),
        ensures
            all_json_texts(self.fragments()),
            is_stream_assembly(self.target(), self.expected(), self.fragments()),
            self.written() == streaming_response_text(
                documents_of(self.fragments()),
                self.target(),
            ),
            is_json_text(self.written()),
            is_envelope_text(self.written(), self.target()),
            self.steps_left() == 0,
    {
        lemma_joined_is_chunks_text(self.fragments@, self.fragments@.len());
        lemma_streaming_response_is_envelope(documents_of(self.fragments@), self.target());
        lemma_responses_are_envelope_texts(self.fragments@, self.target(), 0);
    }

    /// Whether everything is out.
    pub fn is_finished(&self) -> (finished: bool)
        ensures
            finished == self.is_closed(),
    {
        self.phase == StreamPhase::Closed
    }

    /// Number of fragments emitted so far.
    pub fn chunk_count(&self) -> (count: usize)
        requires
            self.well_formed(),
        ensures
            count == self.fragments().len(),
    {
        self.chunk_count
    }

    /// The next piece of the stream, or nothing once everything is out.
    ///
    /// The pieces are, in this order: the opening; the fragments, each but
    /// the first after a comma that is a piece of its own; and the record
    /// with the closing. A fragment is taken from the pool, from the class
    /// that fits what is left of the target, or made on the spot for what
    /// is left where the pool has none.
    pub fn next_piece(&mut self, pool: &mut ChunkPool) -> (piece: Option<String>)
        requires
            old(self).well_formed(),
            old(pool).well_formed(),
        ensures
            final(self).well_formed(),
            final(self).target() == old(self).target(),
            final(self).expected() == old(self).expected(),
            old(self).piece_emitted(
                *final(self),
                match piece {
                    Some(text) => Some(text@),
                    None => None,
                },
            ),
            if old(self).fragment_is_next() {
                fragment_fetched(
                    *old(pool),
                    *final(pool),
                    ChunkSize::fitting(budget_left(old(self).target(), old(self).fragments())),
                    piece->0@,
                )
            } else {
                *final(pool) == *old(pool)
            },
            final(pool).well_formed(),
            final(pool).config() == old(pool).config(),
            forall|class: ChunkSize|
                (#[trigger] final(pool).fragments(class)).is_prefix_of(old(pool).fragments(class)),
            piece is None <==> old(self).is_closed(),
            old(self).fragments().is_prefix_of(final(self).fragments()),
            match piece {
                Some(text) => {
                    &&& final(self).written() == old(self).written() + text@
                    &&& final(self).steps_left() < old(self).steps_left()
                },
                None => final(self).written() == old(self).written(),
            },
    {
        let ghost taken = self.fragments@;
        proof {
            assert forall|class: ChunkSize|
                (#[trigger] pool.fragments(class)).is_prefix_of(pool.fragments(class)) by {}
        }
        match self.phase {
            StreamPhase::Opening => {
                let text = String::from_str("{\"garbled_chunks\":[");
                self.phase = StreamPhase::Fragments;
                self.written = Ghost(text@);
                proof {
                    assert(text@ =~= envelope_open() + joined(taken, 0));
                    assert(Seq::<char>::empty() + text@ =~= text@);
                }
                Some(text)
            },
            StreamPhase::Fragments => {
                if self.remaining > REMAINDER_FLOOR && self.chunk_count < self.total_chunks {
                    if self.chunk_count > 0 && !self.separated {
                        let text = String::from_str(",");
                        self.separated = true;
                        proof {
                            reveal_strlit(",");
                            assert(text@ =~= seq![',']);
                        }
                        self.written = Ghost(self.written@ + text@);
                        Some(text)
                    } else {
                        let ghost before = *pool;
                        let ghost head = self.written@;
                        let fragment = pool.fetch(
                            ChunkSize::largest_fitting(self.remaining),
                            self.remaining,
                        );
                        let ghost grown = taken.push(fragment@);
                        self.remaining = self.remaining.saturating_sub(
                            byte_length(fragment.as_str()),
                        );
                        self.chunk_count = self.chunk_count + 1;
                        self.separated = false;
                        self.fragments = Ghost(grown);
                        self.written = Ghost(head + fragment@);
                        proof {
                            lemma_bytes_of_prefix(grown, taken, taken.len());
                            lemma_joined_prefix(grown, taken, taken.len());
                            assert(grown.take(taken.len() as int) =~= taken);
                            assert forall|k: int| 0 <= k < grown.len() implies stream_wants(
                                self.target_size as nat,
                                self.total_chunks as nat,
                                #[trigger] grown.take(k),
                            ) by {
                                if k < taken.len() {
                                    assert(grown.take(k) =~= taken.take(k));
                                }
                            }
                            assert(self.written@ =~= envelope_open() + joined(grown, grown.len()));
                            assert forall|class: ChunkSize|
                                (#[trigger] pool.fragments(class)).is_prefix_of(before.fragments(class)) by {
                                if before.fragments(class).len() > 0 {
                                    assert(before.fragments(class).drop_last().is_prefix_of(
                                        before.fragments(class),
                                    ));
                                }
                            }
                        }
                        Some(fragment)
                    }
                } else {
                    let mut text = String::from_str(
                        "],\"metadata\":{\"generated_by\":\"streaming\",\"target_size\":",
                    );
                    append_decimal(&mut text, self.target_size as u128);
                    text.append(",\"actual_size\":");
                    append_decimal(&mut text, self.target_size as u128);
                    text.append(",\"chunk_count\":");
                    append_decimal(&mut text, self.chunk_count as u128);
                    text.append(",\"streaming\":true}}");
                    self.phase = StreamPhase::Closed;
                    proof {
                        assert(text@ == streaming_tail(self.target_size as nat, taken.len()));
                        lemma_joined_is_chunks_text(taken, taken.len());
                    }
                    self.written = Ghost(self.written@ + text@);
                    Some(text)
                }
            },
            StreamPhase::Closed => None,
        }
    }

    /// All pieces still to come, in order.
    pub fn drain(&mut self, pool: &mut ChunkPool) -> (pieces: Vec<String>)
        requires
            old(self).well_formed(),
            old(pool).well_formed(),
        ensures
            final(self).well_formed(),
            final(self).is_closed(),
            final(self).target() == old(self).target(),
            final(self).expected() == old(self).expected(),
            old(self).fragments().is_prefix_of(final(self).fragments()),
            final(self).written() == old(self).written() + concatenated(
                pieces.deep_view(),
                pieces.len() as nat,
            ),
            is_stream_assembly(
                final(self).target(),
                final(self).expected(),
                final(self).fragments(),
            ),
            final(self).written() == streaming_response_text(
                documents_of(final(self).fragments()),
                final(self).target(),
            ),
            is_envelope_text(final(self).written(), final(self).target()),
            final(pool).well_formed(),
            final(pool).config() == old(pool).config(),
            forall|class: ChunkSize|
                (#[trigger] final(pool).fragments(class)).is_prefix_of(old(pool).fragments(class)),
    {
        let mut pieces: Vec<String> = Vec::new();
        let ghost start = self.written@;
        let ghost first = self.fragments@;
        let ghost before = *pool;
        proof {
            assert(start + concatenated(pieces.deep_view(), 0) =~= start);
            assert forall|class: ChunkSize|
                (#[trigger] pool.fragments(class)).is_prefix_of(before.fragments(class)) by {}
        }
        loop
            invariant_except_break
                !self.is_closed() || self.steps_left() == 0,
            invariant
                self.well_formed(),
                pool.well_formed(),
                self.target() == old(self).target(),
                self.expected() == old(self).expected(),
                first.is_prefix_of(self.fragments()),
                self.written() == start + concatenated(pieces.deep_view(), pieces.len() as nat),
                pool.config() == before.config(),
                forall|class: ChunkSize|
                    (#[trigger] pool.fragments(class)).is_prefix_of(before.fragments(class)),
            ensures
                self.is_closed(),
            decreases self.steps_left(),
        {
            let ghost collected = pieces.deep_view();
            let ghost held = *pool;
            let ghost emitted = self.fragments();
            match self.next_piece(pool) {
                Some(text) => {
                    let ghost piece = text@;
                    pieces.push(text);
                    proof {
                        let longer = pieces.deep_view();
                        assert(longer =~= collected.push(piece));
                        lemma_prefix_transitive(first, emitted, self.fragments());
                        lemma_concatenated_prefix(longer, collected, collected.len());
                        assert forall|class: ChunkSize|
                            (#[trigger] pool.fragments(class)).is_prefix_of(before.fragments(class)) by {
                            lemma_prefix_transitive(
                                pool.fragments(class),
                                held.fragments(class),
                                before.fragments(class),
                            );
                        }
                    }
                },
                None => {
                    proof {
                        assert forall|class: ChunkSize|
                            (#[trigger] pool.fragments(class)).is_prefix_of(before.fragments(class)) by {
                            lemma_prefix_transitive(
                                pool.fragments(class),
                                held.fragments(class),
                                before.fragments(class),
                            );
                        }
                    }
                    break ;
                },
            }
        }
        proof {
            self.lemma_closed();
        }
        pieces
    }
}

/// Number of slices of a response of `target` bytes that is assembled
/// side by side.
pub open spec fn slices(target: nat) -> nat {
    div_ceil(target, SLICE_BYTES as nat)
}

/// `text` is the response of `target` bytes assembled side by side from
/// `fragments`, one for each slice: their envelope, with the size of the
/// whole text as the actual size.
pub open spec fn is_parallel_response(
    text: Seq<char>,
    target: nat,
    fragments: Seq<Seq<char>>,
) -> bool {
    &&& all_json_texts(fragments)
    &&& fragments.len() == slices(target)
    &&& text == parallel_response_text(documents_of(fragments), target, byte_len(text))
}

/// What assembling a response of `target` bytes side by side gives, and
/// leaves of `before`.
///
/// Each slice asks the pool for a large fragment. The slices that find one
/// come first, with the fragments in the order in which they left the
/// pool; the others get a fresh fragment each. The pool counts a hit or a
/// miss for each slice, and only its large fragments have changed.
pub open spec fn parallel_built(
    before: ChunkPool,
    after: ChunkPool,
    target: nat,
    text: Seq<char>,
) -> bool {
    let stock = before.fragments(ChunkSize::Large);
    let found = if stock.len() < slices(target) {
        stock.len()
    } else {
        slices(target)
    };
    &&& after.well_formed()
    &&& after.initialized()
    &&& after.config() == before.config()
    &&& after.last_served() == before.last_served()
    &&& forall|class: ChunkSize|
        class != ChunkSize::Large ==> #[trigger] after.fragments(class) == before.fragments(class)
    &&& after.fragments(ChunkSize::Large) == stock.take(stock.len() - found)
    &&& after.stats() == before.stats().after_requests(found, (slices(target) - found) as nat)
    &&& exists|fragments: Seq<Seq<char>>|
        {
            &&& #[trigger] is_parallel_response(text, target, fragments)
            &&& forall|i: int|
                0 <= i < found ==> (#[trigger] fragments[i]) == stock[stock.len() - 1 - i]
        }
}

/// An envelope that is built in memory.
pub struct FastGarbleResponse {
    target_size: usize,
}

impl FastGarbleResponse {
    /// The size asked for.
    pub closed spec fn target(&self) -> nat {
        self.target_size as nat
    }

    /// A response of `target_size` bytes, not yet built.
    pub fn new(target_size: usize) -> (response: Self)
        ensures
            response.target() == target_size,
    {
        Self { target_size }
    }

    /// The response: assembled from the pool fragment by fragment below
    /// [`PARALLEL_THRESHOLD`] bytes, and side by side from there on.
    pub fn build(self, pool: &mut ChunkPool) -> (text: String)
        requires
            old(pool).well_formed(),
        ensures
            is_json_text(text@),
            if self.target() < PARALLEL_THRESHOLD {
                response_built(*old(pool), *final(pool), self.target(), text@)
            } else {
                parallel_built(*old(pool), *final(pool), self.target(), text@)
            },
            is_envelope_text(text@, self.target()),
    {
        if self.target_size < PARALLEL_THRESHOLD {
            pool.build_response(self.target_size)
        } else {
            self.build_parallel(pool)
        }
    }

    /// The response assembled side by side: one fragment for each slice
    /// of [`SLICE_BYTES`] bytes, from the pool where it has a large one and
    /// fresh where it has not, the fresh ones made in parallel.
    pub fn build_parallel(self, pool: &mut ChunkPool) -> (text: String)
        requires
            old(pool).well_formed(),
        ensures
            parallel_built(*old(pool), *final(pool), self.target(), text@),
            is_envelope_text(text@, self.target()),
            is_json_text(text@),
    {
        let target_size = self.target_size;
        let num_chunks = divide_rounding_up(target_size, SLICE_BYTES);
        pool.lazy_initialize();
        let ghost before = *pool;
        let ghost stock = pool.fragments(ChunkSize::Large);
        let mut writer = EnvelopeWriter::new();
        let mut sizes: Vec<usize> = Vec::new();
        let mut slice: usize = 0;
        proof {
            assert(pool.fragments(ChunkSize::Large) =~= stock.take(stock.len() - 0));
        }
        while slice < num_chunks
            invariant
                num_chunks == slices(target_size as nat),
                slice <= num_chunks,
                pool.well_formed(),
                pool.initialized(),
                pool.config() == before.config(),
                pool.last_served() == before.last_served(),
                stock == before.fragments(ChunkSize::Large),
                forall|class: ChunkSize|
                    class != ChunkSize::Large ==> #[trigger] pool.fragments(class)
                        == before.fragments(class),
                writer.well_formed(),
                writer.fragments().len() + sizes.len() == slice,
                writer.fragments().len() <= stock.len(),
                pool.fragments(ChunkSize::Large) == stock.take(
                    stock.len() - writer.fragments().len(),
                ),
                sizes.len() > 0 ==> writer.fragments().len() == stock.len(),
                forall|i: int|
                    0 <= i < writer.fragments().len() ==> (#[trigger] writer.fragments()[i])
                        == stock[stock.len() - 1 - i],
                pool.stats() == before.stats().after_requests(
                    writer.fragments().len(),
                    sizes.len() as nat,
                ),
            decreases num_chunks - slice,
        {
            let ghost taken = writer.fragments();
            match pool.get_chunk(ChunkSize::Large) {
                Some(fragment) => {
                    writer.push(fragment.as_str());
                    proof {
                        assert(pool.fragments(ChunkSize::Large) =~= stock.take(
                            stock.len() - writer.fragments().len(),
                        ));
                    }
                },
                None => {
                    assert(slice * SLICE_BYTES < target_size) by (nonlinear_arith)
                        requires
                            slice < num_chunks,
                            num_chunks == slices(target_size as nat),
                            SLICE_BYTES == 102_400,
                    ;
                    let left: usize = target_size - slice * SLICE_BYTES;
                    sizes.push(
                        if left < SLICE_BYTES {
                            left
                        } else {
                            SLICE_BYTES
                        },
                    );
                },
            }
            slice = slice + 1;
        }
        let fresh = generate_parallel(sizes);
        let ghost found = writer.fragments();
        let mut made: usize = 0;
        while made < fresh.len()
            invariant
                made <= fresh.len(),
                writer.well_formed(),
                writer.fragments().len() == found.len() + made,
                found.len() + fresh.len() == num_chunks,
                found.is_prefix_of(writer.fragments()),
                forall|i: int| 0 <= i < fresh.len() ==> is_json_text((#[trigger] fresh[i])@),
            decreases fresh.len() - made,
        {
            let ghost held = writer.fragments();
            writer.push(fresh[made].as_str());
            proof {
                assert(held.is_prefix_of(writer.fragments()));
                lemma_prefix_transitive(found, held, writer.fragments());
            }
            made = made + 1;
        }
        let ghost fragments = writer.fragments();
        proof {
            writer.lemma_written();
        }
        let text = writer.finish_parallel(target_size);
        proof {
            assert(is_parallel_response(text@, target_size as nat, fragments));
            assert forall|i: int| 0 <= i < found.len() implies (#[trigger] fragments[i])
                == stock[stock.len() - 1 - i] by {
                assert(fragments[i] == found[i]);
            }
            lemma_responses_are_envelope_texts(fragments, target_size as nat, byte_len(text@));
            lemma_envelope_text_is_json(text@, target_size as nat);
        }
        text
    }
}

/// A response that is either complete or still to be streamed.
pub enum GarbleResponse {
    Json(String),
    Streaming(StreamingGarbleResponse),
}

/// The response to a request for `target_size` bytes, produced by the
/// strategy that goes with the size. A direct response is a JSON object of
/// no more bytes than [`payload_limit`] allows. A streamed response is
/// handed back unstarted, and the pool is left alone until it is streamed.
pub fn create_optimal_response(target_size: usize, pool: &mut ChunkPool) -> (response:
    GarbleResponse)
    requires
        old(pool).well_formed(),
    ensures
        final(pool).well_formed(),
        match ResponseStrategy::chosen(target_size as nat) {
            ResponseStrategy::Direct => {
                &&& response matches GarbleResponse::Json(text)
                &&& is_json_object_text(text@)
                &&& byte_len(text@) <= payload_limit(target_size as nat)
                &&& *final(pool) == *old(pool)
            },
            ResponseStrategy::Fast => {
                &&& response matches GarbleResponse::Json(text)
                &&& is_envelope_text(text@, target_size as nat)
                &&& is_json_text(text@)
                &&& if target_size < PARALLEL_THRESHOLD {
                    response_built(*old(pool), *final(pool), target_size as nat, text@)
                } else {
                    parallel_built(*old(pool), *final(pool), target_size as nat, text@)
                }
            },
            ResponseStrategy::Streaming => {
                &&& response matches GarbleResponse::Streaming(streaming)
                &&& streaming.target() == target_size
                &&& streaming.chunk_bytes() == stream_class(target_size as nat).nominal()
                &&& *final(pool) == *old(pool)
            },
        },
{
    match ResponseStrategy::for_size(target_size) {
        ResponseStrategy::Direct => {
            let mut generator = RandomDataGenerator::new();
            GarbleResponse::Json(direct_payload(&mut generator, target_size))
        },
        ResponseStrategy::Fast => GarbleResponse::Json(
            FastGarbleResponse::new(target_size).build(pool),
        ),
        ResponseStrategy::Streaming => GarbleResponse::Streaming(
            StreamingGarbleResponse::new(target_size),
        ),
    }
}

} // verus!
