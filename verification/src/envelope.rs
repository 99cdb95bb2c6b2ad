//! The envelope around a response's fragments: an object with the
//! fragments in an array and a record of how the response was made.

use vstd::prelude::*;
use vstd::string::StringExecFns;
use crate::decimal::{
    append_decimal, decimal, decimal_width, lemma_decimal_byte_len, lemma_decimal_len_monotonic,
};
use crate::json::{
    document_of, is_json_text, is_string_body, lemma_decimal_is_number,
    lemma_plain_is_string_body, member_text,
    quoted, render_items, render_members, Json,
};
use crate::text::{byte_len, byte_length, lemma_byte_len_ascii, lemma_byte_len_concat};

verus! {

/// Key of the array of fragments.
pub open spec fn chunks_key() -> Seq<char> {
    "garbled_chunks"@
}

/// Key of the record of how the response was made.
pub open spec fn metadata_key() -> Seq<char> {
    "metadata"@
}

/// The path that assembled a response.
#[derive(Debug, Clone, Copy, PartialEq, Eq, Structural)]
pub enum Producer {
    /// Fragment by fragment, from the pool.
    ChunkPool,
    /// Slice by slice, side by side.
    Parallel,
    /// Piece by piece, as a stream.
    Streaming,
}

impl Producer {
    /// The name under which the path is recorded.
    pub open spec fn name(self) -> Seq<char> {
        match self {
            Producer::ChunkPool => "chunk_pool"@,
            Producer::Parallel => "parallel"@,
            Producer::Streaming => "streaming"@,
        }
    }
}

/// Record of a response assembled from the pool: who made it, the size
/// asked for, the size measured and the number of fragments.
pub open spec fn pool_metadata(target_size: nat, actual_size: nat, chunk_count: nat) -> Json {
    Json::Object(
        seq![
            ("generated_by"@, Json::Text(Producer::ChunkPool.name())),
            ("target_size"@, Json::Number(decimal(target_size))),
            ("actual_size"@, Json::Number(decimal(actual_size))),
            ("chunk_count"@, Json::Number(decimal(chunk_count))),
        ],
    )
}

/// Record of a response assembled side by side; the count comes before
/// the measured size.
pub open spec fn parallel_metadata(target_size: nat, chunk_count: nat, actual_size: nat) -> Json {
    Json::Object(
        seq![
            ("generated_by"@, Json::Text(Producer::Parallel.name())),
            ("target_size"@, Json::Number(decimal(target_size))),
            ("chunk_count"@, Json::Number(decimal(chunk_count))),
            ("actual_size"@, Json::Number(decimal(actual_size))),
        ],
    )
}

/// Record of a streamed response. Nothing is measured: the size asked for
/// stands in for the actual size.
pub open spec fn streaming_metadata(target_size: nat, chunk_count: nat) -> Json {
    Json::Object(
        seq![
            ("generated_by"@, Json::Text(Producer::Streaming.name())),
            ("target_size"@, Json::Number(decimal(target_size))),
            ("actual_size"@, Json::Number(decimal(target_size))),
            ("chunk_count"@, Json::Number(decimal(chunk_count))),
            ("streaming"@, Json::Boolean(true)),
        ],
    )
}

/// The envelope of `chunks` with its record.
pub open spec fn envelope(chunks: Seq<Json>, metadata: Json) -> Json {
    Json::Object(seq![(chunks_key(), Json::Array(chunks)), (metadata_key(), metadata)])
}

/// `d` is an envelope: an object of exactly two members, the array of
/// fragments and then the record, itself an object.
pub open spec fn is_envelope(d: Json) -> bool {
    &&& d matches Json::Object(members)
    &&& members.len() == 2
    &&& members[0].0 == chunks_key()
    &&& members[0].1 is Array
    &&& members[1].0 == metadata_key()
    &&& members[1].1 is Object
}

/// The fragments of an envelope.
pub open spec fn chunks_of(d: Json) -> Seq<Json>
    recommends
        is_envelope(d),
{
    d->Object_0[0].1->Array_0
}

/// The record of an envelope.
pub open spec fn metadata_of(d: Json) -> Json
    recommends
        is_envelope(d),
{
    d->Object_0[1].1
}

/// Every document of `docs` is well formed.
pub open spec fn all_well_formed(docs: Seq<Json>) -> bool {
    forall|i: int| 0 <= i < docs.len() ==> (#[trigger] docs[i]).well_formed()
}

/// What opens every envelope, up to the first fragment.
pub open spec fn envelope_open() -> Seq<char> {
    "{\"garbled_chunks\":["@
}

/// The fragments, separated by commas.
pub open spec fn chunks_text(chunks: Seq<Json>) -> Seq<char> {
    render_items(chunks, chunks.len())
}

/// What follows the last fragment of a response assembled from the pool,
/// up to the size asked for.
pub open spec fn pool_record_open() -> Seq<char> {
    "],\"metadata\":{\"generated_by\":\"chunk_pool\",\"target_size\":"@
}

/// What introduces the measured size.
pub open spec fn actual_size_label() -> Seq<char> {
    ",\"actual_size\":"@
}

/// What introduces the number of fragments.
pub open spec fn chunk_count_label() -> Seq<char> {
    ",\"chunk_count\":"@
}

/// What closes the record and the envelope.
pub open spec fn envelope_close() -> Seq<char> {
    "}}"@
}

/// The text of a response assembled from the pool.
pub open spec fn pool_response_text(
    chunks: Seq<Json>,
    target_size: nat,
    actual_size: nat,
) -> Seq<char> {
    envelope_open() + chunks_text(chunks) + pool_record_open() + decimal(target_size)
        + actual_size_label() + decimal(actual_size) + chunk_count_label() + decimal(
        chunks.len(),
    ) + envelope_close()
}

/// A key, quoted and followed by a colon.
pub open spec fn label(key: Seq<char>) -> Seq<char> {
    quoted(key) + seq![':']
}

proof fn lemma_envelope_open()
    ensures
        envelope_open() == seq!['{'] + label(chunks_key()) + seq!['['],
{
    reveal_strlit("garbled_chunks");
    reveal_strlit("{\"garbled_chunks\":[");
    assert(envelope_open() =~= seq!['{'] + label(chunks_key()) + seq!['[']);
}

proof fn lemma_pool_record_open()
    ensures
        pool_record_open() == seq![']', ','] + label(metadata_key()) + seq!['{'] + label(
            "generated_by"@,
        ) + quoted(Producer::ChunkPool.name()) + seq![','] + label("target_size"@),
{
    reveal_strlit("metadata");
    reveal_strlit("chunk_pool");
    reveal_strlit("generated_by");
    reveal_strlit("target_size");
    reveal_strlit("],\"metadata\":{\"generated_by\":\"chunk_pool\",\"target_size\":");
    assert(pool_record_open() =~= seq![']', ','] + label(metadata_key()) + seq!['{'] + label(
        "generated_by"@,
    ) + quoted(Producer::ChunkPool.name()) + seq![','] + label("target_size"@));
}

proof fn lemma_labels()
    ensures
        actual_size_label() == seq![','] + label("actual_size"@),
        chunk_count_label() == seq![','] + label("chunk_count"@),
        envelope_close() == seq!['}'] + seq!['}'],
{
    reveal_strlit("actual_size");
    reveal_strlit("chunk_count");
    reveal_strlit(",\"actual_size\":");
    reveal_strlit(",\"chunk_count\":");
    reveal_strlit("}}");
    assert(actual_size_label() =~= seq![','] + label("actual_size"@));
    assert(chunk_count_label() =~= seq![','] + label("chunk_count"@));
    assert(envelope_close() =~= seq!['}'] + seq!['}']);
}

/// The text of an object of four members.
proof fn lemma_render_four(
    k1: Seq<char>,
    v1: Json,
    k2: Seq<char>,
    v2: Json,
    k3: Seq<char>,
    v3: Json,
    k4: Seq<char>,
    v4: Json,
)
    ensures
        Json::Object(seq![(k1, v1), (k2, v2), (k3, v3), (k4, v4)]).render() == seq!['{'] + label(
            k1,
        ) + v1.render() + seq![','] + label(k2) + v2.render() + seq![','] + label(k3)
            + v3.render() + seq![','] + label(k4) + v4.render() + seq!['}'],
{
    let members = seq![(k1, v1), (k2, v2), (k3, v3), (k4, v4)];
    assert(members.len() == 4);
    assert(render_members(members, 1) == label(k1) + v1.render());
    assert(render_members(members, 2) == render_members(members, 1) + seq![','] + (label(k2)
        + v2.render()));
    assert(render_members(members, 3) == render_members(members, 2) + seq![','] + (label(k3)
        + v3.render()));
    assert(render_members(members, 4) == render_members(members, 3) + seq![','] + (label(k4)
        + v4.render()));
    assert(Json::Object(members).render() == seq!['{'] + render_members(members, 4) + seq!['}']);
    assert(Json::Object(members).render() =~= seq!['{'] + label(k1) + v1.render() + seq![',']
        + label(k2) + v2.render() + seq![','] + label(k3) + v3.render() + seq![','] + label(k4)
        + v4.render() + seq!['}']);
}

/// The text of an envelope.
proof fn lemma_render_envelope(chunks: Seq<Json>, metadata: Json)
    ensures
        envelope(chunks, metadata).render() == seq!['{'] + label(chunks_key()) + seq!['[']
            + chunks_text(chunks) + seq![']', ','] + label(metadata_key()) + metadata.render()
            + seq!['}'],
{
    let members = seq![(chunks_key(), Json::Array(chunks)), (metadata_key(), metadata)];
    assert(members.len() == 2);
    assert(render_members(members, 1) == member_text(members[0].0, members[0].1.render()));
    assert(render_members(members, 2) == render_members(members, 1) + seq![','] + member_text(
        members[1].0,
        members[1].1.render(),
    ));
    assert(envelope(chunks, metadata).render() == seq!['{'] + render_members(members, 2) + seq!['}']);
    assert(Json::Array(chunks).render() == seq!['['] + chunks_text(chunks) + seq![']']);
    assert(envelope(chunks, metadata).render() =~= seq!['{'] + label(chunks_key()) + seq!['[']
        + chunks_text(chunks) + seq![']', ','] + label(metadata_key()) + metadata.render()
        + seq!['}']);
}

/// Regrouping of the pieces of an envelope whose record has four members.
proof fn lemma_regroup_four(
    brace: Seq<char>,
    key1: Seq<char>,
    bracket: Seq<char>,
    items: Seq<char>,
    turn: Seq<char>,
    key2: Seq<char>,
    l1: Seq<char>,
    v1: Seq<char>,
    comma: Seq<char>,
    l2: Seq<char>,
    v2: Seq<char>,
    l3: Seq<char>,
    v3: Seq<char>,
    l4: Seq<char>,
    v4: Seq<char>,
    end: Seq<char>,
)
    ensures
        (brace + key1 + bracket) + items + (turn + key2 + brace + l1 + v1 + comma + l2) + v2 + (
        comma + l3) + v3 + (comma + l4) + v4 + (end + end) == brace + key1 + bracket + items
            + turn + key2 + (brace + l1 + v1 + comma + l2 + v2 + comma + l3 + v3 + comma + l4
            + v4 + end) + end,
{
    assert((brace + key1 + bracket) + items + (turn + key2 + brace + l1 + v1 + comma + l2) + v2
        + (comma + l3) + v3 + (comma + l4) + v4 + (end + end) =~= brace + key1 + bracket + items
        + turn + key2 + (brace + l1 + v1 + comma + l2 + v2 + comma + l3 + v3 + comma + l4 + v4
        + end) + end);
}

/// Regrouping of the pieces of an envelope whose record has five members.
proof fn lemma_regroup_five(
    brace: Seq<char>,
    key1: Seq<char>,
    bracket: Seq<char>,
    items: Seq<char>,
    turn: Seq<char>,
    key2: Seq<char>,
    l1: Seq<char>,
    v1: Seq<char>,
    comma: Seq<char>,
    l2: Seq<char>,
    v2: Seq<char>,
    l3: Seq<char>,
    v3: Seq<char>,
    l4: Seq<char>,
    v4: Seq<char>,
    l5: Seq<char>,
    v5: Seq<char>,
    end: Seq<char>,
)
    ensures
        (brace + key1 + bracket) + items + ((turn + key2 + brace + l1 + v1 + comma + l2) + v2 + (
        comma + l3) + v3 + (comma + l4) + v4 + (comma + l5 + v5 + (end + end))) == brace + key1
            + bracket + items + turn + key2 + (brace + l1 + v1 + comma + l2 + v2 + comma + l3
            + v3 + comma + l4 + v4 + comma + l5 + v5 + end) + end,
{
    assert((brace + key1 + bracket) + items + ((turn + key2 + brace + l1 + v1 + comma + l2) + v2
        + (comma + l3) + v3 + (comma + l4) + v4 + (comma + l5 + v5 + (end + end))) =~= brace
        + key1 + bracket + items + turn + key2 + (brace + l1 + v1 + comma + l2 + v2 + comma + l3
        + v3 + comma + l4 + v4 + comma + l5 + v5 + end) + end);
}

/// The text of a response assembled from the pool is the text of the
/// envelope of its fragments.
pub proof fn lemma_pool_response_text(chunks: Seq<Json>, target_size: nat, actual_size: nat)
    ensures
        pool_response_text(chunks, target_size, actual_size) == envelope(
            chunks,
            pool_metadata(target_size, actual_size, chunks.len()),
        ).render(),
{
    let metadata = pool_metadata(target_size, actual_size, chunks.len());
    lemma_envelope_open();
    lemma_pool_record_open();
    lemma_labels();
    lemma_render_envelope(chunks, metadata);
    lemma_render_four(
        "generated_by"@,
        Json::Text(Producer::ChunkPool.name()),
        "target_size"@,
        Json::Number(decimal(target_size)),
        "actual_size"@,
        Json::Number(decimal(actual_size)),
        "chunk_count"@,
        Json::Number(decimal(chunks.len())),
    );
    lemma_regroup_four(
        seq!['{'],
        label(chunks_key()),
        seq!['['],
        chunks_text(chunks),
        seq![']', ','],
        label(metadata_key()),
        label("generated_by"@),
        quoted(Producer::ChunkPool.name()),
        seq![','],
        label("target_size"@),
        decimal(target_size),
        label("actual_size"@),
        decimal(actual_size),
        label("chunk_count"@),
        decimal(chunks.len()),
        seq!['}'],
    );
}

/// What follows the last fragment of a response assembled side by side,
/// up to the size asked for.
pub open spec fn parallel_record_open() -> Seq<char> {
    "],\"metadata\":{\"generated_by\":\"parallel\",\"target_size\":"@
}

/// What follows the last fragment of a streamed response, up to the size
/// asked for.
pub open spec fn streaming_record_open() -> Seq<char> {
    "],\"metadata\":{\"generated_by\":\"streaming\",\"target_size\":"@
}

/// What closes the record of a streamed response, and the envelope.
pub open spec fn streaming_close() -> Seq<char> {
    ",\"streaming\":true}}"@
}

/// The text of a response assembled side by side.
pub open spec fn parallel_response_text(
    chunks: Seq<Json>,
    target_size: nat,
    actual_size: nat,
) -> Seq<char> {
    envelope_open() + chunks_text(chunks) + parallel_record_open() + decimal(target_size)
        + chunk_count_label() + decimal(chunks.len()) + actual_size_label() + decimal(
        actual_size,
    ) + envelope_close()
}

/// What ends a streamed response of `chunk_count` fragments.
pub open spec fn streaming_tail(target_size: nat, chunk_count: nat) -> Seq<char> {
    streaming_record_open() + decimal(target_size) + actual_size_label() + decimal(target_size)
        + chunk_count_label() + decimal(chunk_count) + streaming_close()
}

/// The text of a streamed response.
pub open spec fn streaming_response_text(chunks: Seq<Json>, target_size: nat) -> Seq<char> {
    envelope_open() + chunks_text(chunks) + streaming_tail(target_size, chunks.len())
}

proof fn lemma_parallel_record_open()
    ensures
        parallel_record_open() == seq![']', ','] + label(metadata_key()) + seq!['{'] + label(
            "generated_by"@,
        ) + quoted(Producer::Parallel.name()) + seq![','] + label("target_size"@),
{
    reveal_strlit("metadata");
    reveal_strlit("parallel");
    reveal_strlit("generated_by");
    reveal_strlit("target_size");
    reveal_strlit("],\"metadata\":{\"generated_by\":\"parallel\",\"target_size\":");
    assert(parallel_record_open() =~= seq![']', ','] + label(metadata_key()) + seq!['{'] + label(
        "generated_by"@,
    ) + quoted(Producer::Parallel.name()) + seq![','] + label("target_size"@));
}

proof fn lemma_streaming_record()
    ensures
        streaming_record_open() == seq![']', ','] + label(metadata_key()) + seq!['{'] + label(
            "generated_by"@,
        ) + quoted(Producer::Streaming.name()) + seq![','] + label("target_size"@),
        streaming_close() == seq![','] + label("streaming"@) + Json::Boolean(true).render() + (
        seq!['}'] + seq!['}']),
{
    reveal_strlit("metadata");
    reveal_strlit("streaming");
    reveal_strlit("generated_by");
    reveal_strlit("target_size");
    reveal_strlit("],\"metadata\":{\"generated_by\":\"streaming\",\"target_size\":");
    reveal_strlit(",\"streaming\":true}}");
    assert(streaming_record_open() =~= seq![']', ','] + label(metadata_key()) + seq!['{']
        + label("generated_by"@) + quoted(Producer::Streaming.name()) + seq![','] + label(
        "target_size"@,
    ));
    assert(streaming_close() =~= seq![','] + label("streaming"@) + Json::Boolean(true).render()
        + (seq!['}'] + seq!['}']));
}

/// The text of an object of five members.
proof fn lemma_render_five(
    k1: Seq<char>,
    v1: Json,
    k2: Seq<char>,
    v2: Json,
    k3: Seq<char>,
    v3: Json,
    k4: Seq<char>,
    v4: Json,
    k5: Seq<char>,
    v5: Json,
)
    ensures
        Json::Object(seq![(k1, v1), (k2, v2), (k3, v3), (k4, v4), (k5, v5)]).render() == seq!['{']
            + label(k1) + v1.render() + seq![','] + label(k2) + v2.render() + seq![','] + label(
            k3,
        ) + v3.render() + seq![','] + label(k4) + v4.render() + seq![','] + label(k5)
            + v5.render() + seq!['}'],
{
    let members = seq![(k1, v1), (k2, v2), (k3, v3), (k4, v4), (k5, v5)];
    assert(members.len() == 5);
    assert(render_members(members, 1) == label(k1) + v1.render());
    assert(render_members(members, 2) == render_members(members, 1) + seq![','] + (label(k2)
        + v2.render()));
    assert(render_members(members, 3) == render_members(members, 2) + seq![','] + (label(k3)
        + v3.render()));
    assert(render_members(members, 4) == render_members(members, 3) + seq![','] + (label(k4)
        + v4.render()));
    assert(render_members(members, 5) == render_members(members, 4) + seq![','] + (label(k5)
        + v5.render()));
    assert(Json::Object(members).render() == seq!['{'] + render_members(members, 5) + seq!['}']);
    assert(Json::Object(members).render() =~= seq!['{'] + label(k1) + v1.render() + seq![',']
        + label(k2) + v2.render() + seq![','] + label(k3) + v3.render() + seq![','] + label(k4)
        + v4.render() + seq![','] + label(k5) + v5.render() + seq!['}']);
}

/// The text of a response assembled side by side is the text of the
/// envelope of its fragments.
pub proof fn lemma_parallel_response_text(chunks: Seq<Json>, target_size: nat, actual_size: nat)
    ensures
        parallel_response_text(chunks, target_size, actual_size) == envelope(
            chunks,
            parallel_metadata(target_size, chunks.len(), actual_size),
        ).render(),
{
    let metadata = parallel_metadata(target_size, chunks.len(), actual_size);
    lemma_envelope_open();
    lemma_parallel_record_open();
    lemma_labels();
    lemma_render_envelope(chunks, metadata);
    lemma_render_four(
        "generated_by"@,
        Json::Text(Producer::Parallel.name()),
        "target_size"@,
        Json::Number(decimal(target_size)),
        "chunk_count"@,
        Json::Number(decimal(chunks.len())),
        "actual_size"@,
        Json::Number(decimal(actual_size)),
    );
    lemma_regroup_four(
        seq!['{'],
        label(chunks_key()),
        seq!['['],
        chunks_text(chunks),
        seq![']', ','],
        label(metadata_key()),
        label("generated_by"@),
        quoted(Producer::Parallel.name()),
        seq![','],
        label("target_size"@),
        decimal(target_size),
        label("chunk_count"@),
        decimal(chunks.len()),
        label("actual_size"@),
        decimal(actual_size),
        seq!['}'],
    );
}

/// The text of a streamed response is the text of the envelope of its
/// fragments.
pub proof fn lemma_streaming_response_text(chunks: Seq<Json>, target_size: nat)
    ensures
        streaming_response_text(chunks, target_size) == envelope(
            chunks,
            streaming_metadata(target_size, chunks.len()),
        ).render(),
{
    let metadata = streaming_metadata(target_size, chunks.len());
    lemma_envelope_open();
    lemma_streaming_record();
    lemma_labels();
    lemma_render_envelope(chunks, metadata);
    lemma_render_five(
        "generated_by"@,
        Json::Text(Producer::Streaming.name()),
        "target_size"@,
        Json::Number(decimal(target_size)),
        "actual_size"@,
        Json::Number(decimal(target_size)),
        "chunk_count"@,
        Json::Number(decimal(chunks.len())),
        "streaming"@,
        Json::Boolean(true),
    );
    lemma_regroup_five(
        seq!['{'],
        label(chunks_key()),
        seq!['['],
        chunks_text(chunks),
        seq![']', ','],
        label(metadata_key()),
        label("generated_by"@),
        quoted(Producer::Streaming.name()),
        seq![','],
        label("target_size"@),
        decimal(target_size),
        label("actual_size"@),
        decimal(target_size),
        label("chunk_count"@),
        decimal(chunks.len()),
        label("streaming"@),
        Json::Boolean(true).render(),
        seq!['}'],
    );
}

/// The keys and names of an envelope may stand between quotes as they are.
proof fn lemma_names_are_string_bodies()
    ensures
        is_string_body(chunks_key()),
        is_string_body(metadata_key()),
        is_string_body("generated_by"@),
        is_string_body("target_size"@),
        is_string_body("actual_size"@),
        is_string_body("chunk_count"@),
        is_string_body("streaming"@),
        is_string_body(Producer::ChunkPool.name()),
        is_string_body(Producer::Parallel.name()),
        is_string_body(Producer::Streaming.name()),
{
    reveal_strlit("garbled_chunks");
    reveal_strlit("metadata");
    reveal_strlit("generated_by");
    reveal_strlit("target_size");
    reveal_strlit("actual_size");
    reveal_strlit("chunk_count");
    reveal_strlit("streaming");
    reveal_strlit("chunk_pool");
    reveal_strlit("parallel");
    lemma_plain_is_string_body(chunks_key());
    lemma_plain_is_string_body(metadata_key());
    lemma_plain_is_string_body("generated_by"@);
    lemma_plain_is_string_body("target_size"@);
    lemma_plain_is_string_body("actual_size"@);
    lemma_plain_is_string_body("chunk_count"@);
    lemma_plain_is_string_body("streaming"@);
    lemma_plain_is_string_body("chunk_pool"@);
    lemma_plain_is_string_body("parallel"@);
}

/// An envelope of well-formed fragments and a well-formed record is well
/// formed.
proof fn lemma_envelope_of_well_formed(chunks: Seq<Json>, metadata: Json)
    requires
        all_well_formed(chunks),
        metadata.well_formed(),
        metadata is Object,
    ensures
        envelope(chunks, metadata).well_formed(),
        is_envelope(envelope(chunks, metadata)),
{
    lemma_names_are_string_bodies();
    assert(Json::Array(chunks).well_formed());
    let members = envelope(chunks, metadata)->Object_0;
    assert forall|i: int| 0 <= i < members.len() implies is_string_body(
        (#[trigger] members[i]).0,
    ) && members[i].1.well_formed() by {
        if i == 0 {
        } else {
            assert(i == 1);
        }
    }
}

/// An envelope of well-formed fragments with any of the three records is a
/// well-formed document, and an envelope.
pub proof fn lemma_envelope_well_formed(
    chunks: Seq<Json>,
    target_size: nat,
    actual_size: nat,
    chunk_count: nat,
)
    requires
        all_well_formed(chunks),
    ensures
        envelope(chunks, pool_metadata(target_size, actual_size, chunk_count)).well_formed(),
        envelope(chunks, parallel_metadata(target_size, chunk_count, actual_size)).well_formed(),
        envelope(chunks, streaming_metadata(target_size, chunk_count)).well_formed(),
        is_envelope(envelope(chunks, pool_metadata(target_size, actual_size, chunk_count))),
        is_envelope(envelope(chunks, parallel_metadata(target_size, chunk_count, actual_size))),
        is_envelope(envelope(chunks, streaming_metadata(target_size, chunk_count))),
{
    lemma_names_are_string_bodies();
    lemma_decimal_is_number(target_size);
    lemma_decimal_is_number(actual_size);
    lemma_decimal_is_number(chunk_count);
    assert(Json::Array(chunks).well_formed());
    let pool = pool_metadata(target_size, actual_size, chunk_count);
    let parallel = parallel_metadata(target_size, chunk_count, actual_size);
    let streaming = streaming_metadata(target_size, chunk_count);
    assert(pool.well_formed()) by {
        let members = pool->Object_0;
        assert forall|i: int| 0 <= i < members.len() implies is_string_body(
            (#[trigger] members[i]).0,
        ) && members[i].1.well_formed() by {
            if i == 0 {
            } else if i == 1 {
            } else if i == 2 {
            } else {
                assert(i == 3);
            }
        }
    }
    assert(parallel.well_formed()) by {
        let members = parallel->Object_0;
        assert forall|i: int| 0 <= i < members.len() implies is_string_body(
            (#[trigger] members[i]).0,
        ) && members[i].1.well_formed() by {
            if i == 0 {
            } else if i == 1 {
            } else if i == 2 {
            } else {
                assert(i == 3);
            }
        }
    }
    assert(streaming.well_formed()) by {
        let members = streaming->Object_0;
        assert forall|i: int| 0 <= i < members.len() implies is_string_body(
            (#[trigger] members[i]).0,
        ) && members[i].1.well_formed() by {
            if i == 0 {
            } else if i == 1 {
            } else if i == 2 {
            } else if i == 3 {
            } else {
                assert(i == 4);
            }
        }
    }
    lemma_envelope_of_well_formed(chunks, pool);
    lemma_envelope_of_well_formed(chunks, parallel);
    lemma_envelope_of_well_formed(chunks, streaming);
}

/// The first `n` of `fragments`, separated by commas.
pub open spec fn joined(fragments: Seq<Seq<char>>, n: nat) -> Seq<char>
    decreases n,
{
    if n == 0 || n > fragments.len() {
        Seq::empty()
    } else if n == 1 {
        fragments[0]
    } else {
        joined(fragments, (n - 1) as nat) + seq![','] + fragments[n - 1]
    }
}

/// Every text of `fragments` is the compact text of a JSON document.
pub open spec fn all_json_texts(fragments: Seq<Seq<char>>) -> bool {
    forall|i: int| 0 <= i < fragments.len() ==> is_json_text(#[trigger] fragments[i])
}

/// For each text, a document that it is the text of.
pub open spec fn documents_of(fragments: Seq<Seq<char>>) -> Seq<Json> {
    Seq::new(fragments.len(), |i: int| document_of(fragments[i]))
}

/// Fragments that are JSON texts, joined by commas, are the text of their
/// documents as the items of an array.
pub proof fn lemma_joined_is_chunks_text(fragments: Seq<Seq<char>>, n: nat)
    requires
        all_json_texts(fragments),
        n <= fragments.len(),
    ensures
        all_well_formed(documents_of(fragments)),
        render_items(documents_of(fragments), n) == joined(fragments, n),
    decreases n,
{
    let docs = documents_of(fragments);
    assert forall|i: int| 0 <= i < docs.len() implies (#[trigger] docs[i]).well_formed()
        && docs[i].render() == fragments[i] by {
        assert(is_json_text(fragments[i]));
    }
    if n > 1 {
        lemma_joined_is_chunks_text(fragments, (n - 1) as nat);
    }
}

/// What the first `n` fragments join to does not depend on later ones.
pub proof fn lemma_joined_prefix(a: Seq<Seq<char>>, b: Seq<Seq<char>>, n: nat)
    requires
        n <= a.len(),
        n <= b.len(),
        forall|i: int| 0 <= i < n ==> a[i] == b[i],
    ensures
        joined(a, n) == joined(b, n),
    decreases n,
{
    if n > 1 {
        lemma_joined_prefix(a, b, (n - 1) as nat);
    }
}

/// An envelope in the making: the opening and the fragments appended so
/// far.
pub struct EnvelopeWriter {
    text: String,
    count: usize,
    fragments: Ghost<Seq<Seq<char>>>,
}

impl EnvelopeWriter {
    /// The fragments appended so far.
    pub closed spec fn fragments(&self) -> Seq<Seq<char>> {
        self.fragments@
    }

    /// The text written so far.
    pub closed spec fn written(&self) -> Seq<char> {
        self.text@
    }

    /// Every fragment is a JSON text, and the text written is the opening
    /// followed by the fragments, separated by commas.
    pub closed spec fn well_formed(&self) -> bool {
        &&& all_json_texts(self.fragments@)
        &&& self.text@ == envelope_open() + joined(self.fragments@, self.fragments@.len())
        &&& self.count == self.fragments@.len()
    }

    /// What a well-formed writer has written.
    pub proof fn lemma_written(&self)
        requires
            self.well_formed(),
        ensures
            all_json_texts(self.fragments()),
            self.written() == envelope_open() + joined(self.fragments(), self.fragments().len()),
    {
    }

    /// A writer that holds the opening and no fragment.
    pub fn new() -> (writer: Self)
        ensures
            writer.well_formed(),
            writer.fragments() == Seq::<Seq<char>>::empty(),
    {
        let writer = EnvelopeWriter {
            text: String::from_str("{\"garbled_chunks\":["),
            count: 0,
            fragments: Ghost(Seq::empty()),
        };
        assert(writer.text@ =~= envelope_open() + joined(Seq::empty(), 0));
        writer
    }

    /// Number of fragments appended so far.
    pub fn chunk_count(&self) -> (count: usize)
        requires
            self.well_formed(),
        ensures
            count == self.fragments().len(),
    {
        self.count
    }

    /// Number of bytes written so far.
    pub fn byte_size(&self) -> (size: usize)
        requires
            self.well_formed(),
        ensures
            size == byte_len(self.written()),
    {
        byte_length(self.text.as_str())
    }

    /// Appends `fragment`, after a comma unless it is the first.
    pub fn push(&mut self, fragment: &str)
        requires
            old(self).well_formed(),
            is_json_text(fragment@),
            old(self).fragments().len() < usize::MAX,
        ensures
            final(self).well_formed(),
            final(self).fragments() == old(self).fragments().push(fragment@),
    {
        let ghost before = self.fragments@;
        let ghost after = before.push(fragment@);
        if self.count > 0 {
            self.text.append(",");
        }
        self.text.append(fragment);
        self.count = self.count + 1;
        self.fragments = Ghost(after);
        proof {
            reveal_strlit(",");
            assert(","@ =~= seq![',']);
            lemma_joined_prefix(after, before, before.len());
            assert(self.text@ =~= envelope_open() + joined(after, after.len()));
        }
    }

    /// Closes the envelope with the record of a response assembled from
    /// the pool. The size recorded is that of the text before the record.
    pub fn finish_pool(self, target_size: usize) -> (text: String)
        requires
            self.well_formed(),
        ensures
            text@ == pool_response_text(
                documents_of(self.fragments()),
                target_size as nat,
                byte_len(self.written()),
            ),
    {
        let ghost docs = documents_of(self.fragments@);
        proof {
            lemma_joined_is_chunks_text(self.fragments@, self.fragments@.len());
        }
        let actual_size: usize = byte_length(self.text.as_str());
        let count: usize = self.count;
        let mut text = self.text;
        text.append("],\"metadata\":{\"generated_by\":\"chunk_pool\",\"target_size\":");
        append_decimal(&mut text, target_size as u128);
        text.append(",\"actual_size\":");
        append_decimal(&mut text, actual_size as u128);
        text.append(",\"chunk_count\":");
        append_decimal(&mut text, count as u128);
        text.append("}}");
        text
    }

    /// The length that a text has in the end, if `base` bytes are followed
    /// by that length in decimal notation and `rest` more bytes.
    fn closed_length(base: usize, rest: usize) -> (total: u128)
        requires
            rest <= 16,
        ensures
            total == base + decimal(total as nat).len() + rest,
    {
        let fixed: u128 = base as u128 + rest as u128;
        let mut digits: usize = 1;
        proof {
            crate::decimal::lemma_decimal_len_bound((fixed + 39) as nat);
        }
        while decimal_width(fixed + digits as u128) != digits
            invariant
                1 <= digits <= 39,
                fixed == base + rest,
                rest <= 16,
                digits <= decimal((fixed + digits) as nat).len(),
                decimal((fixed + 39) as nat).len() <= 20,
            decreases 39 - digits,
        {
            proof {
                lemma_decimal_len_monotonic((fixed + digits) as nat, (fixed + digits + 1) as nat);
                lemma_decimal_len_monotonic((fixed + digits + 1) as nat, (fixed + 39) as nat);
            }
            digits = digits + 1;
        }
        fixed + digits as u128
    }

    /// Closes the envelope with the record of a response assembled side by
    /// side. The size recorded is that of the whole text, the record
    /// included.
    pub fn finish_parallel(self, target_size: usize) -> (text: String)
        requires
            self.well_formed(),
        ensures
            text@ == parallel_response_text(
                documents_of(self.fragments()),
                target_size as nat,
                byte_len(text@),
            ),
    {
        let ghost docs = documents_of(self.fragments@);
        proof {
            lemma_joined_is_chunks_text(self.fragments@, self.fragments@.len());
        }
        let count: usize = self.count;
        let mut text = self.text;
        text.append("],\"metadata\":{\"generated_by\":\"parallel\",\"target_size\":");
        append_decimal(&mut text, target_size as u128);
        text.append(",\"chunk_count\":");
        append_decimal(&mut text, count as u128);
        text.append(",\"actual_size\":");
        let base: usize = byte_length(text.as_str());
        let total: u128 = Self::closed_length(base, 2);
        let ghost head = text@;
        append_decimal(&mut text, total);
        text.append("}}");
        proof {
            reveal_strlit("}}");
            lemma_decimal_byte_len(total as nat);
            lemma_byte_len_concat(head, decimal(total as nat));
            lemma_byte_len_concat(head + decimal(total as nat), "}}"@);
            assert(vstd::utf8::is_ascii_chars("}}"@));
            lemma_byte_len_ascii("}}"@);
            assert(byte_len(text@) == total);
        }
        text
    }
}

/// A response assembled from the pool out of well-formed fragments is
/// the text of a well-formed envelope of exactly these fragments, whose
/// record counts them.
pub proof fn lemma_pool_response_is_envelope(chunks: Seq<Json>, target_size: nat, actual_size: nat)
    requires
        all_well_formed(chunks),
    ensures
        ({
            let document = envelope(chunks, pool_metadata(target_size, actual_size, chunks.len()));
            &&& pool_response_text(chunks, target_size, actual_size) == document.render()
            &&& document.well_formed()
            &&& is_envelope(document)
            &&& chunks_of(document) == chunks
            &&& metadata_of(document) == pool_metadata(
                target_size,
                actual_size,
                chunks_of(document).len(),
            )
        }),
        is_json_text(pool_response_text(chunks, target_size, actual_size)),
{
    let document = envelope(chunks, pool_metadata(target_size, actual_size, chunks.len()));
    lemma_pool_response_text(chunks, target_size, actual_size);
    lemma_envelope_well_formed(chunks, target_size, actual_size, chunks.len());
    assert(document.well_formed() && document.render() == pool_response_text(
        chunks,
        target_size,
        actual_size,
    ));
}

/// A response assembled side by side out of well-formed fragments is the
/// text of a well-formed envelope of exactly these fragments, whose record
/// counts them.
pub proof fn lemma_parallel_response_is_envelope(
    chunks: Seq<Json>,
    target_size: nat,
    actual_size: nat,
)
    requires
        all_well_formed(chunks),
    ensures
        ({
            let document = envelope(
                chunks,
                parallel_metadata(target_size, chunks.len(), actual_size),
            );
            &&& parallel_response_text(chunks, target_size, actual_size) == document.render()
            &&& document.well_formed()
            &&& is_envelope(document)
            &&& chunks_of(document) == chunks
            &&& metadata_of(document) == parallel_metadata(
                target_size,
                chunks_of(document).len(),
                actual_size,
            )
        }),
        is_json_text(parallel_response_text(chunks, target_size, actual_size)),
{
    let document = envelope(chunks, parallel_metadata(target_size, chunks.len(), actual_size));
    lemma_parallel_response_text(chunks, target_size, actual_size);
    lemma_envelope_well_formed(chunks, target_size, actual_size, chunks.len());
    assert(document.well_formed() && document.render() == parallel_response_text(
        chunks,
        target_size,
        actual_size,
    ));
}

/// A streamed response of well-formed fragments is the text of a
/// well-formed envelope of exactly these fragments, whose record counts
/// them and says that the response was streamed.
pub proof fn lemma_streaming_response_is_envelope(chunks: Seq<Json>, target_size: nat)
    requires
        all_well_formed(chunks),
    ensures
        ({
            let document = envelope(chunks, streaming_metadata(target_size, chunks.len()));
            &&& streaming_response_text(chunks, target_size) == document.render()
            &&& document.well_formed()
            &&& is_envelope(document)
            &&& chunks_of(document) == chunks
            &&& metadata_of(document) == streaming_metadata(
                target_size,
                chunks_of(document).len(),
            )
        }),
        is_json_text(streaming_response_text(chunks, target_size)),
{
    let document = envelope(chunks, streaming_metadata(target_size, chunks.len()));
    lemma_streaming_response_text(chunks, target_size);
    lemma_envelope_well_formed(chunks, target_size, target_size, chunks.len());
    assert(document.well_formed() && document.render() == streaming_response_text(
        chunks,
        target_size,
    ));
}

/// The record that `producer` writes for `chunk_count` fragments.
pub open spec fn record(
    producer: Producer,
    target_size: nat,
    actual_size: nat,
    chunk_count: nat,
) -> Json {
    match producer {
        Producer::ChunkPool => pool_metadata(target_size, actual_size, chunk_count),
        Producer::Parallel => parallel_metadata(target_size, chunk_count, actual_size),
        Producer::Streaming => streaming_metadata(target_size, chunk_count),
    }
}

/// `text` is an enveloped response to a request for `target_size` bytes:
/// the compact text of a well-formed document that is an envelope, whose
/// record names the size asked for and counts the fragments that the
/// envelope holds.
pub open spec fn is_envelope_text(text: Seq<char>, target_size: nat) -> bool {
    exists|document: Json, producer: Producer, actual_size: nat|
        {
            &&& #[trigger] document.well_formed()
            &&& is_envelope(document)
            &&& document.render() == text
            &&& metadata_of(document) == #[trigger] record(
                producer,
                target_size,
                actual_size,
                chunks_of(document).len(),
            )
        }
}

/// An enveloped response is a JSON text.
pub proof fn lemma_envelope_text_is_json(text: Seq<char>, target_size: nat)
    requires
        is_envelope_text(text, target_size),
    ensures
        is_json_text(text),
{
    let (document, producer, actual_size) = choose|
        document: Json,
        producer: Producer,
        actual_size: nat,
    |
        {
            &&& #[trigger] document.well_formed()
            &&& is_envelope(document)
            &&& document.render() == text
            &&& metadata_of(document) == #[trigger] record(
                producer,
                target_size,
                actual_size,
                chunks_of(document).len(),
            )
        };
    assert(document.well_formed() && document.render() == text);
}

/// The three kinds of response, made of fragments that are JSON texts,
/// are enveloped responses.
pub proof fn lemma_responses_are_envelope_texts(
    fragments: Seq<Seq<char>>,
    target_size: nat,
    actual_size: nat,
)
    requires
        all_json_texts(fragments),
    ensures
        is_envelope_text(
            pool_response_text(documents_of(fragments), target_size, actual_size),
            target_size,
        ),
        is_envelope_text(
            parallel_response_text(documents_of(fragments), target_size, actual_size),
            target_size,
        ),
        is_envelope_text(streaming_response_text(documents_of(fragments), target_size), target_size),
{
    let chunks = documents_of(fragments);
    lemma_joined_is_chunks_text(fragments, fragments.len());
    lemma_pool_response_is_envelope(chunks, target_size, actual_size);
    lemma_parallel_response_is_envelope(chunks, target_size, actual_size);
    lemma_streaming_response_is_envelope(chunks, target_size);
    let pool = envelope(chunks, pool_metadata(target_size, actual_size, chunks.len()));
    let parallel = envelope(chunks, parallel_metadata(target_size, chunks.len(), actual_size));
    let streaming = envelope(chunks, streaming_metadata(target_size, chunks.len()));
    assert(metadata_of(pool) == record(
        Producer::ChunkPool,
        target_size,
        actual_size,
        chunks_of(pool).len(),
    ));
    assert(metadata_of(parallel) == record(
        Producer::Parallel,
        target_size,
        actual_size,
        chunks_of(parallel).len(),
    ));
    assert(metadata_of(streaming) == record(
        Producer::Streaming,
        target_size,
        actual_size,
        chunks_of(streaming).len(),
    ));
}

} // verus!
