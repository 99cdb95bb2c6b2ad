//! Fresh content as the pool and the responses take it: written out as
//! text, with the sentinel standing in where a value cannot be written.

use rayon::iter::{IntoParallelIterator, ParallelIterator};
use vstd::prelude::*;
use vstd::string::StringExecFns;
use crate::generator::{payload_limit, RandomDataGenerator, MAX_GROWTH_STEPS};
use crate::json::{
    is_json_object_text, is_json_text, lemma_nonempty_object_text_is_object_text,
    lemma_object_text_is_json_text, lemma_plain_is_string_body, member_text, render_members, Json,
};
use crate::json_value::to_json_text;
use crate::text::{byte_len, lemma_byte_len_ascii};

verus! {

/// The document that stands in for a value that could not be written out.
pub open spec fn sentinel_document() -> Json {
    Json::Object(seq![("error"@, Json::Text("generation_failed"@))])
}

/// The text of the sentinel.
pub open spec fn sentinel_chars() -> Seq<char> {
    "{\"error\":\"generation_failed\"}"@
}

/// The sentinel is the text of its document, a well-formed object, and has
/// twenty-nine bytes.
pub proof fn lemma_sentinel()
    ensures
        sentinel_document().well_formed(),
        sentinel_document().render() == sentinel_chars(),
        is_json_object_text(sentinel_chars()),
        is_json_text(sentinel_chars()),
        byte_len(sentinel_chars()) == 29,
{
    let doc = sentinel_document();
    reveal_strlit("error");
    reveal_strlit("generation_failed");
    reveal_strlit("{\"error\":\"generation_failed\"}");
    lemma_plain_is_string_body("error"@);
    lemma_plain_is_string_body("generation_failed"@);
    let members = doc->Object_0;
    assert(members.len() == 1);
    assert(members[0].1.well_formed());
    assert(render_members(members, 1) == member_text(members[0].0, members[0].1.render()));
    assert(doc.render() == seq!['{'] + render_members(members, 1) + seq!['}']);
    assert(doc.render() =~= sentinel_chars());
    assert(doc.well_formed() && doc is Object && doc.render() == sentinel_chars());
    lemma_object_text_is_json_text(sentinel_chars());
    assert(vstd::utf8::is_ascii_chars(sentinel_chars()));
    lemma_byte_len_ascii(sentinel_chars());
}

/// The sentinel as text.
pub fn sentinel() -> (text: &'static str)
    ensures
        text@ == sentinel_chars(),
{
    "{\"error\":\"generation_failed\"}"
}

/// `text` where a value was written out, and the sentinel where it was
/// not.
pub fn written_or_sentinel(text: Option<String>) -> (r: String)
    ensures
        r@ == match text {
            Some(t) => t@,
            None => sentinel_chars(),
        },
{
    match text {
        Some(t) => t,
        None => String::from_str(sentinel()),
    }
}

/// A fresh random fragment aimed at `target_size` bytes, written out; the
/// sentinel where it cannot be written.
pub fn fresh_fragment(target_size: usize) -> (fragment: String)
    ensures
        is_json_text(fragment@),
{
    let mut generator = RandomDataGenerator::new();
    let element = generator.generate_array_element(target_size);
    proof {
        lemma_sentinel();
    }
    written_or_sentinel(to_json_text(&element))
}

/// A fresh random payload from `generator`, written out; the sentinel
/// where it cannot be written. A payload that was written is an object
/// that has grown to `target_size` bytes, unless it was extended
/// [`MAX_GROWTH_STEPS`] times before, and that has no more bytes than
/// [`payload_limit`] allows.
pub fn direct_payload(generator: &mut RandomDataGenerator, target_size: usize) -> (payload: String)
    ensures
        is_json_object_text(payload@),
        byte_len(payload@) <= payload_limit(target_size as nat),
        final(generator).growth_steps() <= MAX_GROWTH_STEPS,
        byte_len(payload@) >= target_size || final(generator).growth_steps() == MAX_GROWTH_STEPS
            || payload@ == sentinel_chars(),
{
    let value = generator.generate_payload(target_size);
    proof {
        lemma_sentinel();
        lemma_nonempty_object_text_is_object_text(crate::json_value::value_text(value));
    }
    written_or_sentinel(to_json_text(&value))
}

/// Rayon's `into_par_iter`, `map` and `collect` over `sizes`: one fresh
/// fragment for each size, made by [`fresh_fragment`] on the worker
/// threads and collected in the order of the sizes.
#[verifier::external_body]
pub(crate) fn generate_parallel(sizes: Vec<usize>) -> (fragments: Vec<String>)
    ensures
        fragments.len() == sizes.len(),
        forall|i: int| 0 <= i < fragments.len() ==> is_json_text((#[trigger] fragments[i])@),
{
    sizes.into_par_iter().map(|size| fresh_fragment(size)).collect()
}

/// `missing` fresh fragments aimed at `target_size` bytes each, made side
/// by side.
pub fn make_fragments(target_size: usize, missing: usize) -> (fragments: Vec<String>)
    ensures
        fragments.len() == missing,
        forall|i: int| 0 <= i < fragments.len() ==> is_json_text((#[trigger] fragments[i])@),
{
    let mut sizes: Vec<usize> = Vec::new();
    while sizes.len() < missing
        invariant
            sizes.len() <= missing,
        decreases missing - sizes.len(),
    {
        sizes.push(target_size);
    }
    generate_parallel(sizes)
}

} // verus!
