//! Random, schema-free JSON content.
//!
//! Values are built by chance, so their contracts say what holds of every
//! outcome: each is a JSON value, and a payload is a JSON object that has
//! grown to its target and not beyond three times that.

use vstd::prelude::*;
use vstd::string::{StrSliceExecFns, StringExecFns};
use crate::decimal::{append_decimal, decimal, lemma_decimal_shape};
use crate::json::{
    is_exponent_part, is_fraction_part, is_integer_part, is_json_object_text, is_json_text,
    is_nonempty_object_text, is_number_literal, is_plain_char, is_plain_text,
    lemma_nonempty_object_text_is_object_text, lemma_object_text_is_json_text,
    lemma_plain_is_string_body, member_text, number_text, render_members,
    single_member_text, Json,
};
use crate::json_value::{
    clone_value, empty_object, gen_unit_interval_value, object_insert, signed_decimal,
    to_json_text, value_array, value_bool, value_from_i64, value_null, value_string, value_text,
};
use crate::random::{
    gen_below, gen_i64, gen_ratio, gen_u32, gen_u64, is_uuid_text, new_uuid_text, now_text,
    thread_rng,
};
use crate::text::{byte_len, byte_length, lemma_byte_len_ascii, push_char};

verus! {

/// How many arrays and objects may be nested inside a generated value.
/// Below this depth an array is left empty and an object gives way to
/// `null`, so that every value can be read back by a parser of bounded
/// depth.
pub const NESTING_LIMIT: usize = 48;

/// How often a payload is extended at most while it grows towards its
/// target.
pub const MAX_GROWTH_STEPS: usize = 1000;

/// However small the target, a payload may have this many bytes.
pub const PAYLOAD_FLOOR: usize = 64;

/// The largest number of bytes that a payload aimed at `target` may have:
/// three times the target, and [`PAYLOAD_FLOOR`] where that is less.
pub open spec fn payload_limit(target: nat) -> nat {
    if 3 * target < PAYLOAD_FLOOR {
        PAYLOAD_FLOOR as nat
    } else {
        3 * target
    }
}

/// The largest number of bytes that a payload aimed at `target_size` may
/// have.
pub fn payload_limit_of(target_size: usize) -> (limit: u128)
    ensures
        limit == payload_limit(target_size as nat),
{
    let threefold: u128 = 3 * (target_size as u128);
    if threefold < PAYLOAD_FLOOR as u128 {
        PAYLOAD_FLOOR as u128
    } else {
        threefold
    }
}

/// Whether a payload of `written` bytes that has been extended `steps`
/// times grows no further: it has reached `target_size`, or the steps are
/// used up.
pub fn growth_ends(written: usize, target_size: usize, steps: usize) -> (ends: bool)
    ensures
        ends == (written >= target_size || steps >= MAX_GROWTH_STEPS),
{
    written >= target_size || steps >= MAX_GROWTH_STEPS
}

/// Hexadecimal digits need no escape and are ASCII.
pub proof fn lemma_hex_is_plain_ascii(s: Seq<char>)
    requires
        drawn_from(s, hex_alphabet()),
    ensures
        is_plain_text(s),
        vstd::utf8::is_ascii_chars(s),
{
    reveal_strlit("0123456789abcdef");
    let alphabet = hex_alphabet();
    assert forall|i: int| 0 <= i < s.len() implies is_plain_char(#[trigger] s[i]) && '\0' <= s[i]
        <= '\u{7f}' by {
        assert(alphabet.contains(s[i]));
        let j = choose|j: int| 0 <= j < alphabet.len() && alphabet[j] == s[i];
        if j == 0 {
        } else if j == 1 {
        } else if j == 2 {
        } else if j == 3 {
        } else if j == 4 {
        } else if j == 5 {
        } else if j == 6 {
        } else if j == 7 {
        } else if j == 8 {
        } else if j == 9 {
        } else if j == 10 {
        } else if j == 11 {
        } else if j == 12 {
        } else if j == 13 {
        } else if j == 14 {
        } else {
            assert(j == 15);
        }
    }
}

/// An object whose one member has hexadecimal digits for its key and
/// `null` for its value is written in nine bytes and those of the key.
pub proof fn lemma_null_member_object(key: Seq<char>)
    requires
        is_hex(key),
    ensures
        is_nonempty_object_text(single_member_text(key, Json::Null.render())),
        byte_len(single_member_text(key, Json::Null.render())) == key.len() + 9,
{
    lemma_hex_is_plain_ascii(key);
    lemma_plain_is_string_body(key);
    let text = single_member_text(key, Json::Null.render());
    let members = seq![(key, Json::Null)];
    let doc = Json::Object(members);
    assert(members.len() == 1);
    assert(render_members(members, 1) == member_text(members[0].0, members[0].1.render()));
    assert(doc.render() == seq!['{'] + render_members(members, 1) + seq!['}']);
    assert(doc.well_formed()) by {
        assert forall|i: int| 0 <= i < members.len() implies crate::json::is_string_body(
            (#[trigger] members[i]).0,
        ) && members[i].1.well_formed() by {
            assert(i == 0);
        }
    }
    assert(doc.render() =~= text);
    assert(doc.well_formed() && doc is Object && doc->Object_0.len() >= 1 && doc.render()
        == text);
    assert(text.len() == key.len() + 9);
    assert(vstd::utf8::is_ascii_chars(text)) by {
        assert forall|i: int| 0 <= i < text.len() implies '\0' <= #[trigger] text[i]
            <= '\u{7f}' by {
            if 2 <= i < 2 + key.len() {
                assert(text[i] == key[i - 2]);
            }
        }
    }
    lemma_byte_len_ascii(text);
}

/// Letters, digits, underscore and hyphen.
pub open spec fn word_alphabet() -> Seq<char> {
    "abcdefghijklmnopqrstuvwxyzABCDEFGHIJKLMNOPQRSTUVWXYZ0123456789_-"@
}

/// Letters, digits and punctuation.
pub open spec fn garbled_alphabet() -> Seq<char> {
    "abcdefghijklmnopqrstuvwxyzABCDEFGHIJKLMNOPQRSTUVWXYZ0123456789!@#$%^&*()_+-=[]{}|;:,.<>?~`"@
}

/// Lower-case hexadecimal digits.
pub open spec fn hex_alphabet() -> Seq<char> {
    "0123456789abcdef"@
}

/// Letters, digits, plus, slash and the equals sign.
pub open spec fn base64_alphabet() -> Seq<char> {
    "ABCDEFGHIJKLMNOPQRSTUVWXYZabcdefghijklmnopqrstuvwxyz0123456789+/="@
}

/// Every character of `s` is one of `alphabet`.
pub open spec fn drawn_from(s: Seq<char>, alphabet: Seq<char>) -> bool {
    forall|i: int| 0 <= i < s.len() ==> alphabet.contains(#[trigger] s[i])
}

/// `s` with every hyphen turned into an underscore.
pub open spec fn hyphens_to_underscores(s: Seq<char>) -> Seq<char> {
    Seq::new(
        s.len(),
        |i: int|
            if s[i] == '-' {
                '_'
            } else {
                s[i]
            },
    )
}

/// `s` is a word of `length` letters, digits, underscores and hyphens.
pub open spec fn is_word(s: Seq<char>, length: nat) -> bool {
    s.len() == length && drawn_from(s, word_alphabet())
}

/// `s` is three to thirty-nine letters, digits and punctuation marks.
pub open spec fn is_garbled(s: Seq<char>) -> bool {
    3 <= s.len() < 40 && drawn_from(s, garbled_alphabet())
}

/// `s` is eight to thirty-one lower-case hexadecimal digits.
pub open spec fn is_hex(s: Seq<char>) -> bool {
    8 <= s.len() < 32 && drawn_from(s, hex_alphabet())
}

/// What a key is made of, in each of its eight styles.
pub enum KeyShape {
    /// A word of three to nineteen characters.
    Word(Seq<char>),
    /// A garbled string.
    Garbled(Seq<char>),
    /// A word of five characters, an underscore and a number.
    Numbered(Seq<char>, u32),
    /// `field_` and a number.
    Field(u64),
    /// Hexadecimal digits.
    Hex(Seq<char>),
    /// A garbled string, an underscore and a word of three characters.
    Joined(Seq<char>, Seq<char>),
    /// An identifier, with underscores in place of its hyphens.
    Identifier(Seq<char>),
    /// `garbled_` and a word of eight characters.
    Prefixed(Seq<char>),
}

impl KeyShape {
    /// The parts are what the style asks for.
    pub open spec fn well_formed(self) -> bool {
        match self {
            KeyShape::Word(word) => 3 <= word.len() < 20 && drawn_from(word, word_alphabet()),
            KeyShape::Garbled(garbled) => is_garbled(garbled),
            KeyShape::Numbered(word, _) => is_word(word, 5),
            KeyShape::Field(_) => true,
            KeyShape::Hex(hex) => is_hex(hex),
            KeyShape::Joined(garbled, word) => is_garbled(garbled) && is_word(word, 3),
            KeyShape::Identifier(id) => is_uuid_text(id),
            KeyShape::Prefixed(word) => is_word(word, 8),
        }
    }

    /// The key that the parts make.
    pub open spec fn text(self) -> Seq<char> {
        match self {
            KeyShape::Word(word) => word,
            KeyShape::Garbled(garbled) => garbled,
            KeyShape::Numbered(word, number) => word + seq!['_'] + decimal(number as nat),
            KeyShape::Field(number) => "field_"@ + decimal(number as nat),
            KeyShape::Hex(hex) => hex,
            KeyShape::Joined(garbled, word) => garbled + seq!['_'] + word,
            KeyShape::Identifier(id) => hyphens_to_underscores(id),
            KeyShape::Prefixed(word) => "garbled_"@ + word,
        }
    }
}

/// `key` is a key in one of the eight styles.
pub open spec fn is_random_key(key: Seq<char>) -> bool {
    exists|shape: KeyShape| #[trigger] shape.well_formed() && shape.text() == key
}

/// One segment of a massive garbled string: a garbled string, now and
/// then followed by an identifier or by hexadecimal digits, and, unless it
/// is the first, led in by a number.
pub struct Segment {
    pub number: u32,
    pub garbled: Seq<char>,
    pub id: Option<Seq<char>>,
    pub hex: Option<Seq<char>>,
}

impl Segment {
    /// The parts are a garbled string, an identifier and hexadecimal
    /// digits, as far as they are there.
    pub open spec fn well_formed(self) -> bool {
        &&& is_garbled(self.garbled)
        &&& (self.id matches Some(id) ==> is_uuid_text(id))
        &&& (self.hex matches Some(hex) ==> is_hex(hex))
    }

    /// What leads the segment in: nothing for the first, and the number
    /// between underscores for the others.
    pub open spec fn lead(self, first: bool) -> Seq<char> {
        if first {
            Seq::empty()
        } else {
            seq!['_'] + decimal(self.number as nat) + seq!['_']
        }
    }

    /// The identifier as it is written, if there is one.
    pub open spec fn id_text(self) -> Seq<char> {
        match self.id {
            Some(id) => "_UUID_"@ + id + seq!['_'],
            None => Seq::empty(),
        }
    }

    /// The hexadecimal digits as they are written, if there are any.
    pub open spec fn hex_text(self) -> Seq<char> {
        match self.hex {
            Some(hex) => "_HEX_"@ + hex + seq!['_'],
            None => Seq::empty(),
        }
    }

    /// The text of the segment.
    pub open spec fn text(self, first: bool) -> Seq<char> {
        self.lead(first) + self.garbled + self.id_text() + self.hex_text()
    }
}

/// The first `n` of `segments`, one after the other.
pub open spec fn segments_text(segments: Seq<Segment>, n: nat) -> Seq<char>
    decreases n,
{
    if n == 0 || n > segments.len() {
        Seq::empty()
    } else {
        segments_text(segments, (n - 1) as nat) + segments[n - 1].text(n == 1)
    }
}

/// `text` is a massive garbled string: three to fourteen segments.
pub open spec fn is_massive_garbled(text: Seq<char>) -> bool {
    exists|segments: Seq<Segment>|
        {
            &&& 3 <= segments.len() < 15
            &&& forall|i: int|
                0 <= i < segments.len() ==> (#[trigger] segments[i]).well_formed()
            &&& text == #[trigger] segments_text(segments, segments.len())
        }
}

/// What the first `n` segments make does not depend on later ones.
pub proof fn lemma_segments_text_prefix(a: Seq<Segment>, b: Seq<Segment>, n: nat)
    requires
        n <= a.len(),
        n <= b.len(),
        forall|i: int| 0 <= i < n ==> a[i] == b[i],
    ensures
        segments_text(a, n) == segments_text(b, n),
    decreases n,
{
    if n > 0 {
        lemma_segments_text_prefix(a, b, (n - 1) as nat);
    }
}

/// A signed integer in decimal notation is a JSON number.
pub proof fn lemma_signed_decimal_is_json_text(i: int)
    ensures
        is_json_text(signed_decimal(i)),
{
    let e = Seq::<char>::empty();
    let magnitude: nat = if i < 0 {
        (-i) as nat
    } else {
        i as nat
    };
    let d = decimal(magnitude);
    lemma_decimal_shape(magnitude);
    if d.len() > 1 && d[0] == '0' {
        assert(magnitude == 0);
    }
    assert(is_integer_part(d));
    assert(is_fraction_part(e));
    assert(is_exponent_part(e));
    assert(number_text(i < 0, d, e, e) =~= signed_decimal(i));
    assert(is_number_literal(signed_decimal(i)));
    let doc = Json::Number(signed_decimal(i));
    assert(doc.well_formed() && doc.render() == signed_decimal(i));
}

/// Generator of random JSON content, drawing from the thread's random
/// number generator.
pub struct RandomDataGenerator {
    rng: rand::rngs::ThreadRng,
    growth_steps: usize,
}

impl RandomDataGenerator {
    /// How often the payload made last was extended, or was to be.
    pub closed spec fn growth_steps(&self) -> nat {
        self.growth_steps as nat
    }

    /// A generator on the random number generator of the calling thread.
    pub fn new() -> (generator: Self)
        ensures
            generator.growth_steps() == 0,
    {
        Self { rng: thread_rng(), growth_steps: 0 }
    }

    /// How often the payload made last was extended, or was to be.
    pub fn last_growth_steps(&self) -> (steps: usize)
        ensures
            steps == self.growth_steps(),
    {
        self.growth_steps
    }

    /// A random object with at least one member, grown one member at a
    /// time until its text has at least `target_size` bytes, and never
    /// beyond [`payload_limit`].
    ///
    /// The payload starts from a random object, or, where that is larger
    /// than the limit or cannot be written out, from an object of one
    /// small member. A step then draws a member and adds it, unless the
    /// payload would grow beyond the limit with it or could not be written
    /// out. Growth ends where the target is reached, and after
    /// [`MAX_GROWTH_STEPS`] steps.
    pub fn generate_payload(&mut self, target_size: usize) -> (payload: serde_json::Value)
        ensures
            is_nonempty_object_text(value_text(payload)),
            final(self).growth_steps() <= MAX_GROWTH_STEPS,
            byte_len(value_text(payload)) >= target_size || final(self).growth_steps()
                == MAX_GROWTH_STEPS,
            byte_len(value_text(payload)) <= payload_limit(target_size as nat),
    {
        let limit = payload_limit_of(target_size);
        let start = self.first_object(limit);
        let mut payload = start.0;
        let mut written: usize = start.1;
        let mut steps: usize = 0;
        while !growth_ends(written, target_size, steps)
            invariant
                is_nonempty_object_text(value_text(payload)),
                written == byte_len(value_text(payload)),
                written <= limit,
                limit == payload_limit(target_size as nat),
                steps <= MAX_GROWTH_STEPS,
            decreases MAX_GROWTH_STEPS - steps,
        {
            let kind: usize = gen_below(&mut self.rng, 0, 4);
            let key = self.generate_random_key();
            let value = if kind == 0 {
                let depth: usize = gen_below(&mut self.rng, 1, 6);
                self.generate_random_value(depth, NESTING_LIMIT)
            } else if kind == 1 {
                let length: usize = gen_below(&mut self.rng, 1, 20);
                self.generate_random_array(length, NESTING_LIMIT)
            } else if kind == 2 {
                let depth: usize = gen_below(&mut self.rng, 1, 5);
                let object = self.generate_random_object(depth, NESTING_LIMIT);
                object
            } else {
                self.generate_garbled_data(NESTING_LIMIT)
            };
            let mut extended = clone_value(&payload);
            proof {
                lemma_nonempty_object_text_is_object_text(value_text(payload));
            }
            object_insert(&mut extended, key, value);
            match to_json_text(&extended) {
                Some(text) => {
                    let size = byte_length(text.as_str());
                    if size as u128 <= limit {
                        payload = extended;
                        written = size;
                    }
                },
                None => {},
            }
            steps = steps + 1;
        }
        self.growth_steps = steps;
        payload
    }

    /// The object that a payload starts from, and the number of bytes of
    /// its text: a random object, or, where that has more than `limit`
    /// bytes or cannot be written out, an object whose one member has
    /// hexadecimal digits for its key and `null` for its value.
    fn first_object(&mut self, limit: u128) -> (start: (serde_json::Value, usize))
        requires
            limit >= PAYLOAD_FLOOR,
        ensures
            is_nonempty_object_text(value_text(start.0)),
            start.1 == byte_len(value_text(start.0)),
            start.1 <= limit,
    {
        let first = self.generate_random_object(3, NESTING_LIMIT);
        match to_json_text(&first) {
            Some(text) => {
                let size = byte_length(text.as_str());
                if size as u128 <= limit {
                    return (first, size);
                }
            },
            None => {},
        }
        let key = self.generate_hex_string();
        let length: usize = key.as_str().unicode_len();
        let ghost digits = key@;
        let mut small = empty_object();
        let null = value_null();
        proof {
            lemma_hex_is_plain_ascii(digits);
            lemma_null_member_object(digits);
        }
        object_insert(&mut small, key, null);
        (small, length + 9)
    }

    /// A random value fit to stand as one element of an array. One time in
    /// six it is a payload aimed at `target_size`; otherwise the size is
    /// left to chance.
    pub fn generate_array_element(&mut self, target_size: usize) -> (element: serde_json::Value)
        ensures
            is_json_text(value_text(element)),
    {
        let choice: usize = gen_below(&mut self.rng, 0, 6);
        if choice == 0 {
            let depth: usize = gen_below(&mut self.rng, 1, 4);
            let object = self.generate_random_object(depth, NESTING_LIMIT);
            proof {
                lemma_object_text_is_json_text(value_text(object));
            }
            object
        } else if choice == 1 {
            let length: usize = gen_below(&mut self.rng, 1, 10);
            self.generate_random_array(length, NESTING_LIMIT)
        } else if choice == 2 {
            value_string(self.generate_massive_garbled_string())
        } else if choice == 3 {
            self.generate_garbled_data(NESTING_LIMIT)
        } else if choice == 4 {
            self.random_integer()
        } else {
            let payload = self.generate_payload(target_size);
            proof {
                lemma_nonempty_object_text_is_object_text(value_text(payload));
            }
            payload
        }
    }

    /// An object of one to fourteen random members. A member's value is
    /// another object three times in ten while `max_depth` and `nesting`
    /// allow it.
    fn generate_random_object(&mut self, max_depth: usize, nesting: usize) -> (object:
        serde_json::Value)
        ensures
            is_nonempty_object_text(value_text(object)),
            is_json_object_text(value_text(object)),
        decreases nesting, 1nat, max_depth,
    {
        let mut object = empty_object();
        proof {
            let doc = Json::Object(Seq::empty());
            assert(doc.well_formed() && doc is Object && doc.render() == value_text(object));
        }
        let field_count: usize = gen_below(&mut self.rng, 1, 15);
        let mut done: usize = 0;
        while done < field_count
            invariant
                done <= field_count,
                is_json_object_text(value_text(object)),
                done > 0 ==> is_nonempty_object_text(value_text(object)),
            decreases field_count - done,
        {
            let key = self.generate_random_key();
            let nested = max_depth > 0 && nesting > 0 && gen_ratio(&mut self.rng, 3, 10);
            let value = if nested {
                self.generate_random_object(max_depth - 1, nesting - 1)
            } else {
                self.generate_random_value(max_depth, nesting)
            };
            object_insert(&mut object, key, value);
            proof {
                lemma_nonempty_object_text_is_object_text(value_text(object));
            }
            done = done + 1;
        }
        object
    }

    /// An array of fewer than `max_length` random values; empty where
    /// `nesting` allows nothing inside it.
    fn generate_random_array(&mut self, max_length: usize, nesting: usize) -> (array:
        serde_json::Value)
        requires
            max_length > 0,
        ensures
            is_json_text(value_text(array)),
        decreases nesting, 1nat, 0nat,
    {
        let length: usize = if nesting == 0 {
            0
        } else {
            gen_below(&mut self.rng, 0, max_length)
        };
        let mut items: Vec<serde_json::Value> = Vec::new();
        let mut done: usize = 0;
        while done < length
            invariant
                nesting > 0 || length == 0,
            decreases length - done,
        {
            let depth: usize = gen_below(&mut self.rng, 1, 4);
            let item = self.generate_random_value(depth, (nesting - 1) as usize);
            items.push(item);
            done = done + 1;
        }
        value_array(items)
    }

    /// A random value of one of twelve kinds, ten of them scalars.
    fn generate_random_value(&mut self, max_depth: usize, nesting: usize) -> (value:
        serde_json::Value)
        ensures
            is_json_text(value_text(value)),
        decreases nesting, 0nat, 0nat,
    {
        let kind: usize = gen_below(&mut self.rng, 0, 12);
        if kind == 0 {
            let length: usize = gen_below(&mut self.rng, 1, 50);
            value_string(self.generate_random_string(length))
        } else if kind == 1 {
            self.random_integer()
        } else if kind == 2 {
            self.random_fraction()
        } else if kind == 3 {
            self.random_flag()
        } else if kind == 4 {
            null_value()
        } else if kind == 5 {
            value_string(new_uuid_text())
        } else if kind == 6 {
            value_string(self.generate_garbled_string())
        } else if kind == 7 {
            value_string(now_text())
        } else if kind == 8 {
            let length: usize = gen_below(&mut self.rng, 1, 10);
            if nesting > 0 {
                self.generate_random_array(length, nesting - 1)
            } else {
                value_array(Vec::new())
            }
        } else if kind == 9 {
            if max_depth > 0 && nesting > 0 {
                let object = self.generate_random_object(max_depth - 1, nesting - 1);
                proof {
                    lemma_object_text_is_json_text(value_text(object));
                }
                object
            } else {
                null_value()
            }
        } else if kind == 10 {
            value_string(self.generate_hex_string())
        } else {
            value_string(self.generate_base64_like_string())
        }
    }

    /// A random number of the whole range of `i64`.
    fn random_integer(&mut self) -> (value: serde_json::Value)
        ensures
            is_json_text(value_text(value)),
    {
        let i = gen_i64(&mut self.rng);
        proof {
            lemma_signed_decimal_is_json_text(i as int);
        }
        value_from_i64(i)
    }

    /// A random number of the unit interval; zero if it were no JSON
    /// number.
    fn random_fraction(&mut self) -> (value: serde_json::Value)
        ensures
            is_json_text(value_text(value)),
    {
        match gen_unit_interval_value(&mut self.rng) {
            Some(value) => value,
            None => {
                proof {
                    lemma_signed_decimal_is_json_text(0);
                }
                value_from_i64(0)
            },
        }
    }

    /// True or false, each one time in two.
    fn random_flag(&mut self) -> (value: serde_json::Value)
        ensures
            is_json_text(value_text(value)),
    {
        let b = gen_ratio(&mut self.rng, 1, 2);
        proof {
            let doc = Json::Boolean(b);
            assert(doc.well_formed());
        }
        value_bool(b)
    }

    /// A key for a member, in one of eight styles.
    fn generate_random_key(&mut self) -> (key: String)
        ensures
            is_random_key(key@),
    {
        let style: usize = gen_below(&mut self.rng, 0, 8);
        if style == 0 {
            let length: usize = gen_below(&mut self.rng, 3, 20);
            let key = self.generate_random_string(length);
            proof {
                let shape = KeyShape::Word(key@);
                assert(shape.well_formed() && shape.text() == key@);
            }
            key
        } else if style == 1 {
            let key = self.generate_garbled_string();
            proof {
                let shape = KeyShape::Garbled(key@);
                assert(shape.well_formed() && shape.text() == key@);
            }
            key
        } else if style == 2 {
            let mut key = self.generate_random_string(5);
            let ghost word = key@;
            push_char(&mut key, '_');
            let number = gen_u32(&mut self.rng);
            append_decimal(&mut key, number as u128);
            proof {
                let shape = KeyShape::Numbered(word, number);
                assert(shape.text() =~= key@);
                assert(shape.well_formed() && shape.text() == key@);
            }
            key
        } else if style == 3 {
            let mut key = String::from_str("field_");
            let number = gen_u64(&mut self.rng);
            append_decimal(&mut key, number as u128);
            proof {
                let shape = KeyShape::Field(number);
                assert(shape.well_formed() && shape.text() == key@);
            }
            key
        } else if style == 4 {
            let key = self.generate_hex_string();
            proof {
                let shape = KeyShape::Hex(key@);
                assert(shape.well_formed() && shape.text() == key@);
            }
            key
        } else if style == 5 {
            let mut key = self.generate_garbled_string();
            let ghost garbled = key@;
            push_char(&mut key, '_');
            let tail = self.generate_random_string(3);
            key.append(tail.as_str());
            proof {
                let shape = KeyShape::Joined(garbled, tail@);
                assert(shape.text() =~= key@);
                assert(shape.well_formed() && shape.text() == key@);
            }
            key
        } else if style == 6 {
            let id = new_uuid_text();
            let key = replace_hyphens(id.as_str());
            proof {
                let shape = KeyShape::Identifier(id@);
                assert(shape.well_formed() && shape.text() == key@);
            }
            key
        } else {
            let mut key = String::from_str("garbled_");
            let tail = self.generate_random_string(8);
            key.append(tail.as_str());
            proof {
                let shape = KeyShape::Prefixed(tail@);
                assert(shape.well_formed() && shape.text() == key@);
            }
            key
        }
    }

    /// Random content of one of six shapes.
    fn generate_garbled_data(&mut self, nesting: usize) -> (value: serde_json::Value)
        ensures
            is_json_text(value_text(value)),
        decreases nesting, 2nat, 0nat,
    {
        let shape: usize = gen_below(&mut self.rng, 0, 6);
        if shape == 0 {
            let mut object = empty_object();
            proof {
                let doc = Json::Object(Seq::empty());
                assert(doc.well_formed() && doc is Object && doc.render() == value_text(object));
            }
            let count: usize = gen_below(&mut self.rng, 1, 20);
            let mut done: usize = 0;
            while done < count
                invariant
                    is_json_object_text(value_text(object)),
                decreases count - done,
            {
                let key = self.generate_garbled_string();
                let value = self.generate_random_value(2, nesting);
                object_insert(&mut object, key, value);
                proof {
                    lemma_nonempty_object_text_is_object_text(value_text(object));
                }
                done = done + 1;
            }
            proof {
                lemma_object_text_is_json_text(value_text(object));
            }
            object
        } else if shape == 1 {
            let mut items: Vec<serde_json::Value> = Vec::new();
            let count: usize = gen_below(&mut self.rng, 1, 30);
            let mut done: usize = 0;
            while done < count
                decreases count - done,
            {
                let item = self.generate_random_value(1, nesting);
                items.push(item);
                done = done + 1;
            }
            value_array(items)
        } else if shape == 2 {
            value_string(self.generate_massive_garbled_string())
        } else if shape == 3 {
            let mut chaos = empty_object();
            proof {
                let doc = Json::Object(Seq::empty());
                assert(doc.well_formed() && doc is Object && doc.render() == value_text(chaos));
            }
            let array = self.generate_random_array(20, nesting);
            object_insert(&mut chaos, String::from_str("chaos"), array);
            proof {
                lemma_nonempty_object_text_is_object_text(value_text(chaos));
            }
            let mayhem = value_string(self.generate_garbled_string());
            object_insert(&mut chaos, String::from_str("mayhem"), mayhem);
            proof {
                lemma_nonempty_object_text_is_object_text(value_text(chaos));
            }
            let disorder = self.random_integer();
            object_insert(&mut chaos, String::from_str("disorder"), disorder);
            proof {
                lemma_nonempty_object_text_is_object_text(value_text(chaos));
            }
            chaos
        } else if shape == 4 {
            let mut items: Vec<serde_json::Value> = Vec::new();
            items.push(value_string(self.generate_garbled_string()));
            items.push(self.random_fraction());
            items.push(self.random_flag());
            items.push(null_value());
            items.push(self.generate_random_object(1, nesting));
            value_array(items)
        } else {
            let mut text = String::from_str("GARBLED_");
            append_decimal(&mut text, gen_u64(&mut self.rng) as u128);
            push_char(&mut text, '_');
            let hex = self.generate_hex_string();
            text.append(hex.as_str());
            push_char(&mut text, '_');
            let tail = self.generate_random_string(10);
            text.append(tail.as_str());
            value_string(text)
        }
    }

    /// `length` characters, each drawn from `alphabet`.
    fn random_text(&mut self, alphabet: &str, length: usize) -> (text: String)
        requires
            alphabet@.len() > 0,
        ensures
            text@.len() == length,
            drawn_from(text@, alphabet@),
    {
        let letters: usize = alphabet.unicode_len();
        let mut text = String::new();
        let mut done: usize = 0;
        while done < length
            invariant
                done <= length,
                letters == alphabet@.len(),
                letters > 0,
                text@.len() == done,
                drawn_from(text@, alphabet@),
            decreases length - done,
        {
            let index: usize = gen_below(&mut self.rng, 0, letters);
            let c = alphabet.get_char(index);
            push_char(&mut text, c);
            done = done + 1;
        }
        text
    }

    /// `length` letters, digits, underscores and hyphens.
    fn generate_random_string(&mut self, length: usize) -> (text: String)
        ensures
            text@.len() == length,
            drawn_from(text@, word_alphabet()),
    {
        let alphabet = "abcdefghijklmnopqrstuvwxyzABCDEFGHIJKLMNOPQRSTUVWXYZ0123456789_-";
        proof {
            reveal_strlit("abcdefghijklmnopqrstuvwxyzABCDEFGHIJKLMNOPQRSTUVWXYZ0123456789_-");
        }
        self.random_text(alphabet, length)
    }

    /// Three to thirty-nine letters, digits and punctuation marks.
    fn generate_garbled_string(&mut self) -> (text: String)
        ensures
            3 <= text@.len() < 40,
            drawn_from(text@, garbled_alphabet()),
    {
        let alphabet =
            "abcdefghijklmnopqrstuvwxyzABCDEFGHIJKLMNOPQRSTUVWXYZ0123456789!@#$%^&*()_+-=[]{}|;:,.<>?~`";
        proof {
            reveal_strlit(
                "abcdefghijklmnopqrstuvwxyzABCDEFGHIJKLMNOPQRSTUVWXYZ0123456789!@#$%^&*()_+-=[]{}|;:,.<>?~`",
            );
        }
        let length: usize = gen_below(&mut self.rng, 3, 40);
        self.random_text(alphabet, length)
    }

    /// Eight to thirty-one hexadecimal digits.
    fn generate_hex_string(&mut self) -> (text: String)
        ensures
            8 <= text@.len() < 32,
            drawn_from(text@, hex_alphabet()),
    {
        let alphabet = "0123456789abcdef";
        proof {
            reveal_strlit("0123456789abcdef");
        }
        let length: usize = gen_below(&mut self.rng, 8, 32);
        self.random_text(alphabet, length)
    }

    /// Ten to fifty-nine characters of the base64 alphabet.
    fn generate_base64_like_string(&mut self) -> (text: String)
        ensures
            10 <= text@.len() < 60,
            drawn_from(text@, base64_alphabet()),
    {
        let alphabet = "ABCDEFGHIJKLMNOPQRSTUVWXYZabcdefghijklmnopqrstuvwxyz0123456789+/=";
        proof {
            reveal_strlit("ABCDEFGHIJKLMNOPQRSTUVWXYZabcdefghijklmnopqrstuvwxyz0123456789+/=");
        }
        let length: usize = gen_below(&mut self.rng, 10, 60);
        self.random_text(alphabet, length)
    }

    /// Three to fourteen garbled segments, joined by random numbers and,
    /// now and then, followed by an identifier or hexadecimal digits.
    fn generate_massive_garbled_string(&mut self) -> (text: String)
        ensures
            is_massive_garbled(text@),
    {
        let segments: usize = gen_below(&mut self.rng, 3, 15);
        let mut result = String::new();
        let ghost mut made: Seq<Segment> = Seq::empty();
        let mut i: usize = 0;
        while i < segments
            invariant
                i <= segments,
                3 <= segments < 15,
                made.len() == i,
                forall|k: int| 0 <= k < made.len() ==> (#[trigger] made[k]).well_formed(),
                result@ == segments_text(made, i as nat),
            decreases segments - i,
        {
            let ghost before = result@;
            let ghost earlier = made;
            let ghost mut number: u32 = 0;
            let ghost mut id_part: Option<Seq<char>> = None;
            let ghost mut hex_part: Option<Seq<char>> = None;
            if i > 0 {
                push_char(&mut result, '_');
                let drawn = gen_u32(&mut self.rng);
                append_decimal(&mut result, drawn as u128);
                push_char(&mut result, '_');
                proof {
                    number = drawn;
                }
            }
            let segment = self.generate_garbled_string();
            result.append(segment.as_str());
            if gen_ratio(&mut self.rng, 2, 5) {
                result.append("_UUID_");
                let id = new_uuid_text();
                result.append(id.as_str());
                push_char(&mut result, '_');
                proof {
                    id_part = Some(id@);
                }
            }
            if gen_ratio(&mut self.rng, 3, 10) {
                result.append("_HEX_");
                let hex = self.generate_hex_string();
                result.append(hex.as_str());
                push_char(&mut result, '_');
                proof {
                    hex_part = Some(hex@);
                }
            }
            proof {
                let latest = Segment {
                    number,
                    garbled: segment@,
                    id: id_part,
                    hex: hex_part,
                };
                assert(result@ =~= before + latest.text(i == 0));
                made = earlier.push(latest);
                lemma_segments_text_prefix(made, earlier, i as nat);
            }
            i = i + 1;
        }
        result
    }
}

/// `null`, as a value.
fn null_value() -> (value: serde_json::Value)
    ensures
        is_json_text(value_text(value)),
{
    proof {
        assert(Json::Null.well_formed());
    }
    value_null()
}

/// A copy of `s` in which every hyphen is an underscore.
fn replace_hyphens(s: &str) -> (r: String)
    ensures
        r@ == hyphens_to_underscores(s@),
{
    let n: usize = s.unicode_len();
    let mut r = String::new();
    let mut i: usize = 0;
    while i < n
        invariant
            i <= n,
            n == s@.len(),
            r@ == hyphens_to_underscores(s@).take(i as int),
        decreases n - i,
    {
        let c = s.get_char(i);
        push_char(
            &mut r,
            if c == '-' {
                '_'
            } else {
                c
            },
        );
        assert(hyphens_to_underscores(s@).take(i + 1) =~= hyphens_to_underscores(s@).take(
            i as int,
        ).push(hyphens_to_underscores(s@)[i as int]));
        i = i + 1;
    }
    assert(hyphens_to_underscores(s@).take(n as int) =~= hyphens_to_underscores(s@));
    r
}

} // verus!
