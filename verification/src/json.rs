//! Compact JSON: documents as trees, and the text that stands for them.
//!
//! A document is rendered without insignificant whitespace. Texts and
//! numbers are kept as they are written, so a tree says exactly which
//! characters appear.

use vstd::prelude::*;
use crate::decimal::{all_digits, decimal, lemma_decimal_shape};

verus! {

/// A JSON document.
pub enum Json {
    Null,
    Boolean(bool),
    /// A number, as its literal.
    Number(Seq<char>),
    /// A string, as the characters between its quotes (escapes included).
    Text(Seq<char>),
    Array(Seq<Json>),
    /// Members in the order in which they are written, each with its key as
    /// the characters between the quotes.
    Object(Seq<(Seq<char>, Json)>),
}

/// A character that may stand unescaped inside a JSON string.
pub open spec fn is_plain_char(c: char) -> bool {
    c != '"' && c != '\\' && c >= ' '
}

pub open spec fn is_hex_digit(c: char) -> bool {
    ('0' <= c <= '9') || ('a' <= c <= 'f') || ('A' <= c <= 'F')
}

/// A character that may follow a backslash on its own.
pub open spec fn is_simple_escape(c: char) -> bool {
    c == '"' || c == '\\' || c == '/' || c == 'b' || c == 'f' || c == 'n' || c == 'r' || c == 't'
}

/// `s` may stand between the quotes of a JSON string: plain characters,
/// two-character escapes and `\u` followed by four hexadecimal digits.
pub open spec fn is_string_body(s: Seq<char>) -> bool
    decreases s.len(),
{
    if s.len() == 0 {
        true
    } else if s[0] == '\\' {
        if s.len() >= 2 && is_simple_escape(s[1]) {
            is_string_body(s.skip(2))
        } else if s.len() >= 6 && s[1] == 'u' && is_hex_digit(s[2]) && is_hex_digit(s[3])
            && is_hex_digit(s[4]) && is_hex_digit(s[5]) {
            is_string_body(s.skip(6))
        } else {
            false
        }
    } else {
        is_plain_char(s[0]) && is_string_body(s.skip(1))
    }
}

/// The integer part of a number: digits, with no needless leading zero.
pub open spec fn is_integer_part(s: Seq<char>) -> bool {
    s.len() >= 1 && all_digits(s) && (s.len() > 1 ==> s[0] != '0')
}

/// Nothing, or a point and one or more digits.
pub open spec fn is_fraction_part(s: Seq<char>) -> bool {
    s.len() == 0 || (s.len() >= 2 && s[0] == '.' && all_digits(s.skip(1)))
}

/// Nothing, or `e` or `E`, an optional sign, and one or more digits.
pub open spec fn is_exponent_part(s: Seq<char>) -> bool {
    s.len() == 0 || (s.len() >= 2 && (s[0] == 'e' || s[0] == 'E') && (if s[1] == '+' || s[1]
        == '-' {
        s.len() >= 3 && all_digits(s.skip(2))
    } else {
        all_digits(s.skip(1))
    }))
}

/// The literal made of an optional minus sign and the three parts.
pub open spec fn number_text(
    negative: bool,
    integer: Seq<char>,
    fraction: Seq<char>,
    exponent: Seq<char>,
) -> Seq<char> {
    (if negative {
        seq!['-']
    } else {
        Seq::<char>::empty()
    }) + integer + fraction + exponent
}

/// `s` is a JSON number.
pub open spec fn is_number_literal(s: Seq<char>) -> bool {
    exists|negative: bool, integer: Seq<char>, fraction: Seq<char>, exponent: Seq<char>|
        s == #[trigger] number_text(negative, integer, fraction, exponent) && is_integer_part(
            integer,
        ) && is_fraction_part(fraction) && is_exponent_part(exponent)
}

impl Json {
    /// Every number is a JSON number and every text and key may stand
    /// between quotes.
    pub open spec fn well_formed(self) -> bool
        decreases self,
    {
        match self {
            Json::Null => true,
            Json::Boolean(_) => true,
            Json::Number(literal) => is_number_literal(literal),
            Json::Text(body) => is_string_body(body),
            Json::Array(items) => forall|i: int|
                0 <= i < items.len() ==> (#[trigger] items[i]).well_formed(),
            Json::Object(members) => forall|i: int|
                0 <= i < members.len() ==> is_string_body((#[trigger] members[i]).0)
                    && members[i].1.well_formed(),
        }
    }

    /// The compact text of the document.
    pub open spec fn render(self) -> Seq<char>
        decreases self, 0nat,
    {
        match self {
            Json::Null => seq!['n', 'u', 'l', 'l'],
            Json::Boolean(b) => if b {
                seq!['t', 'r', 'u', 'e']
            } else {
                seq!['f', 'a', 'l', 's', 'e']
            },
            Json::Number(literal) => literal,
            Json::Text(body) => quoted(body),
            Json::Array(items) => seq!['['] + render_items(items, items.len()) + seq![']'],
            Json::Object(members) => seq!['{'] + render_members(members, members.len())
                + seq!['}'],
        }
    }
}

/// `body` between quotes.
pub open spec fn quoted(body: Seq<char>) -> Seq<char> {
    seq!['"'] + body + seq!['"']
}

/// The first `n` of `items`, rendered and separated by commas.
pub open spec fn render_items(items: Seq<Json>, n: nat) -> Seq<char>
    decreases items, n,
{
    if n == 0 || n > items.len() {
        Seq::empty()
    } else if n == 1 {
        items[0].render()
    } else {
        render_items(items, (n - 1) as nat) + seq![','] + items[n - 1].render()
    }
}

/// One member of an object: the quoted key, a colon and the value.
pub open spec fn member_text(key: Seq<char>, value: Seq<char>) -> Seq<char> {
    quoted(key) + seq![':'] + value
}

/// The first `n` of `members`, rendered and separated by commas.
pub open spec fn render_members(members: Seq<(Seq<char>, Json)>, n: nat) -> Seq<char>
    decreases members, n,
{
    if n == 0 || n > members.len() {
        Seq::empty()
    } else if n == 1 {
        member_text(members[0].0, members[0].1.render())
    } else {
        render_members(members, (n - 1) as nat) + seq![','] + member_text(
            members[n - 1].0,
            members[n - 1].1.render(),
        )
    }
}

/// `s` is the compact text of a well-formed document.
pub open spec fn is_json_text(s: Seq<char>) -> bool {
    exists|d: Json| #[trigger] d.well_formed() && d.render() == s
}

/// `s` is the compact text of a well-formed document that is an object.
pub open spec fn is_json_object_text(s: Seq<char>) -> bool {
    exists|d: Json| #[trigger] d.well_formed() && d is Object && d.render() == s
}

/// `s` is the compact text of a well-formed document that is an object
/// with at least one member.
pub open spec fn is_nonempty_object_text(s: Seq<char>) -> bool {
    exists|d: Json|
        #[trigger] d.well_formed() && d is Object && d->Object_0.len() >= 1 && d.render() == s
}

/// Every character of `s` may stand unescaped inside a JSON string.
pub open spec fn is_plain_text(s: Seq<char>) -> bool {
    forall|i: int| 0 <= i < s.len() ==> is_plain_char(#[trigger] s[i])
}

/// The text of an object of the one member `key`, which holds `value`.
pub open spec fn single_member_text(key: Seq<char>, value: Seq<char>) -> Seq<char> {
    seq!['{'] + member_text(key, value) + seq!['}']
}

/// A document of which `s` is the text, where there is one.
pub open spec fn document_of(s: Seq<char>) -> Json {
    choose|d: Json| #[trigger] d.well_formed() && d.render() == s
}

/// The text of an object with a member is the text of an object.
pub proof fn lemma_nonempty_object_text_is_object_text(s: Seq<char>)
    requires
        is_nonempty_object_text(s),
    ensures
        is_json_object_text(s),
        is_json_text(s),
{
    let d = choose|d: Json|
        #[trigger] d.well_formed() && d is Object && d->Object_0.len() >= 1 && d.render() == s;
    assert(d.well_formed() && d is Object && d.render() == s);
    assert(d.well_formed() && d.render() == s);
}

/// An object's text is a JSON text.
pub proof fn lemma_object_text_is_json_text(s: Seq<char>)
    requires
        is_json_object_text(s),
    ensures
        is_json_text(s),
{
    let d = choose|d: Json| #[trigger] d.well_formed() && d is Object && d.render() == s;
    assert(d.well_formed() && d.render() == s);
}

/// Text without quotes, backslashes and control characters may stand
/// between quotes as it is.
pub proof fn lemma_plain_is_string_body(s: Seq<char>)
    requires
        forall|i: int| 0 <= i < s.len() ==> is_plain_char(#[trigger] s[i]),
    ensures
        is_string_body(s),
    decreases s.len(),
{
    if s.len() > 0 {
        lemma_plain_is_string_body(s.skip(1));
    }
}

/// The decimal notation of a natural number is a JSON number.
pub proof fn lemma_decimal_is_number(n: nat)
    ensures
        is_number_literal(decimal(n)),
        Json::Number(decimal(n)).well_formed(),
{
    lemma_decimal_shape(n);
    let d = decimal(n);
    let e = Seq::<char>::empty();
    assert(number_text(false, d, e, e) =~= d);
    if d.len() > 1 && d[0] == '0' {
        assert(n == 0);
        assert(false);
    }
    assert(is_integer_part(d));
    assert(is_fraction_part(e));
    assert(is_exponent_part(e));
}

} // verus!
