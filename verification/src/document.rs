//! JSON documents as plain data.
//!
//! The `json` crate parses the text; this module holds what it found in a
//! tree of the crate's own, so that verified code can read it.
//!
//! The parser keeps the decimal exponent of a number in 16 bits and lowers it
//! for the digits of a fraction without a check. A text with a number whose
//! fraction would take that exponent below its range is refused here, before
//! the parser sees it.

use vstd::prelude::*;

verus! {

/// A JSON value, as mathematics: texts are sequences of characters, arrays
/// and objects are sequences.
pub enum JsonView {
    Null,
    Boolean(bool),
    Number { positive: bool, mantissa: u64, exponent: i16 },
    Text(Seq<char>),
    Array(Seq<JsonView>),
    Object(Seq<(Seq<char>, JsonView)>),
}

/// A JSON value.
#[derive(Debug, PartialEq, Eq)]
pub enum Json {
    Null,
    Boolean(bool),
    /// A number, as sign, decimal mantissa and decimal exponent.
    Number { positive: bool, mantissa: u64, exponent: i16 },
    Text(String),
    Array(Vec<Json>),
    /// The members of an object, in the order of the text. No key occurs
    /// twice in what the parser hands out.
    Object(Vec<(String, Json)>),
}

impl View for Json {
    type V = JsonView;

    open spec fn view(&self) -> JsonView {
        json_view(*self)
    }
}

/// The mathematical value of a document: texts and vectors give way to
/// sequences, all the way down.
pub open spec fn json_view(document: Json) -> JsonView
    decreases document,
{
    match document {
        Json::Null => JsonView::Null,
        Json::Boolean(b) => JsonView::Boolean(b),
        Json::Number { positive, mantissa, exponent } => JsonView::Number {
            positive,
            mantissa,
            exponent,
        },
        Json::Text(s) => JsonView::Text(s@),
        Json::Array(items) => JsonView::Array(
            Seq::new(
                items@.len(),
                |i: int| if 0 <= i < items.len() { json_view(items[i]) } else { JsonView::Null },
            ),
        ),
        Json::Object(members) => JsonView::Object(
            Seq::new(
                members@.len(),
                |i: int| if 0 <= i < members.len() {
                    (members[i].0@, json_view(members[i].1))
                } else {
                    (Seq::empty(), JsonView::Null)
                },
            ),
        ),
    }
}

impl JsonView {
    /// The text of a string value; nothing for any other value.
    pub open spec fn text(self) -> Option<Seq<char>> {
        match self {
            JsonView::Text(s) => Some(s),
            _ => None,
        }
    }

    /// The items of an array; no items for any other value.
    pub open spec fn items(self) -> Seq<JsonView> {
        match self {
            JsonView::Array(items) => items,
            _ => Seq::empty(),
        }
    }

    /// The value of the first member named `key` in an object; nothing where
    /// there is no such member or the value is no object.
    pub open spec fn find(self, key: Seq<char>) -> Option<JsonView> {
        match self {
            JsonView::Object(members) => find_from(members, key, 0),
            _ => None,
        }
    }

    /// The value under `key`, with `Null` standing for an absent member.
    pub open spec fn field(self, key: Seq<char>) -> JsonView {
        match self.find(key) {
            Some(value) => value,
            None => JsonView::Null,
        }
    }
}

/// The value of the first member named `key` at or after position `start`.
pub open spec fn find_from(
    members: Seq<(Seq<char>, JsonView)>,
    key: Seq<char>,
    start: int,
) -> Option<JsonView>
    decreases members.len() - start,
{
    if start < 0 || start >= members.len() {
        None
    } else if members[start].0 == key {
        Some(members[start].1)
    } else {
        find_from(members, key, start + 1)
    }
}

/// How often the parser can lower the exponent of a number before it leaves
/// the range of 16 bits.
pub const MAX_EXPONENT_STEPS: usize = 32768;

/// The mantissa from which on the parser takes a further digit only if the
/// mantissa still fits in 64 bits with it.
pub const MANTISSA_THRESHOLD: u64 = 576460752303423500;

/// The byte of the character `.`.
pub const DOT: u8 = 0x2e;

/// The byte of the character `0`.
pub const ZERO: u8 = 0x30;

/// The byte of the character `"`.
pub const QUOTE: u8 = 0x22;

/// The byte of the character `\`.
pub const BACKSLASH: u8 = 0x5c;

/// An ASCII digit.
pub open spec fn is_digit(byte: u8) -> bool {
    0x30 <= byte <= 0x39
}

/// Where a byte of a text stands with respect to its strings.
#[derive(Clone, Copy, Debug, PartialEq, Eq, Structural)]
pub enum Place {
    /// Outside every string.
    Outside,
    /// Inside a string.
    Inside,
    /// Inside a string, right behind a backslash.
    Escaped,
}

/// The place behind a byte, given the place before it: a quote opens or
/// closes a string, and a backslash inside a string takes the next byte with
/// it.
pub open spec fn place_after(place: Place, byte: u8) -> Place {
    match place {
        Place::Outside => if byte == QUOTE {
            Place::Inside
        } else {
            Place::Outside
        },
        Place::Inside => if byte == QUOTE {
            Place::Outside
        } else if byte == BACKSLASH {
            Place::Escaped
        } else {
            Place::Inside
        },
        Place::Escaped => Place::Inside,
    }
}

/// The place of the byte at `at`.
pub open spec fn place_at(bytes: Seq<u8>, at: int) -> Place
    decreases at,
{
    if at <= 0 {
        Place::Outside
    } else {
        place_after(place_at(bytes, at - 1), bytes[at - 1])
    }
}

/// A `0` stands at `at`, outside every string and not behind a digit: the
/// whole integer part of a number.
pub open spec fn is_lone_zero(bytes: Seq<u8>, at: int) -> bool {
    &&& 0 <= at < bytes.len()
    &&& bytes[at] == ZERO
    &&& place_at(bytes, at) is Outside
    &&& at > 0 ==> !is_digit(bytes[at - 1])
}

/// A number with the integer part zero and a fraction starts at `at`.
pub open spec fn is_zero_fraction(bytes: Seq<u8>, at: int) -> bool {
    &&& is_lone_zero(bytes, at)
    &&& at + 1 < bytes.len()
    &&& bytes[at + 1] == DOT
}

/// What the parser holds while it reads a fraction: the mantissa, and how
/// often it has lowered the exponent.
pub struct FractionState {
    pub mantissa: int,
    pub steps: int,
}

/// What the parser holds after the digits from `from` up to `to`, where
/// it began at `from` with a mantissa of zero. It takes a digit into the
/// mantissa, and lowers the exponent, as long as the mantissa is under the
/// threshold or still fits in 64 bits with the digit; it passes over every
/// other digit.
pub open spec fn fraction_read(bytes: Seq<u8>, from: int, to: int) -> FractionState
    decreases to - from,
{
    if to <= from {
        FractionState { mantissa: 0, steps: 0 }
    } else {
        let before = fraction_read(bytes, from, to - 1);
        let with_digit = before.mantissa * 10 + (bytes[to - 1] - ZERO);
        if before.mantissa < MANTISSA_THRESHOLD || with_digit <= u64::MAX {
            FractionState { mantissa: with_digit, steps: before.steps + 1 }
        } else {
            before
        }
    }
}

/// A number with the integer part zero starts at `at`, and the bytes behind
/// its `.` up to `end` are digits of its fraction.
pub open spec fn is_fraction_run(bytes: Seq<u8>, at: int, end: int) -> bool {
    &&& is_zero_fraction(bytes, at)
    &&& at + 2 <= end <= bytes.len()
    &&& forall|k: int| at + 2 <= k < end ==> is_digit(#[trigger] bytes[k])
}

/// A number with the integer part zero starts at `at`, and by the digit
/// before `end` its fraction has lowered the exponent more often than 16 bits
/// allow.
pub open spec fn overflows_at(bytes: Seq<u8>, at: int, end: int) -> bool {
    &&& is_fraction_run(bytes, at, end)
    &&& fraction_read(bytes, at + 2, end).steps > MAX_EXPONENT_STEPS
}

/// No number in the bytes has a fraction that takes the exponent out of its
/// range.
pub open spec fn digits_fit(bytes: Seq<u8>) -> bool {
    forall|at: int, end: int| !overflows_at(bytes, at, end)
}

/// No number in the text has a fraction that takes the parser's exponent out
/// of its range. This is said of the UTF-8 bytes of the text, which are what
/// the parser reads.
///
/// Only a number with the integer part zero can have such a fraction: it
/// begins with more than 32 thousand zeros. With any other integer part the
/// mantissa is full after twenty digits. Digits inside a string count for
/// nothing.
pub open spec fn fractions_fit(text: Seq<char>) -> bool {
    digits_fit(vstd::utf8::encode_utf8(text))
}

/// The parser lowers the exponent at most once for each digit.
pub proof fn lemma_steps_within_digits(bytes: Seq<u8>, from: int, to: int)
    requires
        from <= to,
    ensures
        0 <= fraction_read(bytes, from, to).steps <= to - from,
    decreases to - from,
{
    if from < to {
        lemma_steps_within_digits(bytes, from, to - 1);
    }
}

/// A text without a number that has the integer part zero and a fraction
/// fits, whatever else it holds: digits inside strings, and fractions behind
/// any other integer part, count for nothing.
pub proof fn lemma_fits_without_zero_fraction(bytes: Seq<u8>)
    requires
        forall|at: int| !is_zero_fraction(bytes, at),
    ensures
        digits_fit(bytes),
{
}

/// A text fits if no `0.` outside its strings is followed by more than
/// `MAX_EXPONENT_STEPS` digits.
pub proof fn lemma_fits_with_short_zero_fractions(bytes: Seq<u8>)
    requires
        forall|at: int, end: int| #[trigger]
            is_fraction_run(bytes, at, end) ==> end - (at + 2) <= MAX_EXPONENT_STEPS,
    ensures
        digits_fit(bytes),
{
    assert forall|at: int, end: int| !overflows_at(bytes, at, end) by {
        if is_fraction_run(bytes, at, end) {
            lemma_steps_within_digits(bytes, at + 2, end);
        }
    }
}

/// A `0.` outside the strings of a text that is followed by more than
/// `MAX_EXPONENT_STEPS` zeros does not fit: with a mantissa of zero the
/// parser lowers the exponent for every one of them.
pub proof fn lemma_long_run_of_zeros_does_not_fit(bytes: Seq<u8>, at: int, end: int)
    requires
        is_zero_fraction(bytes, at),
        at + 2 <= end <= bytes.len(),
        forall|k: int| at + 2 <= k < end ==> #[trigger] bytes[k] == ZERO,
        end - (at + 2) > MAX_EXPONENT_STEPS,
    ensures
        !digits_fit(bytes),
{
    lemma_zeros_are_all_taken(bytes, at + 2, end);
    assert(overflows_at(bytes, at, end));
}

/// While it reads zeros, the parser keeps a mantissa of zero and lowers the
/// exponent for each.
proof fn lemma_zeros_are_all_taken(bytes: Seq<u8>, from: int, to: int)
    requires
        from <= to,
        forall|k: int| from <= k < to ==> #[trigger] bytes[k] == ZERO,
    ensures
        fraction_read(bytes, from, to) == (FractionState { mantissa: 0, steps: to - from }),
    decreases to - from,
{
    if from < to {
        lemma_zeros_are_all_taken(bytes, from, to - 1);
    }
}

/// What `json::parse` makes of a text: the document, or nothing where the
/// parser refuses the text. It refuses what is not JSON, and also JSON that
/// is nested deeper than 512 or holds an integer with more digits than its
/// exponent can count. Meaningful only where `fractions_fit(text)` holds.
pub uninterp spec fn json_document(text: Seq<char>) -> Option<JsonView>;

/// Why a text was refused.
#[derive(Clone, Copy, Debug, PartialEq, Eq, Structural)]
pub enum JsonError {
    /// A number in the text has a fraction that takes the parser's exponent
    /// out of its range.
    LongFraction,
    /// The parser refuses the text.
    Malformed,
}

/// The document that a text holds, or why it is refused.
pub open spec fn document_of(text: Seq<char>) -> Result<JsonView, JsonError> {
    if !fractions_fit(text) {
        Err(JsonError::LongFraction)
    } else {
        match json_document(text) {
            Some(document) => Ok(document),
            None => Err(JsonError::Malformed),
        }
    }
}

/// The error type of the `json` crate, carried through unread.
#[verifier::external_type_specification]
#[verifier::external_body]
pub struct ExJsonError(json::Error);

/// The value type of the `json` crate. Verified code never holds one: it is
/// copied into a [`Json`] as soon as the parser returns.
#[verifier::external_type_specification]
#[verifier::external_body]
pub struct ExJsonValue(json::JsonValue);

/// Trusted: copies a `json::JsonValue` into a [`Json`], variant by variant.
/// Both string variants of the crate become `Text`; a number is taken apart
/// with `json::number::Number::as_parts`; the members of an object come in the
/// order of `json::object::Object::iter`.
#[verifier::external_body]
fn copy_value(value: &json::JsonValue) -> Json {
    match value {
        json::JsonValue::Null => Json::Null,
        json::JsonValue::Short(s) => Json::Text(s.as_str().to_string()),
        json::JsonValue::String(s) => Json::Text(s.clone()),
        json::JsonValue::Number(n) => Json::Number {
            positive: n.as_parts().0,
            mantissa: n.as_parts().1,
            exponent: n.as_parts().2,
        },
        json::JsonValue::Boolean(b) => Json::Boolean(*b),
        json::JsonValue::Object(o) => Json::Object(o.iter().map(|(k, v)| (k.to_string(), copy_value(v))).collect()),
        json::JsonValue::Array(a) => Json::Array(a.iter().map(copy_value).collect()),
    }
}

/// Trusted: calls `json::parse` and copies what it returns. The contract
/// names the outcome, which depends on the text alone.
///
/// The parser lowers a 16-bit exponent, without a check, for each digit of
/// a fraction that it takes into the mantissa. The exponent begins at zero or
/// above. Behind an integer part that is not zero the mantissa takes at most
/// twenty digits. So the exponent can leave its range only in a number with
/// the integer part zero, which the parser reads with a mantissa that begins
/// at zero, digit by digit as `fraction_read` says. The precondition keeps
/// out the texts in which it would leave its range.
#[verifier::external_body]
fn parse_text(text: &str) -> (outcome: Result<Json, json::Error>)
    requires
        fractions_fit(text@),
    ensures
        match outcome {
            Ok(document) => json_document(text@) == Some(document@),
            Err(_) => json_document(text@) is None,
        },
{
    match json::parse(text) {
        Ok(value) => Ok(copy_value(&value)),
        Err(e) => Err(e),
    }
}

/// The place behind a byte, given the place before it.
fn next_place(place: Place, byte: u8) -> (next: Place)
    ensures
        next == place_after(place, byte),
{
    match place {
        Place::Outside => if byte == QUOTE {
            Place::Inside
        } else {
            Place::Outside
        },
        Place::Inside => if byte == QUOTE {
            Place::Outside
        } else if byte == BACKSLASH {
            Place::Escaped
        } else {
            Place::Inside
        },
        Place::Escaped => Place::Inside,
    }
}

/// Whether no number in the text has a fraction that takes the parser's
/// exponent out of its range.
pub fn fractions_fit_in(text: &str) -> (fits: bool)
    ensures
        fits == fractions_fit(text@),
{
    let bytes = text.as_bytes();
    let ghost all = bytes@;
    let mut place = Place::Outside;
    // Whether the last byte was a digit, and whether it was a lone zero.
    let mut after_digit = false;
    let mut after_zero = false;
    // Whether the bytes from `start` on are the digits of a fraction behind
    // a lone zero, and what the parser holds after them.
    let mut reading = false;
    let ghost mut start: int = 0;
    let mut mantissa: u64 = 0;
    let mut steps: usize = 0;
    let mut i: usize = 0;
    while i < bytes.len()
        invariant
            i <= bytes.len(),
            all == bytes@,
            all == vstd::utf8::encode_utf8(text@),
            place == place_at(all, i as int),
            after_digit == (i > 0 && is_digit(all[i - 1])),
            after_zero == (i > 0 && is_lone_zero(all, i - 1)),
            reading ==> {
                &&& 2 <= start <= i
                &&& is_zero_fraction(all, start - 2)
                &&& forall|k: int| start <= k < i ==> is_digit(#[trigger] all[k])
                &&& fraction_read(all, start, i as int) == (FractionState {
                    mantissa: mantissa as int,
                    steps: steps as int,
                })
                &&& forall|end: int|
                    start <= end <= i ==> (#[trigger] fraction_read(all, start, end)).steps
                        <= MAX_EXPONENT_STEPS
            },
            forall|at: int, end: int|
                at + 2 <= i && !(reading && at == start - 2) ==> !overflows_at(all, at, end),
        decreases bytes.len() - i,
    {
        let byte = bytes[i];
        let digit = 0x30 <= byte && byte <= 0x39;
        if reading && digit {
            let value = (byte - ZERO) as u64;
            if mantissa < MANTISSA_THRESHOLD || mantissa <= (u64::MAX - value) / 10 {
                mantissa = mantissa * 10 + value;
                steps += 1;
                if steps > MAX_EXPONENT_STEPS {
                    assert(overflows_at(all, start - 2, i + 1));
                    return false;
                }
            }
        } else {
            proof {
                if reading {
                    let at = start - 2;
                    assert forall|end: int| !(#[trigger] overflows_at(all, at, end)) by {
                        if end > i && start <= end <= all.len() {
                            assert(!is_digit(all[i as int]));
                        }
                    }
                }
            }
            reading = after_zero && byte == DOT;
            if reading {
                proof {
                    start = i + 1;
                }
                mantissa = 0;
                steps = 0;
            }
        }
        after_zero = byte == ZERO && place == Place::Outside && !after_digit;
        after_digit = digit;
        place = next_place(place, byte);
        i += 1;
    }
    true
}

impl Json {
    /// Parses a JSON text.
    ///
    /// A text with a number whose fraction would take the parser's exponent
    /// out of its range is refused unread. Any other text is handed to the
    /// parser.
    pub fn parse(text: &str) -> (outcome: Result<Json, JsonError>)
        ensures
            match outcome {
                Ok(document) => document_of(text@) == Ok::<JsonView, JsonError>(document@),
                Err(e) => document_of(text@) == Err::<JsonView, JsonError>(e),
            },
    {
        if !fractions_fit_in(text) {
            return Err(JsonError::LongFraction);
        }
        match parse_text(text) {
            Ok(document) => Ok(document),
            Err(_) => Err(JsonError::Malformed),
        }
    }

    /// The text of a string value.
    pub fn as_text(&self) -> (text: Option<&str>)
        ensures
            match text {
                Some(s) => self@.text() == Some(s@),
                None => self@.text() is None,
            },
    {
        match self {
            Json::Text(s) => Some(s.as_str()),
            _ => None,
        }
    }

    /// The items of an array.
    pub fn as_items(&self) -> (items: Option<&Vec<Json>>)
        ensures
            match items {
                Some(v) => self@ is Array && self@.items() == views(v@),
                None => !(self@ is Array) && self@.items() == Seq::<JsonView>::empty(),
            },
    {
        match self {
            Json::Array(items) => {
                assert(self@.items() =~= views(items@));
                Some(items)
            },
            _ => None,
        }
    }

    /// The value of the first member named `key`.
    pub fn get(&self, key: &str) -> (found: Option<&Json>)
        ensures
            match found {
                Some(value) => self@.find(key@) == Some(value@),
                None => self@.find(key@) is None,
            },
    {
        match self {
            Json::Object(members) => {
                let ghost model = self@->Object_0;
                let wanted = key.to_owned();
                let mut i: usize = 0;
                while i < members.len()
                    invariant
                        i <= members.len(),
                        self@ == JsonView::Object(model),
                        model.len() == members.len(),
                        forall|j: int| 0 <= j < members.len() ==> model[j] == (
                            #[trigger] members[j].0@,
                            members[j].1@,
                        ),
                        wanted@ == key@,
                        find_from(model, key@, 0) == find_from(model, key@, i as int),
                    decreases members.len() - i,
                {
                    if members[i].0 == wanted {
                        return Some(&members[i].1);
                    }
                    i += 1;
                }
                None
            },
            _ => None,
        }
    }
}

/// The views of a sequence of values, item by item.
pub open spec fn views(items: Seq<Json>) -> Seq<JsonView> {
    items.map_values(|item: Json| item@)
}

} // verus!
