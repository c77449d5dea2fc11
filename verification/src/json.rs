//! The JSON documents that the service and machine APIs answer with, as far
//! as the change detection reads them.

use vstd::prelude::*;
use crate::text::{decimal, decimal_string};

verus! {

/// A JSON value.  A number with a fraction or an exponent is a `Float`,
/// whose value is not kept: nothing here reads it.
#[derive(Debug)]
pub enum JsonValue {
    /// A negative integer.
    I64(i64),
    /// A non-negative integer.
    U64(u64),
    /// A number with a fraction or an exponent.
    Float,
    Text(String),
    Boolean(bool),
    Array(Vec<JsonValue>),
    /// The members of an object, in the order of their keys, each key once.
    Object(Vec<(String, JsonValue)>),
    Null,
}

#[verifier::external_type_specification]
#[verifier::external_body]
pub struct ExJson(rustc_serialize::json::Json);

/// What `rustc_serialize::json::Json::from_str` makes of a text, as a
/// `JsonValue` (`None` where it reports an error).
pub uninterp spec fn parsed_json(text: Seq<char>) -> Option<JsonValue>;

/// Takes a value that `rustc_serialize` parsed into a `JsonValue`, variant
/// for variant: an `F64` becomes a `Float`, an array keeps its items in order
/// and an object keeps its members in the order of its map.
#[verifier::external_body]
fn from_outside(json: &rustc_serialize::json::Json) -> JsonValue {
    match json {
        rustc_serialize::json::Json::I64(n) => JsonValue::I64(*n),
        rustc_serialize::json::Json::U64(n) => JsonValue::U64(*n),
        rustc_serialize::json::Json::F64(_) => JsonValue::Float,
        rustc_serialize::json::Json::String(s) => JsonValue::Text(s.clone()),
        rustc_serialize::json::Json::Boolean(b) => JsonValue::Boolean(*b),
        rustc_serialize::json::Json::Array(a) => JsonValue::Array(a.iter().map(from_outside).collect()),
        rustc_serialize::json::Json::Object(o) => JsonValue::Object(o.iter().map(|(k, v)| (k.clone(), from_outside(v))).collect()),
        rustc_serialize::json::Json::Null => JsonValue::Null,
    }
}

/* What the parser can take */

/// The deepest nesting of arrays and objects that a text may have.
pub const MAX_NESTING: usize = 64;

/// The longest key, in bytes as written in the text, that a text may have.
pub const MAX_KEY_BYTES: usize = 1023;

/// The most digits that the exponent of a number may have.
pub const MAX_EXPONENT_DIGITS: usize = 9;

/// Where a scan of a text's bytes stands: inside a string or not, just after
/// a backslash in a string, how deeply arrays and objects are open, how many
/// bytes the current string has, the length of a string that just closed
/// (until the next byte other than whitespace shows whether it is a key),
/// where it stands in a number's exponent (0 outside one, 1 after `e`, 2
/// after its sign, 3 in its digits), how many exponent digits it read, and
/// whether the text is still within the limits.
pub struct ScanView {
    pub in_string: bool,
    pub escaped: bool,
    pub depth: nat,
    pub string_len: nat,
    pub closed_string: Option<nat>,
    pub exponent: nat,
    pub exponent_digits: nat,
    pub within: bool,
}

pub open spec fn scan_start() -> ScanView {
    ScanView {
        in_string: false,
        escaped: false,
        depth: 0,
        string_len: 0,
        closed_string: None,
        exponent: 0,
        exponent_digits: 0,
        within: true,
    }
}

/// The whitespace that the parser skips between tokens.
pub open spec fn is_json_whitespace(b: u8) -> bool {
    b == 0x20 || b == 0x0a || b == 0x09 || b == 0x0d
}

/// A byte outside strings, with no string waiting for a colon.
pub open spec fn scan_token(s: ScanView, b: u8) -> ScanView {
    if b == 0x22 {
        ScanView { in_string: true, escaped: false, string_len: 0, exponent: 0, ..s }
    } else if b == 0x5b || b == 0x7b {
        ScanView { depth: s.depth + 1, exponent: 0, within: s.depth + 1 <= MAX_NESTING, ..s }
    } else if b == 0x5d || b == 0x7d {
        ScanView { depth: if s.depth > 0 { (s.depth - 1) as nat } else { 0 }, exponent: 0, ..s }
    } else if b == 0x65 || b == 0x45 {
        ScanView { exponent: 1, exponent_digits: 0, ..s }
    } else if (b == 0x2b || b == 0x2d) && s.exponent == 1 {
        ScanView { exponent: 2, ..s }
    } else if 0x30 <= b <= 0x39 && s.exponent >= 1 {
        ScanView {
            exponent: 3,
            exponent_digits: s.exponent_digits + 1,
            within: s.exponent_digits + 1 <= MAX_EXPONENT_DIGITS,
            ..s
        }
    } else {
        ScanView { exponent: 0, ..s }
    }
}

/// One byte of the scan.
pub open spec fn scan_step(s: ScanView, b: u8) -> ScanView {
    if !s.within {
        s
    } else if s.in_string {
        if s.escaped {
            ScanView { escaped: false, string_len: s.string_len + 1, ..s }
        } else if b == 0x5c {
            ScanView { escaped: true, string_len: s.string_len + 1, ..s }
        } else if b == 0x22 {
            ScanView { in_string: false, closed_string: Some(s.string_len), ..s }
        } else {
            ScanView { string_len: s.string_len + 1, ..s }
        }
    } else if s.closed_string is Some && is_json_whitespace(b) {
        s
    } else if s.closed_string is Some && b == 0x3a {
        ScanView {
            closed_string: None,
            exponent: 0,
            within: s.closed_string->0 <= MAX_KEY_BYTES,
            ..s
        }
    } else {
        scan_token(ScanView { closed_string: None, ..s }, b)
    }
}

/// The scan of `bytes`.
pub open spec fn scan_bytes(bytes: Seq<u8>) -> ScanView
    decreases bytes.len(),
{
    if bytes.len() == 0 {
        scan_start()
    } else {
        scan_step(scan_bytes(bytes.drop_last()), bytes.last())
    }
}

/// A text (as UTF-8 bytes) whose arrays and objects nest at most
/// `MAX_NESTING` deep, whose keys (strings followed by a colon) have at most
/// `MAX_KEY_BYTES` bytes as written, and whose exponents have at most
/// `MAX_EXPONENT_DIGITS` digits.  All bytes that the scan looks at are
/// ASCII, and no byte of a character beyond ASCII is ASCII, so the scan
/// reads the text as the parser does.
pub open spec fn within_parser_limits(bytes: Seq<u8>) -> bool {
    scan_bytes(bytes).within
}

/// An ASCII digit.
pub open spec fn is_digit(b: u8) -> bool {
    0x30 <= b <= 0x39
}

/// The letter `e` or `E`, which starts the exponent of a number.
pub open spec fn is_exponent_mark(b: u8) -> bool {
    b == 0x65 || b == 0x45
}

/// No `e` or `E` of `bytes` is followed by a digit or a sign: the numbers
/// of the text have no exponent.
pub open spec fn no_exponent_marks(bytes: Seq<u8>) -> bool {
    forall|i: int|
        0 <= i < bytes.len() - 1 && is_exponent_mark(#[trigger] bytes[i]) ==> {
            &&& !is_digit(bytes[i + 1])
            &&& bytes[i + 1] != 0x2b
            &&& bytes[i + 1] != 0x2d
        }
}

/// `bytes` with every digit turned into the letter `x`.
pub open spec fn digits_as_letters(bytes: Seq<u8>) -> Seq<u8> {
    bytes.map_values(|b: u8| if is_digit(b) { 0x78u8 } else { b })
}

proof fn lemma_scan_without_exponents(bytes: Seq<u8>)
    requires
        no_exponent_marks(bytes),
    ensures
        scan_bytes(digits_as_letters(bytes)) == scan_bytes(bytes),
        scan_bytes(bytes).exponent <= 1,
        scan_bytes(bytes).exponent_digits == 0,
        scan_bytes(bytes).in_string ==> scan_bytes(bytes).exponent == 0,
        scan_bytes(bytes).closed_string is Some ==> scan_bytes(bytes).exponent == 0,
        scan_bytes(bytes).within && scan_bytes(bytes).exponent == 1 ==> bytes.len() > 0
            && is_exponent_mark(bytes.last()),
    decreases bytes.len(),
{
    if bytes.len() > 0 {
        let p = bytes.drop_last();
        assert forall|i: int|
            0 <= i < p.len() - 1 && is_exponent_mark(#[trigger] p[i]) implies {
                &&& !is_digit(p[i + 1])
                &&& p[i + 1] != 0x2b
                &&& p[i + 1] != 0x2d
            } by {
            assert(p[i] == bytes[i]);
            assert(p[i + 1] == bytes[i + 1]);
        }
        lemma_scan_without_exponents(p);
        assert(digits_as_letters(bytes).drop_last() =~= digits_as_letters(p));
        assert(digits_as_letters(bytes).last() == (if is_digit(bytes.last()) {
            0x78u8
        } else {
            bytes.last()
        }));
        if scan_bytes(p).within && scan_bytes(p).exponent == 1 {
            assert(bytes[p.len() - 1] == p.last());
            assert(is_exponent_mark(bytes[p.len() - 1]));
        }
    }
}

/// Digits count toward the limits only in the exponent of a number.  In a
/// text whose numbers have no exponent, no digit is ever counted as an
/// exponent digit, and turning every digit into a letter changes nothing of
/// whether the text is within the limits: such a text is within them
/// exactly when its nesting and its keys are, however long its integers.
pub proof fn lemma_plain_numbers_count_toward_no_limit(bytes: Seq<u8>)
    requires
        no_exponent_marks(bytes),
    ensures
        within_parser_limits(digits_as_letters(bytes)) == within_parser_limits(bytes),
        forall|k: int| 0 <= k <= bytes.len() ==> #[trigger] scan_bytes(bytes.take(k)).exponent_digits == 0,
{
    lemma_scan_without_exponents(bytes);
    assert forall|k: int| 0 <= k <= bytes.len() implies #[trigger] scan_bytes(bytes.take(k)).exponent_digits
        == 0 by {
        let q = bytes.take(k);
        assert forall|i: int|
            0 <= i < q.len() - 1 && is_exponent_mark(#[trigger] q[i]) implies {
                &&& !is_digit(q[i + 1])
                &&& q[i + 1] != 0x2b
                &&& q[i + 1] != 0x2d
            } by {
            assert(q[i] == bytes[i]);
            assert(q[i + 1] == bytes[i + 1]);
        }
        lemma_scan_without_exponents(q);
    }
}

/// Where a scan stands.
struct Scan {
    in_string: bool,
    escaped: bool,
    depth: usize,
    string_len: usize,
    closed_string: Option<usize>,
    exponent: u8,
    exponent_digits: usize,
    within: bool,
}

impl View for Scan {
    type V = ScanView;

    closed spec fn view(&self) -> ScanView {
        ScanView {
            in_string: self.in_string,
            escaped: self.escaped,
            depth: self.depth as nat,
            string_len: self.string_len as nat,
            closed_string: match self.closed_string {
                Some(n) => Some(n as nat),
                None => None,
            },
            exponent: self.exponent as nat,
            exponent_digits: self.exponent_digits as nat,
            within: self.within,
        }
    }
}

impl Scan {
    spec fn bounded_by(&self, n: nat) -> bool {
        &&& self.depth <= n
        &&& self.string_len <= n
        &&& self.exponent_digits <= n
        &&& self.exponent <= 3
    }

    fn token(&self, b: u8) -> (r: Scan)
        requires
            self.depth < usize::MAX,
            self.exponent_digits < usize::MAX,
        ensures
            r@ == scan_token(self@, b),
    {
        let mut r = Scan { ..*self };
        if b == 0x22 {
            r.in_string = true;
            r.escaped = false;
            r.string_len = 0;
            r.exponent = 0;
        } else if b == 0x5b || b == 0x7b {
            r.depth = self.depth + 1;
            r.exponent = 0;
            r.within = self.depth + 1 <= MAX_NESTING;
        } else if b == 0x5d || b == 0x7d {
            r.depth = if self.depth > 0 { self.depth - 1 } else { 0 };
            r.exponent = 0;
        } else if b == 0x65 || b == 0x45 {
            r.exponent = 1;
            r.exponent_digits = 0;
        } else if (b == 0x2b || b == 0x2d) && self.exponent == 1 {
            r.exponent = 2;
        } else if 0x30 <= b && b <= 0x39 && self.exponent >= 1 {
            r.exponent = 3;
            r.exponent_digits = self.exponent_digits + 1;
            r.within = self.exponent_digits + 1 <= MAX_EXPONENT_DIGITS;
        } else {
            r.exponent = 0;
        }
        r
    }

    fn step(&self, b: u8) -> (r: Scan)
        requires
            self.depth < usize::MAX,
            self.string_len < usize::MAX,
            self.exponent_digits < usize::MAX,
        ensures
            r@ == scan_step(self@, b),
    {
        if !self.within {
            Scan { ..*self }
        } else if self.in_string {
            if self.escaped {
                Scan { escaped: false, string_len: self.string_len + 1, ..*self }
            } else if b == 0x5c {
                Scan { escaped: true, string_len: self.string_len + 1, ..*self }
            } else if b == 0x22 {
                Scan { in_string: false, closed_string: Some(self.string_len), ..*self }
            } else {
                Scan { string_len: self.string_len + 1, ..*self }
            }
        } else {
            match self.closed_string {
                Some(n) => {
                    if b == 0x20 || b == 0x0a || b == 0x09 || b == 0x0d {
                        Scan { ..*self }
                    } else if b == 0x3a {
                        Scan { closed_string: None, exponent: 0, within: n <= MAX_KEY_BYTES, ..*self }
                    } else {
                        Scan { closed_string: None, ..*self }.token(b)
                    }
                },
                None => self.token(b),
            }
        }
    }
}

/// Whether `text` is within the limits of `within_parser_limits`.
pub fn text_within_parser_limits(text: &str) -> (r: bool)
    ensures
        r == within_parser_limits(vstd::utf8::encode_utf8(text@)),
{
    let bytes = text.as_bytes();
    let mut s = Scan {
        in_string: false,
        escaped: false,
        depth: 0,
        string_len: 0,
        closed_string: None,
        exponent: 0,
        exponent_digits: 0,
        within: true,
    };
    let mut i: usize = 0;
    assert(bytes@.take(0) =~= Seq::<u8>::empty());
    while i < bytes.len()
        invariant
            bytes@ == vstd::utf8::encode_utf8(text@),
            i <= bytes.len(),
            s@ == scan_bytes(bytes@.take(i as int)),
            s.bounded_by(i as nat),
            s.closed_string matches Some(n) ==> n <= i,
        decreases bytes.len() - i,
    {
        assert(bytes@.take(i + 1).drop_last() =~= bytes@.take(i as int));
        assert(bytes@.take(i + 1).last() == bytes@[i as int]);
        s = s.step(bytes[i]);
        i = i + 1;
    }
    assert(bytes@.take(bytes.len() as int) =~= bytes@);
    s.within
}

/// Parses `text` with `rustc_serialize::json::Json::from_str`.  The result
/// is a function of the text alone, named `parsed_json`; what that function
/// is (the JSON grammar) is not stated here.
///
/// The text must be within `within_parser_limits`: the parser recurses once
/// per level of nesting, keeps the offsets and lengths of the keys it is in
/// as `u16` (so their bytes, at most 4 per byte of the key as written, must
/// add up to less than 65536), and adds up an exponent's digits in a `usize`
/// unchecked.
#[verifier::external_body]
fn parse_with_rustc_serialize(text: &str) -> (r: Option<JsonValue>)
    requires
        within_parser_limits(vstd::utf8::encode_utf8(text@)),
    ensures
        r == parsed_json(text@),
{
    match rustc_serialize::json::Json::from_str(text) {
        Ok(json) => Some(from_outside(&json)),
        Err(_) => None,
    }
}

/// Parses a body that an API answered with; `None` if it is not JSON, or
/// if it goes beyond the limits of `within_parser_limits`.
pub fn parse_json(body: &String) -> (r: Option<JsonValue>)
    ensures
        r == if within_parser_limits(vstd::utf8::encode_utf8(body@)) {
            parsed_json(body@)
        } else {
            None
        },
{
    let text = body.as_str();
    if text_within_parser_limits(text) {
        parse_with_rustc_serialize(text)
    } else {
        None
    }
}

/// A document that lists records: an array of objects, or an empty string,
/// which stands for a failed request and lists nothing.
pub open spec fn is_listing(doc: JsonValue) -> bool {
    match doc {
        JsonValue::Text(s) => s@ == Seq::<char>::empty(),
        JsonValue::Array(items) => forall|i: int| 0 <= i < items@.len() ==> (#[trigger] items@[i]) is Object,
        _ => false,
    }
}

/// The members of an object (none for another value).
pub open spec fn members(v: JsonValue) -> Seq<(String, JsonValue)> {
    match v {
        JsonValue::Object(m) => m@,
        _ => Seq::empty(),
    }
}

/// The objects that a listing lists, each as its members.
pub open spec fn listed(doc: JsonValue) -> Seq<Seq<(String, JsonValue)>> {
    match doc {
        JsonValue::Array(items) => items@.map_values(|v: JsonValue| members(v)),
        _ => Seq::empty(),
    }
}

/// The text that a member's value stands for in a record: an unsigned
/// integer in decimal, a boolean as `true` or `false`, a string as itself,
/// an object or array as `object` or `array`, anything else as nothing.
pub open spec fn cleaned(v: JsonValue) -> Seq<char> {
    match v {
        JsonValue::U64(n) => decimal(n as nat),
        JsonValue::Boolean(b) => if b {
            "true"@
        } else {
            "false"@
        },
        JsonValue::Text(s) => s@,
        JsonValue::Object(_) => "object"@,
        JsonValue::Array(_) => "array"@,
        _ => Seq::empty(),
    }
}

/// The text of the last member of `entries` with key `key` (nothing if
/// there is none): the members are read in order, each later one with the
/// key overriding the earlier.
pub open spec fn member_text(entries: Seq<(String, JsonValue)>, key: Seq<char>) -> Seq<char>
    decreases entries.len(),
{
    if entries.len() == 0 {
        Seq::empty()
    } else if entries.last().0@ == key {
        cleaned(entries.last().1)
    } else {
        member_text(entries.drop_last(), key)
    }
}

impl JsonValue {
    /// Whether the document is a listing (see `is_listing`).
    pub fn is_listing(&self) -> (r: bool)
        ensures
            r == is_listing(*self),
    {
        match self {
            JsonValue::Text(s) => {
                let n = s.as_str().unicode_len();
                if n == 0 {
                    assert(s@ =~= Seq::<char>::empty());
                    true
                } else {
                    false
                }
            },
            JsonValue::Array(items) => {
                let mut i: usize = 0;
                while i < items.len()
                    invariant
                        *self == JsonValue::Array(*items),
                        i <= items.len(),
                        forall|j: int| 0 <= j < i ==> (#[trigger] items@[j]) is Object,
                    decreases items.len() - i,
                {
                    match &items[i] {
                        JsonValue::Object(_) => {},
                        _ => {
                            assert(!(items@[i as int] is Object));
                            return false;
                        },
                    }
                    i = i + 1;
                }
                true
            },
            _ => false,
        }
    }
}

/// The text that `v` stands for in a record.
pub fn cleaned_text(v: &JsonValue) -> (r: String)
    ensures
        r@ == cleaned(*v),
{
    match v {
        JsonValue::U64(n) => decimal_string(*n),
        JsonValue::Boolean(b) => if *b {
            String::from_str("true")
        } else {
            String::from_str("false")
        },
        JsonValue::Text(s) => s.clone(),
        JsonValue::Object(_) => String::from_str("object"),
        JsonValue::Array(_) => String::from_str("array"),
        _ => String::new(),
    }
}

/// The text of the last member of `entries` with key `key`.
pub fn member_text_of(entries: &Vec<(String, JsonValue)>, key: &String) -> (r: String)
    ensures
        r@ == member_text(entries@, key@),
{
    let mut text = String::new();
    let mut i: usize = 0;
    assert(entries@.take(0) =~= Seq::<(String, JsonValue)>::empty());
    while i < entries.len()
        invariant
            i <= entries.len(),
            text@ == member_text(entries@.take(i as int), key@),
        decreases entries.len() - i,
    {
        assert(entries@.take(i + 1).drop_last() =~= entries@.take(i as int));
        assert(entries@.take(i + 1).last() == entries@[i as int]);
        if entries[i].0 == *key {
            text = cleaned_text(&entries[i].1);
        }
        i = i + 1;
    }
    assert(entries@.take(entries.len() as int) =~= entries@);
    text
}

} // verus!
