//! Header names, header values and header maps.
//!
//! [`FieldName`] and [`FieldValue`] hold a header name and a header value as
//! plain text and bytes. [`http::HeaderMap`] stays the map that the proxy
//! keeps headers in; the functions below are the operations on it that the
//! proxy uses, stated over [`header_fields`].

use vstd::prelude::*;
use vstd::utf8;

use crate::text;

verus! {

// -----------------------------------------------------------------------------
// Outside types
// -----------------------------------------------------------------------------

#[verifier::external_type_specification]
#[verifier::external_body]
pub struct ExHttpHeaderValue(http::HeaderValue);

#[verifier::external_type_specification]
#[verifier::external_body]
#[verifier::reject_recursive_types(T)]
pub struct ExHttpHeaderMap<T>(http::HeaderMap<T>);

// -----------------------------------------------------------------------------
// Model
// -----------------------------------------------------------------------------

/// A header value: its bytes, and whether it is marked sensitive.
pub type ValueModel = (Seq<u8>, bool);

/// The headers of a map: each name with its values, in the order in which they
/// were added.
pub type Fields = Map<Seq<char>, Seq<ValueModel>>;

/// What a header map holds.
pub uninterp spec fn header_fields(headers: http::HeaderMap) -> Map<
    Seq<char>,
    Seq<(Seq<u8>, bool)>,
>;

/// The most distinct names that a header map can hold for an insertion into it
/// to be sure to succeed.
///
/// With more, an insertion can fail on the map's internal size limit, even
/// where the name is there already.
pub const MAX_FIELD_NAMES: usize = 6_553;

/// Whether an insertion into a map with these headers is sure to succeed.
pub open spec fn has_room(fields: Fields) -> bool {
    &&& fields.dom().finite()
    &&& fields.dom().len() <= MAX_FIELD_NAMES
}

/// The texts of a list of strings.
pub open spec fn texts(list: Seq<String>) -> Seq<Seq<char>> {
    list.map_values(|s: String| s@)
}

/// Every value under `name` removed.
pub open spec fn without(fields: Fields, name: Seq<char>) -> Fields {
    fields.remove(name)
}

/// The values under `name` replaced by `value` alone.
pub open spec fn with_only(fields: Fields, name: Seq<char>, value: ValueModel) -> Fields {
    fields.insert(name, seq![value])
}

/// `value` added after the values under `name`.
pub open spec fn with_also(fields: Fields, name: Seq<char>, value: ValueModel) -> Fields {
    fields.insert(name, values_of(fields, name).push(value))
}

/// The values under `name`; none where the name is absent.
pub open spec fn values_of(fields: Fields, name: Seq<char>) -> Seq<ValueModel> {
    if fields.dom().contains(name) {
        fields[name]
    } else {
        Seq::empty()
    }
}

/// Characters that a normalized header name is made of.
pub open spec fn is_name_char(c: char) -> bool {
    ||| 'a' <= c <= 'z'
    ||| '0' <= c <= '9'
    ||| c == '!' || c == '"' || c == '#' || c == '$' || c == '%' || c == '&' || c == '\''
    ||| c == '*' || c == '+' || c == '-' || c == '.' || c == '^' || c == '_' || c == '`'
    ||| c == '|' || c == '~'
}

/// Whether `text` is a normalized (lower-case) header name.
pub open spec fn is_header_name(text: Seq<char>) -> bool {
    &&& 1 <= text.len() <= 65_535
    &&& forall|i: int| 0 <= i < text.len() ==> is_name_char(#[trigger] text[i])
}

/// The text of which each byte is one character.
pub open spec fn byte_text(bytes: Seq<u8>) -> Seq<char> {
    Seq::new(bytes.len(), |i: int| bytes[i] as char)
}

/// Bytes that a header name may be written with.
pub open spec fn is_token_byte(b: u8) -> bool {
    ||| 0x41 <= b <= 0x5a
    ||| b != 0x22 && is_name_char(b as char)
}

/// The character that a byte of a header name is normalized to.
pub open spec fn lower_byte(b: u8) -> char {
    if 0x41 <= b <= 0x5a {
        (b + 0x20) as char
    } else {
        b as char
    }
}

/// The normalized name written as `src`, where `src` is a header name at all.
pub open spec fn parsed_name(src: Seq<u8>) -> Option<Seq<char>> {
    if 1 <= src.len() <= 65_535 && (forall|i: int|
        0 <= i < src.len() ==> is_token_byte(#[trigger] src[i])) {
        Some(Seq::new(src.len(), |i: int| lower_byte(src[i])))
    } else {
        None
    }
}

/// Whether `b` may stand in a header value.
pub open spec fn is_value_byte(b: u8) -> bool {
    b >= 32 && b != 127 || b == 9
}

/// Whether `bytes` are those of a header value.
pub open spec fn is_header_value(bytes: Seq<u8>) -> bool {
    forall|i: int| 0 <= i < bytes.len() ==> is_value_byte(#[trigger] bytes[i])
}

/// Whether `b` is a tab, a space or a visible ASCII character.
pub open spec fn is_visible_byte(b: u8) -> bool {
    32 <= b < 127 || b == 9
}

/// The text of a header value, where all of it is visible ASCII.
pub open spec fn visible_text(bytes: Seq<u8>) -> Option<Seq<char>> {
    if forall|i: int| 0 <= i < bytes.len() ==> is_visible_byte(#[trigger] bytes[i]) {
        Some(Seq::new(bytes.len(), |i: int| bytes[i] as char))
    } else {
        None
    }
}

/// Whether `name` is made of lower-case letters, digits and dashes, as the
/// names that the proxy itself looks up are.
pub open spec fn is_plain_name(name: Seq<char>) -> bool {
    &&& 1 <= name.len() <= 64
    &&& forall|i: int|
        0 <= i < name.len() ==> ('a' <= #[trigger] name[i] <= 'z' || '0' <= name[i] <= '9'
            || name[i] == '-')
}

// -----------------------------------------------------------------------------
// FieldName
// -----------------------------------------------------------------------------

/// The error of text that is not a header name.
#[derive(Clone, Copy, Debug, PartialEq, Eq, Structural)]
pub struct InvalidFieldName;

/// A normalized header name.
#[derive(Debug)]
pub struct FieldName {
    text: String,
}

impl View for FieldName {
    type V = Seq<char>;

    closed spec fn view(&self) -> Seq<char> {
        self.text@
    }
}

impl FieldName {
    #[verifier::type_invariant]
    spec fn well_formed(self) -> bool {
        is_header_name(self.text@)
    }

    /// Normalizes `src` to a header name.
    pub fn from_bytes(src: &[u8]) -> (res: Result<FieldName, InvalidFieldName>)
        ensures
            match parsed_name(src@) {
                Some(text) => res matches Ok(name) && name@ == text,
                None => res == Err::<FieldName, InvalidFieldName>(InvalidFieldName),
            },
    {
        match name_from_bytes(src) {
            Some(text) => {
                proof {
                    assert forall|i: int| 0 <= i < text@.len() implies is_name_char(
                        #[trigger] text@[i],
                    ) by {
                        assert(is_token_byte(src@[i]));
                    }
                }
                Ok(FieldName { text })
            },
            None => Err(InvalidFieldName),
        }
    }

    /// The header name with the bytes `src`, which have to be normalized already.
    pub fn from_lowercase(src: &[u8]) -> (res: Result<FieldName, InvalidFieldName>)
        ensures
            if is_header_name(byte_text(src@)) {
                res matches Ok(name) && name@ == byte_text(src@)
            } else {
                res == Err::<FieldName, InvalidFieldName>(InvalidFieldName)
            },
    {
        match name_from_lowercase(src) {
            Some(text) => Ok(FieldName { text }),
            None => Err(InvalidFieldName),
        }
    }

    /// The header name written as `src`, which is normalized already.
    pub fn from_static(src: &'static str) -> (res: FieldName)
        requires
            is_header_name(src@),
        ensures
            res@ == src@,
    {
        FieldName { text: src.to_owned() }
    }

    /// The name as text.
    pub fn as_str(&self) -> (res: &str)
        ensures
            res@ == self@,
            is_header_name(res@),
    {
        proof {
            use_type_invariant(self);
        }
        self.text.as_str()
    }
}

impl Clone for FieldName {
    fn clone(&self) -> (res: FieldName)
        ensures
            res@ == self@,
    {
        proof {
            use_type_invariant(self);
        }
        FieldName { text: self.text.clone() }
    }
}

/// Calls [`http::HeaderName::from_lowercase`], and claims of it that it accepts
/// the bytes of a normalized header name, and keeps them.
#[verifier::external_body]
fn name_from_lowercase(src: &[u8]) -> (res: Option<String>)
    ensures
        if is_header_name(byte_text(src@)) {
            res matches Some(s) && s@ == byte_text(src@)
        } else {
            res is None
        },
{
    http::HeaderName::from_lowercase(src).ok().map(|name| name.as_str().to_owned())
}

/// Calls [`http::HeaderName::from_bytes`], and claims of it that it accepts
/// the bytes of a non-empty token of at most 65535 bytes, and lower-cases them.
#[verifier::external_body]
fn name_from_bytes(src: &[u8]) -> (res: Option<String>)
    ensures
        match parsed_name(src@) {
            Some(text) => res matches Some(s) && s@ == text,
            None => res is None,
        },
{
    http::HeaderName::from_bytes(src).ok().map(|name| name.as_str().to_owned())
}

// -----------------------------------------------------------------------------
// FieldValue
// -----------------------------------------------------------------------------

/// The error of text that is not a header value.
#[derive(Clone, Copy, Debug, PartialEq, Eq, Structural)]
pub struct InvalidFieldValue;

/// The error of a header value that is not all visible ASCII.
#[derive(Clone, Copy, Debug, PartialEq, Eq, Structural)]
pub struct ToStrError;

/// A header value.
#[derive(Debug)]
pub struct FieldValue {
    bytes: Vec<u8>,
    sensitive: bool,
}

impl View for FieldValue {
    type V = ValueModel;

    closed spec fn view(&self) -> ValueModel {
        (self.bytes@, self.sensitive)
    }
}

impl FieldValue {
    #[verifier::type_invariant]
    spec fn well_formed(self) -> bool {
        is_header_value(self.bytes@)
    }

    /// The header value with the bytes `src`.
    pub fn from_bytes(src: &[u8]) -> (res: Result<FieldValue, InvalidFieldValue>)
        ensures
            if is_header_value(src@) {
                res matches Ok(value) && value@ == (src@, false)
            } else {
                res == Err::<FieldValue, InvalidFieldValue>(InvalidFieldValue)
            },
    {
        match value_from_bytes(src) {
            Some(bytes) => Ok(FieldValue { bytes, sensitive: false }),
            None => Err(InvalidFieldValue),
        }
    }

    /// The header value that `src` is the text of.
    pub fn from_str(src: &str) -> (res: Result<FieldValue, InvalidFieldValue>)
        ensures
            if is_header_value(utf8::encode_utf8(src@)) {
                res matches Ok(value) && value@ == (utf8::encode_utf8(src@), false)
            } else {
                res == Err::<FieldValue, InvalidFieldValue>(InvalidFieldValue)
            },
    {
        match value_from_str(src) {
            Some(bytes) => Ok(FieldValue { bytes, sensitive: false }),
            None => Err(InvalidFieldValue),
        }
    }

    /// The value, marked as sensitive or not.
    pub fn with_sensitive(self, sensitive: bool) -> (res: FieldValue)
        ensures
            res@ == (self@.0, sensitive),
    {
        proof {
            use_type_invariant(&self);
        }
        FieldValue { bytes: self.bytes, sensitive }
    }

    /// The bytes of the value.
    pub fn as_bytes(&self) -> (res: &[u8])
        ensures
            res@ == self@.0,
    {
        self.bytes.as_slice()
    }

    /// Whether the value is marked sensitive.
    pub fn is_sensitive(&self) -> (res: bool)
        ensures
            res == self@.1,
    {
        self.sensitive
    }

    /// The text of the value, where all of it is visible ASCII.
    pub fn to_str(&self) -> (res: Result<String, ToStrError>)
        ensures
            match visible_text(self@.0) {
                Some(text) => res matches Ok(s) && s@ == text,
                None => res == Err::<String, ToStrError>(ToStrError),
            },
    {
        proof {
            use_type_invariant(self);
        }
        match value_to_str(self.bytes.as_slice()) {
            Some(text) => Ok(text),
            None => Err(ToStrError),
        }
    }
}

impl Clone for FieldValue {
    fn clone(&self) -> (res: FieldValue)
        ensures
            res@ == self@,
    {
        proof {
            use_type_invariant(self);
        }
        let bytes = self.bytes.clone();
        assert(bytes@ =~= self.bytes@);
        FieldValue { bytes, sensitive: self.sensitive }
    }
}

/// Calls [`http::HeaderValue::from_bytes`], and claims of it that it accepts
/// bytes that are all 32 or more and not 127, or a tab, and keeps them.
#[verifier::external_body]
fn value_from_bytes(src: &[u8]) -> (res: Option<Vec<u8>>)
    ensures
        if is_header_value(src@) {
            res matches Some(bytes) && bytes@ == src@
        } else {
            res is None
        },
{
    http::HeaderValue::from_bytes(src).ok().map(|value| value.as_bytes().to_vec())
}

/// Calls [`http::HeaderValue::from_str`], and claims of it that it accepts the
/// text whose UTF-8 bytes are all 32 or more and not 127, or a tab, and keeps
/// those bytes.
#[verifier::external_body]
fn value_from_str(src: &str) -> (res: Option<Vec<u8>>)
    ensures
        if is_header_value(utf8::encode_utf8(src@)) {
            res matches Some(bytes) && bytes@ == utf8::encode_utf8(src@)
        } else {
            res is None
        },
{
    http::HeaderValue::from_str(src).ok().map(|value| value.as_bytes().to_vec())
}

/// Calls [`http::HeaderValue::to_str`] on the value with these bytes, and
/// claims of it that it gives the text where every byte is visible ASCII, a
/// space or a tab, and fails elsewhere.
#[verifier::external_body]
fn value_to_str(bytes: &[u8]) -> (res: Option<String>)
    requires
        is_header_value(bytes@),
    ensures
        match visible_text(bytes@) {
            Some(text) => res matches Some(s) && s@ == text,
            None => res is None,
        },
{
    let value = http::HeaderValue::from_bytes(bytes).ok()?;
    value.to_str().ok().map(|text| text.to_owned())
}

// -----------------------------------------------------------------------------
// Header maps
// -----------------------------------------------------------------------------

/// Calls [`http::HeaderMap::keys`], and claims of it that it visits every name
/// of the map, each once. The order is left open.
#[verifier::external_body]
pub(crate) fn map_keys(headers: &http::HeaderMap) -> (res: Vec<String>)
    ensures
        texts(res@).no_duplicates(),
        texts(res@).to_set() == header_fields(*headers).dom(),
{
    headers.keys().map(|name| name.as_str().to_owned()).collect()
}

/// Calls [`http::HeaderMap::get`], and claims of it that it gives the first
/// value under the name, and nothing where the name is absent.
#[verifier::external_body]
pub(crate) fn map_get(headers: &http::HeaderMap, name: &str) -> (res: Option<FieldValue>)
    requires
        is_plain_name(name@),
    ensures
        match res {
            Some(value) => {
                &&& header_fields(*headers).dom().contains(name@)
                &&& header_fields(*headers)[name@].len() > 0
                &&& value@ == header_fields(*headers)[name@][0]
            },
            None => !header_fields(*headers).dom().contains(name@),
        },
{
    headers.get(name).map(|value| FieldValue {
        bytes: value.as_bytes().to_vec(),
        sensitive: value.is_sensitive(),
    })
}

/// The text of the first value under `name`, where there is one and all of it
/// is visible ASCII.
pub open spec fn first_text(fields: Fields, name: Seq<char>) -> Option<Seq<char>> {
    if fields.dom().contains(name) {
        visible_text(fields[name][0].0)
    } else {
        None
    }
}

/// The text of the first value under `name`, where it has one.
pub fn get_text(headers: &http::HeaderMap, name: &str) -> (res: Option<String>)
    requires
        is_plain_name(name@),
    ensures
        text::text_of(res) == first_text(header_fields(*headers), name@),
{
    match map_get(headers, name) {
        Some(value) => match value.to_str() {
            Ok(text) => Some(text),
            Err(_) => None,
        },
        None => None,
    }
}

/// Calls [`http::HeaderMap::get_all`], and claims of it that it gives the
/// values under the name in the order in which they were added, and none where
/// the name is absent.
#[verifier::external_body]
pub(crate) fn map_get_all(headers: &http::HeaderMap, name: &str) -> (res: Vec<FieldValue>)
    requires
        is_plain_name(name@),
    ensures
        res@.len() == values_of(header_fields(*headers), name@).len(),
        forall|i: int|
            0 <= i < res@.len() ==> #[trigger] res@[i]@ == values_of(
                header_fields(*headers),
                name@,
            )[i],
{
    headers.get_all(name).iter().map(|value| FieldValue {
        bytes: value.as_bytes().to_vec(),
        sensitive: value.is_sensitive(),
    }).collect()
}

/// Calls [`http::HeaderMap::remove`], and claims of it that it removes every
/// value under the name and leaves the others.
#[verifier::external_body]
pub(crate) fn map_remove(headers: &mut http::HeaderMap, name: &FieldName)
    ensures
        header_fields(*final(headers)) == without(header_fields(*old(headers)), name@),
{
    let name = http::HeaderName::from_lowercase(name.text.as_bytes()).unwrap();
    let _removed = headers.remove(&name);
}

/// Calls [`http::HeaderMap::insert`], and claims of it that it replaces the
/// values under the name by the one given and leaves the others. It panics
/// where the map cannot grow, which a map with room never comes to.
#[verifier::external_body]
pub(crate) fn map_insert(headers: &mut http::HeaderMap, name: &FieldName, value: &FieldValue)
    requires
        has_room(header_fields(*old(headers))),
    ensures
        header_fields(*final(headers)) == with_only(header_fields(*old(headers)), name@, value@),
{
    let name = http::HeaderName::from_lowercase(name.text.as_bytes()).unwrap();
    let mut stored = http::HeaderValue::from_bytes(&value.bytes).unwrap();
    stored.set_sensitive(value.sensitive);
    let _replaced = headers.insert(name, stored);
}

/// Calls [`http::HeaderMap::append`], and claims of it that it adds the value
/// after those under the name and leaves the others. It panics where the map
/// cannot grow, which a map with room never comes to.
#[verifier::external_body]
pub(crate) fn map_append(headers: &mut http::HeaderMap, name: &FieldName, value: &FieldValue)
    requires
        has_room(header_fields(*old(headers))),
    ensures
        header_fields(*final(headers)) == with_also(header_fields(*old(headers)), name@, value@),
{
    let name = http::HeaderName::from_lowercase(name.text.as_bytes()).unwrap();
    let mut stored = http::HeaderValue::from_bytes(&value.bytes).unwrap();
    stored.set_sensitive(value.sensitive);
    let _present = headers.append(name, stored);
}

// -----------------------------------------------------------------------------
// Laws
// -----------------------------------------------------------------------------

/// A header name is written with the characters of a token, letters in either
/// case, and is made of those in lower case; only a name that is made of them
/// already can hold a double quote.
pub proof fn names_are_tokens(c: char, b: u8)
    ensures
        is_name_char(c)
            <==> "!#$%&'*+-.^_`|~0123456789abcdefghijklmnopqrstuvwxyz\""@.contains(c),
        is_token_byte(b)
            <==> "!#$%&'*+-.^_`|~0123456789abcdefghijklmnopqrstuvwxyz"@.contains(b as char)
            || "ABCDEFGHIJKLMNOPQRSTUVWXYZ"@.contains(b as char),
        lower_byte(b) == text::ascii_lower(b as char),
{
    reveal_strlit("!#$%&'*+-.^_`|~0123456789abcdefghijklmnopqrstuvwxyz\"");
    reveal_strlit("!#$%&'*+-.^_`|~0123456789abcdefghijklmnopqrstuvwxyz");
    reveal_strlit("ABCDEFGHIJKLMNOPQRSTUVWXYZ");
    let name = "!#$%&'*+-.^_`|~0123456789abcdefghijklmnopqrstuvwxyz\""@;
    let token = "!#$%&'*+-.^_`|~0123456789abcdefghijklmnopqrstuvwxyz"@;
    let upper = "ABCDEFGHIJKLMNOPQRSTUVWXYZ"@;
    assert(name[0] == '!' && name[1] == '#' && name[2] == '$' && name[3] == '%');
    assert(name[4] == '&' && name[5] == '\'' && name[6] == '*' && name[7] == '+');
    assert(name[8] == '-' && name[9] == '.' && name[10] == '^' && name[11] == '_');
    assert(name[12] == '`' && name[13] == '|' && name[14] == '~' && name[15] == '0');
    assert(name[16] == '1' && name[17] == '2' && name[18] == '3' && name[19] == '4');
    assert(name[20] == '5' && name[21] == '6' && name[22] == '7' && name[23] == '8');
    assert(name[24] == '9' && name[25] == 'a' && name[26] == 'b' && name[27] == 'c');
    assert(name[28] == 'd' && name[29] == 'e' && name[30] == 'f' && name[31] == 'g');
    assert(name[32] == 'h' && name[33] == 'i' && name[34] == 'j' && name[35] == 'k');
    assert(name[36] == 'l' && name[37] == 'm' && name[38] == 'n' && name[39] == 'o');
    assert(name[40] == 'p' && name[41] == 'q' && name[42] == 'r' && name[43] == 's');
    assert(name[44] == 't' && name[45] == 'u' && name[46] == 'v' && name[47] == 'w');
    assert(name[48] == 'x' && name[49] == 'y' && name[50] == 'z' && name[51] == '"');
    assert(token[0] == '!' && token[1] == '#' && token[2] == '$' && token[3] == '%');
    assert(token[4] == '&' && token[5] == '\'' && token[6] == '*' && token[7] == '+');
    assert(token[8] == '-' && token[9] == '.' && token[10] == '^' && token[11] == '_');
    assert(token[12] == '`' && token[13] == '|' && token[14] == '~' && token[15] == '0');
    assert(token[16] == '1' && token[17] == '2' && token[18] == '3' && token[19] == '4');
    assert(token[20] == '5' && token[21] == '6' && token[22] == '7' && token[23] == '8');
    assert(token[24] == '9' && token[25] == 'a' && token[26] == 'b' && token[27] == 'c');
    assert(token[28] == 'd' && token[29] == 'e' && token[30] == 'f' && token[31] == 'g');
    assert(token[32] == 'h' && token[33] == 'i' && token[34] == 'j' && token[35] == 'k');
    assert(token[36] == 'l' && token[37] == 'm' && token[38] == 'n' && token[39] == 'o');
    assert(token[40] == 'p' && token[41] == 'q' && token[42] == 'r' && token[43] == 's');
    assert(token[44] == 't' && token[45] == 'u' && token[46] == 'v' && token[47] == 'w');
    assert(token[48] == 'x' && token[49] == 'y' && token[50] == 'z');
    assert(upper[0] == 'A' && upper[1] == 'B' && upper[2] == 'C' && upper[3] == 'D');
    assert(upper[4] == 'E' && upper[5] == 'F' && upper[6] == 'G' && upper[7] == 'H');
    assert(upper[8] == 'I' && upper[9] == 'J' && upper[10] == 'K' && upper[11] == 'L');
    assert(upper[12] == 'M' && upper[13] == 'N' && upper[14] == 'O' && upper[15] == 'P');
    assert(upper[16] == 'Q' && upper[17] == 'R' && upper[18] == 'S' && upper[19] == 'T');
    assert(upper[20] == 'U' && upper[21] == 'V' && upper[22] == 'W' && upper[23] == 'X');
    assert(upper[24] == 'Y' && upper[25] == 'Z');
}

/// A name is read exactly where it has 1 to 65535 bytes and all of them are
/// those of a token, and it is read in lower case, byte for byte.
pub proof fn names_are_read_in_lower_case(src: Seq<u8>)
    ensures
        parsed_name(src) is Some <==> 1 <= src.len() <= 65_535 && forall|i: int|
            0 <= i < src.len()
                ==> "!#$%&'*+-.^_`|~0123456789abcdefghijklmnopqrstuvwxyz"@.contains(
                (#[trigger] src[i]) as char,
            ) || "ABCDEFGHIJKLMNOPQRSTUVWXYZ"@.contains(src[i] as char),
        parsed_name(src) matches Some(name) ==> name.len() == src.len() && forall|i: int|
            0 <= i < src.len() ==> #[trigger] name[i] == text::ascii_lower(src[i] as char),
{
    assert forall|b: u8| #[trigger] is_token_byte(b)
        == ("!#$%&'*+-.^_`|~0123456789abcdefghijklmnopqrstuvwxyz"@.contains(b as char)
        || "ABCDEFGHIJKLMNOPQRSTUVWXYZ"@.contains(b as char)) && lower_byte(b) == text::ascii_lower(
        b as char,
    ) by {
        names_are_tokens('a', b);
    }
    if forall|i: int|
        0 <= i < src.len() ==> "!#$%&'*+-.^_`|~0123456789abcdefghijklmnopqrstuvwxyz"@.contains(
            (#[trigger] src[i]) as char,
        ) || "ABCDEFGHIJKLMNOPQRSTUVWXYZ"@.contains(src[i] as char) {
        assert forall|i: int| 0 <= i < src.len() implies is_token_byte(#[trigger] src[i]) by {}
    }
    if parsed_name(src) is Some {
        assert forall|i: int| 0 <= i < src.len() implies
            "!#$%&'*+-.^_`|~0123456789abcdefghijklmnopqrstuvwxyz"@.contains(
            (#[trigger] src[i]) as char,
        ) || "ABCDEFGHIJKLMNOPQRSTUVWXYZ"@.contains(src[i] as char) by {
            assert(is_token_byte(src[i]));
        }
        assert forall|i: int| 0 <= i < src.len() implies #[trigger] parsed_name(src).unwrap()[i]
            == text::ascii_lower(src[i] as char) by {
            assert(is_token_byte(src[i]));
        }
    }
}

proof fn scalar_bytes(c: u32)
    ensures
        c <= 0x7f ==> utf8::encode_scalar(c) == seq![c as u8],
        c > 0x7f ==> forall|i: int|
            0 <= i < utf8::encode_scalar(c).len() ==> #[trigger] utf8::encode_scalar(c)[i] >= 128,
{
    if c <= 0x7f {
        assert((c & 0x7f) as u8 == c as u8) by (bit_vector)
            requires
                c <= 0x7f,
        ;
    }
    assert(utf8::leading_byte_width_2(c) >= 128) by (bit_vector);
    assert(utf8::leading_byte_width_3(c) >= 128) by (bit_vector);
    assert(utf8::leading_byte_width_4(c) >= 128) by (bit_vector);
    assert(utf8::last_continuation_byte(c) >= 128) by (bit_vector);
    assert(utf8::second_last_continuation_byte(c) >= 128) by (bit_vector);
    assert(utf8::third_last_continuation_byte(c) >= 128) by (bit_vector);
}

/// A text is a header value exactly where it holds no control character but the
/// tab: any other character of any script may stand in it, and any number.
pub proof fn values_hold_no_control_characters(chars: Seq<char>)
    ensures
        is_header_value(utf8::encode_utf8(chars)) <==> forall|i: int|
            0 <= i < chars.len() ==> #[trigger] chars[i] == '\t' || ' ' <= chars[i] && chars[i]
                != '\u{7f}',
    decreases chars.len(),
{
    if chars.len() > 0 {
        let rest = chars.drop_first();
        let first = chars[0] as u32;
        utf8::char_u32_cast(chars[0], first);
        scalar_bytes(first);
        values_hold_no_control_characters(rest);
        let head = utf8::encode_scalar(first);
        let tail = utf8::encode_utf8(rest);
        let bytes = utf8::encode_utf8(chars);
        assert(bytes == head + tail);
        assert(head.len() > 0);
        assert(is_header_value(bytes) <==> is_header_value(head) && is_header_value(tail)) by {
            if is_header_value(bytes) {
                assert forall|i: int| 0 <= i < head.len() implies is_value_byte(
                    #[trigger] head[i],
                ) by {
                    assert(bytes[i] == head[i]);
                }
                assert forall|i: int| 0 <= i < tail.len() implies is_value_byte(
                    #[trigger] tail[i],
                ) by {
                    assert(bytes[head.len() + i] == tail[i]);
                }
            }
        }
        assert(is_header_value(head) <==> (chars[0] == '\t' || ' ' <= chars[0] && chars[0]
            != '\u{7f}')) by {
            if first <= 0x7f {
                assert(head[0] == first as u8);
            }
        }
        if forall|i: int|
            0 <= i < chars.len() ==> #[trigger] chars[i] == '\t' || ' ' <= chars[i] && chars[i]
                != '\u{7f}' {
            assert forall|i: int| 0 <= i < rest.len() implies #[trigger] rest[i] == '\t' || ' '
                <= rest[i] && rest[i] != '\u{7f}' by {
                assert(rest[i] == chars[i + 1]);
            }
        }
        if is_header_value(bytes) {
            assert forall|i: int| 0 <= i < chars.len() implies #[trigger] chars[i] == '\t' || ' '
                <= chars[i] && chars[i] != '\u{7f}' by {
                if i > 0 {
                    assert(rest[i - 1] == chars[i]);
                }
            }
        }
    }
}

/// A value has a text exactly where all of it is visible ASCII, spaces and tabs,
/// and the text is the value, byte for byte.
pub proof fn visible_values_have_their_text(bytes: Seq<u8>)
    ensures
        visible_text(bytes) is Some <==> forall|i: int|
            0 <= i < bytes.len() ==> #[trigger] bytes[i] == 9 || 32 <= bytes[i] <= 126,
        visible_text(bytes) matches Some(text) ==> text.len() == bytes.len() && forall|i: int|
            0 <= i < bytes.len() ==> #[trigger] text[i] == bytes[i] as char,
{
    if visible_text(bytes) is Some {
        assert forall|i: int| 0 <= i < bytes.len() implies #[trigger] bytes[i] == 9 || 32
            <= bytes[i] <= 126 by {
            assert(is_visible_byte(bytes[i]));
        }
    }
}

/// The text of a header is that of its first value, however many it has.
pub proof fn first_values_are_read(fields: Fields, name: Seq<char>)
    ensures
        first_text(fields, name) is Some <==> fields.dom().contains(name) && forall|i: int|
            0 <= i < fields[name][0].0.len() ==> #[trigger] fields[name][0].0[i] == 9 || 32
                <= fields[name][0].0[i] <= 126,
        first_text(fields, name) matches Some(text) ==> text.len() == fields[name][0].0.len()
            && forall|i: int|
            0 <= i < text.len() ==> #[trigger] text[i] == fields[name][0].0[i] as char,
{
    visible_values_have_their_text(fields[name][0].0);
}

/// Removing, replacing and adding change the values under their own name alone:
/// to none, to the one given, and to those so far with the one given behind them.
pub proof fn changes_stay_under_their_name(
    fields: Fields,
    name: Seq<char>,
    value: ValueModel,
    other: Seq<char>,
)
    ensures
        !without(fields, name).dom().contains(name),
        with_only(fields, name, value).dom().contains(name),
        with_only(fields, name, value)[name] == seq![value],
        with_also(fields, name, value).dom().contains(name),
        with_also(fields, name, value)[name] == if fields.dom().contains(name) {
            fields[name].push(value)
        } else {
            seq![value]
        },
        other != name ==> {
            &&& without(fields, name).dom().contains(other) == fields.dom().contains(other)
            &&& with_only(fields, name, value).dom().contains(other) == fields.dom().contains(other)
            &&& with_also(fields, name, value).dom().contains(other) == fields.dom().contains(other)
            &&& without(fields, name)[other] == fields[other]
            &&& with_only(fields, name, value)[other] == fields[other]
            &&& with_also(fields, name, value)[other] == fields[other]
        },
        fields.dom().contains(other) ==> values_of(fields, other) == fields[other],
        !fields.dom().contains(other) ==> values_of(fields, other).len() == 0,
        has_room(fields) <==> fields.dom().finite() && fields.dom().len() <= 6_553,
{
    assert(Seq::<ValueModel>::empty().push(value) =~= seq![value]);
}

} // verus!
