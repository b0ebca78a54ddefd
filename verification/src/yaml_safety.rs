//! YAML input safety checks: size limits and alias guards.
//!
//! Raw YAML is held to a size ceiling ([`MAX_YAML_BYTES`]) and refused where
//! it holds an alias node (`*anchor`), before any of it is parsed: aliases
//! expand inside the parser, so a check on the parsed result would come too
//! late. Praxis configs use no aliases. An anchor without an alias expands
//! nothing and is left alone.

use vstd::prelude::*;
use vstd::string::*;
use vstd::utf8;

use crate::text;
use crate::text::decimal;

verus! {

/// Maximum raw YAML input size (4 MiB).
pub const MAX_YAML_BYTES: usize = 4_194_304;

/// A proxy error.
#[derive(Debug)]
pub enum ProxyError {
    /// The configuration is not acceptable.
    Config(String),
}

impl View for ProxyError {
    type V = Seq<char>;

    open spec fn view(&self) -> Seq<char> {
        match self {
            ProxyError::Config(message) => message@,
        }
    }
}

impl ProxyError {
    /// What is wrong, for a reader.
    pub fn to_string(&self) -> (res: String)
        ensures
            res@ == self@,
    {
        match self {
            ProxyError::Config(message) => message.clone(),
        }
    }
}

// -----------------------------------------------------------------------------
// Lines
// -----------------------------------------------------------------------------

/// The position of the first line feed, and the length where there is none.
pub open spec fn line_feed_at(raw: Seq<u8>) -> int
    decreases raw.len(),
{
    if raw.len() == 0 || raw[0] == 10 {
        0
    } else {
        1 + line_feed_at(raw.skip(1))
    }
}

/// The first line of `raw`, without the line feed, or the carriage return and
/// line feed, that ends it.
pub open spec fn first_line(raw: Seq<u8>) -> Seq<u8> {
    let at = line_feed_at(raw);
    if 0 < at < raw.len() && raw[at - 1] == 13 {
        raw.take(at - 1)
    } else {
        raw.take(at)
    }
}

/// What follows the first line of `raw` and its ending.
pub open spec fn after_first_line(raw: Seq<u8>) -> Seq<u8> {
    let at = line_feed_at(raw);
    if at < raw.len() {
        raw.skip(at + 1)
    } else {
        Seq::empty()
    }
}

/// The first line feed lies within the text, or at its end.
pub proof fn line_feed_at_bound(raw: Seq<u8>)
    ensures
        0 <= line_feed_at(raw) <= raw.len(),
    decreases raw.len(),
{
    if raw.len() > 0 && raw[0] != 10 {
        line_feed_at_bound(raw.skip(1));
    }
}

proof fn line_feed_at_is(raw: Seq<u8>, at: int)
    requires
        0 <= at <= raw.len(),
        at < raw.len() ==> raw[at] == 10,
        forall|k: int| 0 <= k < at ==> #[trigger] raw[k] != 10,
    ensures
        line_feed_at(raw) == at,
    decreases raw.len(),
{
    if at > 0 {
        assert(raw[0] != 10);
        assert forall|k: int| 0 <= k < at - 1 implies #[trigger] raw.skip(1)[k] != 10 by {
            assert(raw[k + 1] != 10);
        }
        line_feed_at_is(raw.skip(1), at - 1);
    }
}

/// The lines of `raw`. The ending of the last line is optional.
pub open spec fn lines(raw: Seq<u8>) -> Seq<Seq<u8>>
    decreases raw.len(),
{
    if raw.len() == 0 {
        Seq::empty()
    } else {
        proof {
            line_feed_at_bound(raw);
        }
        seq![first_line(raw)] + lines(after_first_line(raw))
    }
}

// -----------------------------------------------------------------------------
// Alias nodes
// -----------------------------------------------------------------------------

/// Whether `b` is a space or a tab.
pub open spec fn is_blank(b: u8) -> bool {
    b == 0x20 || b == 0x09
}

/// Whether a YAML line break other than the line feed ends before position `i`
/// of a line: a carriage return, or the UTF-8 form of U+0085, U+2028 or U+2029.
pub open spec fn break_ends(line: Seq<u8>, i: int) -> bool {
    ||| i >= 1 && line[i - 1] == 0x0d
    ||| i >= 2 && line[i - 2] == 0xc2 && line[i - 1] == 0x85
    ||| i >= 3 && line[i - 3] == 0xe2 && line[i - 2] == 0x80 && (line[i - 1] == 0xa8 || line[i - 1]
        == 0xa9)
}

/// Whether position `i` is the first of a line of YAML.
pub open spec fn row_starts(line: Seq<u8>, i: int) -> bool {
    i == 0 || break_ends(line, i)
}

/// Whether the line ends behind position `i`, or a blank follows.
pub open spec fn stands_apart(line: Seq<u8>, i: int) -> bool {
    i + 1 >= line.len() || is_blank(line[i + 1])
}

/// Whether the `:` at position `i`, in plain text, ends a key: where it stands
/// apart, or follows a bracket that closes a flow collection.
pub open spec fn ends_key(line: Seq<u8>, i: int) -> bool {
    stands_apart(line, i) || i >= 1 && (line[i - 1] == 0x5d || line[i - 1] == 0x7d)
}

/// Whether the `---` that starts a document ends at position `i`.
pub open spec fn document_starts(line: Seq<u8>, i: int) -> bool {
    &&& i >= 2 && line[i - 2] == 0x2d && line[i - 1] == 0x2d && line[i] == 0x2d
    &&& row_starts(line, i - 2)
    &&& stands_apart(line, i)
}

/// What a position of a line is the place of.
#[derive(Clone, Copy, Debug, PartialEq, Eq, Structural)]
pub enum Place {
    /// The start of a node.
    Start,
    /// More of a plain scalar.
    Plain,
    /// More of a plain scalar that has a quote or a `#` in it.
    Marked,
    /// More of an anchor or a tag.
    Property,
    /// More of a string in single quotes.
    Single,
    /// What follows a single quote that ends a string, unless another follows.
    Ended,
    /// More of a string in double quotes.
    Double,
    /// What a backslash in double quotes escapes.
    Escaped,
    /// What follows a string or a flow collection.
    Closed,
    /// More of a comment.
    Comment,
}

/// Whether what stands in a place is part of a quoted string.
pub open spec fn in_string(place: Place) -> bool {
    place == Place::Single || place == Place::Double || place == Place::Escaped
}

/// What follows position `i`, which is of `place` and in no string or comment.
/// A quote opens a string where a node can start. Brackets that open, commas and
/// the `:` behind a key end a plain scalar; a blank does not.
pub open spec fn place_outside(line: Seq<u8>, place: Place, i: int) -> Place {
    let b = line[i];
    let closed = place == Place::Closed || place == Place::Ended;
    if b == 0x23 && (row_starts(line, i) || is_blank(line[i - 1])) {
        Place::Comment
    } else if b == 0x27 && (place == Place::Start || closed) {
        Place::Single
    } else if b == 0x22 && (place == Place::Start || closed) {
        Place::Double
    } else if b == 0x5b || b == 0x7b || b == 0x2c {
        Place::Start
    } else if b == 0x3a && (closed || ends_key(line, i)) {
        Place::Start
    } else if document_starts(line, i) {
        Place::Start
    } else if place == Place::Property {
        if is_blank(b) {
            Place::Start
        } else {
            Place::Property
        }
    } else if place == Place::Start && (is_blank(b) || (b == 0x2d || b == 0x3f) && stands_apart(
        line,
        i,
    )) {
        Place::Start
    } else if place == Place::Start && (b == 0x21 || b == 0x26) {
        Place::Property
    } else if closed && is_blank(b) {
        Place::Closed
    } else if (place == Place::Start || closed) && (b == 0x5d || b == 0x7d) {
        Place::Closed
    } else if place == Place::Marked || b == 0x23 || b == 0x27 || b == 0x22 {
        Place::Marked
    } else {
        Place::Plain
    }
}

/// What follows position `i`, which is of `place`. A string ends at its quote:
/// not at one that a backslash escapes, nor at two single ones, and not at a
/// line break.
pub open spec fn place_behind(line: Seq<u8>, place: Place, i: int) -> Place {
    let b = line[i];
    if place == Place::Single {
        if b == 0x27 {
            Place::Ended
        } else {
            Place::Single
        }
    } else if place == Place::Double {
        if b == 0x22 {
            Place::Closed
        } else if b == 0x5c {
            Place::Escaped
        } else {
            Place::Double
        }
    } else if place == Place::Escaped {
        Place::Double
    } else if break_ends(line, i + 1) {
        Place::Start
    } else if place == Place::Comment {
        Place::Comment
    } else {
        place_outside(line, place, i)
    }
}

/// What position `i` of a line is the place of.
pub open spec fn place_at(line: Seq<u8>, i: int) -> Place
    decreases i,
{
    if i <= 0 {
        Place::Start
    } else {
        place_behind(line, place_at(line, i - 1), i - 1)
    }
}

/// Whether position `i` lies inside a quoted string or a comment.
pub open spec fn is_hidden(line: Seq<u8>, i: int) -> bool {
    in_string(place_at(line, i)) || place_at(line, i) == Place::Comment
}

/// Whether a node can follow the byte at position `i`, which is of `place` and
/// in no string or comment: after `[`, `{` or `,`; after a blank, `:` or `-`,
/// but for those in a plain scalar that has a quote or a `#` in it; and after a
/// `?` that marks a key.
pub open spec fn node_follows(line: Seq<u8>, place: Place, i: int) -> bool {
    let b = line[i];
    ||| b == 0x5b || b == 0x7b || b == 0x2c
    ||| place != Place::Marked && (is_blank(b) || b == 0x3a || b == 0x2d)
    ||| place == Place::Start && b == 0x3f
}

/// Whether position `i` is a node boundary.
pub open spec fn boundary_before(line: Seq<u8>, i: int) -> bool {
    ||| row_starts(line, i)
    ||| !is_hidden(line, i - 1) && node_follows(line, place_at(line, i - 1), i - 1)
}

/// Whether `b` is an anchor-name character: an ASCII letter or digit, `_` or `-`.
pub open spec fn is_anchor_byte(b: u8) -> bool {
    0x30 <= b <= 0x39 || 0x41 <= b <= 0x5a || 0x61 <= b <= 0x7a || b == 0x5f || b == 0x2d
}

/// Whether an alias node starts at position `i`: a `*` at a node boundary,
/// outside strings and comments, followed by an anchor-name character.
pub open spec fn alias_at(line: Seq<u8>, i: int) -> bool {
    &&& 0 <= i && i + 1 < line.len()
    &&& line[i] == 0x2a
    &&& is_anchor_byte(line[i + 1])
    &&& boundary_before(line, i)
    &&& !is_hidden(line, i)
}

/// Whether a line holds an alias node.
pub open spec fn contains_alias(line: Seq<u8>) -> bool {
    exists|i: int| #[trigger] alias_at(line, i)
}

/// Whether line `n`, counted from 1, is the first of `raw` with an alias node.
pub open spec fn is_first_alias_line(raw: Seq<u8>, n: int) -> bool {
    &&& 1 <= n <= lines(raw).len()
    &&& contains_alias(lines(raw)[n - 1])
    &&& forall|k: int| 0 <= k < n - 1 ==> !contains_alias(#[trigger] lines(raw)[k])
}

/// Whether some line of `raw` holds an alias node.
pub open spec fn has_alias(raw: Seq<u8>) -> bool {
    exists|k: int| 0 <= k < lines(raw).len() && contains_alias(#[trigger] lines(raw)[k])
}

/// Whether `b` is an anchor-name character.
fn anchor_byte(b: u8) -> (res: bool)
    ensures
        res == is_anchor_byte(b),
{
    (0x30 <= b && b <= 0x39) || (0x41 <= b && b <= 0x5a) || (0x61 <= b && b <= 0x7a) || b == 0x5f
        || b == 0x2d
}

fn blank(b: u8) -> (res: bool)
    ensures
        res == is_blank(b),
{
    b == 0x20 || b == 0x09
}

fn at_row_start(line: &[u8], i: usize) -> (res: bool)
    requires
        i <= line@.len(),
    ensures
        res == row_starts(line@, i as int),
{
    i == 0 || line[i - 1] == 0x0d || (i >= 2 && line[i - 2] == 0xc2 && line[i - 1] == 0x85) || (i
        >= 3 && line[i - 3] == 0xe2 && line[i - 2] == 0x80 && (line[i - 1] == 0xa8 || line[i - 1]
        == 0xa9))
}

fn apart(line: &[u8], i: usize) -> (res: bool)
    requires
        i < line@.len(),
    ensures
        res == stands_apart(line@, i as int),
{
    line.len() - i == 1 || blank(line[i + 1])
}

fn key_end(line: &[u8], i: usize) -> (res: bool)
    requires
        i < line@.len(),
    ensures
        res == ends_key(line@, i as int),
{
    apart(line, i) || (i >= 1 && (line[i - 1] == 0x5d || line[i - 1] == 0x7d))
}

fn next_outside(line: &[u8], place: Place, i: usize) -> (res: Place)
    requires
        i < line@.len(),
    ensures
        res == place_outside(line@, place, i as int),
{
    let b: u8 = line[i];
    let start = place == Place::Start;
    let closed = place == Place::Closed || place == Place::Ended;
    let document = i >= 2 && line[i - 2] == 0x2d && line[i - 1] == 0x2d && b == 0x2d
        && at_row_start(line, i - 2) && apart(line, i);
    if b == 0x23 && (at_row_start(line, i) || blank(line[i - 1])) {
        Place::Comment
    } else if b == 0x27 && (start || closed) {
        Place::Single
    } else if b == 0x22 && (start || closed) {
        Place::Double
    } else if b == 0x5b || b == 0x7b || b == 0x2c {
        Place::Start
    } else if b == 0x3a && (closed || key_end(line, i)) {
        Place::Start
    } else if document {
        Place::Start
    } else if place == Place::Property {
        if blank(b) {
            Place::Start
        } else {
            Place::Property
        }
    } else if start && (blank(b) || ((b == 0x2d || b == 0x3f) && apart(line, i))) {
        Place::Start
    } else if start && (b == 0x21 || b == 0x26) {
        Place::Property
    } else if closed && blank(b) {
        Place::Closed
    } else if (start || closed) && (b == 0x5d || b == 0x7d) {
        Place::Closed
    } else if place == Place::Marked || b == 0x23 || b == 0x27 || b == 0x22 {
        Place::Marked
    } else {
        Place::Plain
    }
}

fn next_place(line: &[u8], place: Place, i: usize) -> (res: Place)
    requires
        i < line@.len(),
    ensures
        res == place_behind(line@, place, i as int),
{
    let b: u8 = line[i];
    match place {
        Place::Single => if b == 0x27 {
            Place::Ended
        } else {
            Place::Single
        },
        Place::Double => if b == 0x22 {
            Place::Closed
        } else if b == 0x5c {
            Place::Escaped
        } else {
            Place::Double
        },
        Place::Escaped => Place::Double,
        _ => if at_row_start(line, i + 1) {
            Place::Start
        } else if place == Place::Comment {
            Place::Comment
        } else {
            next_outside(line, place, i)
        },
    }
}

/// Whether the bytes of a line hold an alias node.
fn bytes_contain_alias(line: &[u8]) -> (res: bool)
    ensures
        res == contains_alias(line@),
{
    let len: usize = line.len();
    let mut i: usize = 0;
    let mut place = Place::Start;
    let mut at_boundary: bool = true;
    while i < len
        invariant
            i <= len,
            len == line@.len(),
            place == place_at(line@, i as int),
            at_boundary == boundary_before(line@, i as int),
            forall|j: int| 0 <= j < i ==> !#[trigger] alias_at(line@, j),
        decreases len - i,
    {
        let b: u8 = line[i];
        let hidden = place == Place::Single || place == Place::Double || place == Place::Escaped
            || place == Place::Comment;
        if b == 0x2a && at_boundary && !hidden && len - i > 1 && anchor_byte(line[i + 1]) {
            assert(alias_at(line@, i as int));
            return true;
        }
        at_boundary = at_row_start(line, i + 1) || (!hidden && (b == 0x5b || b == 0x7b || b == 0x2c
            || (place != Place::Marked && (blank(b) || b == 0x3a || b == 0x2d)) || (place
            == Place::Start && b == 0x3f)));
        place = next_place(line, place, i);
        i += 1;
    }
    false
}

/// Whether a single line contains an alias node outside strings and comments.
///
/// A single-line scan: a string that began on an earlier line is not followed
/// into this one, so the quote that closes it may be taken for one that opens a
/// string, and hide an alias behind it. An asterisk in a plain or block scalar
/// that spans lines may be taken for an alias.
pub fn line_contains_alias(line: &str) -> (res: bool)
    ensures
        res == contains_alias(utf8::encode_utf8(line@)),
{
    bytes_contain_alias(line.as_bytes())
}

/// The 1-based number of the first line with an alias node, if any.
pub fn first_line_with_alias(raw: &str) -> (res: Option<usize>)
    ensures
        match res {
            Some(n) => is_first_alias_line(utf8::encode_utf8(raw@), n as int),
            None => !has_alias(utf8::encode_utf8(raw@)),
        },
{
    let bytes = raw.as_bytes();
    let ghost all = bytes@;
    let ghost mut done: Seq<Seq<u8>> = Seq::empty();
    let len: usize = bytes.len();
    let mut pos: usize = 0;
    let mut count: usize = 0;
    assert(all.skip(0) =~= all);
    assert(done + lines(all) =~= lines(all));
    while pos < len
        invariant
            len == bytes@.len(),
            bytes@ == all,
            all == utf8::encode_utf8(raw@),
            pos <= len,
            count <= pos,
            done.len() == count,
            lines(all) == done + lines(all.skip(pos as int)),
            forall|k: int| 0 <= k < done.len() ==> !contains_alias(#[trigger] done[k]),
        decreases len - pos,
    {
        let ghost rest = all.skip(pos as int);
        let mut at: usize = pos;
        while at < len && bytes[at] != 10
            invariant
                len == bytes@.len(),
                bytes@ == all,
                pos <= at <= len,
                forall|k: int| pos <= k < at ==> #[trigger] bytes@[k] != 10,
            decreases len - at,
        {
            at = at + 1;
        }
        proof {
            assert forall|k: int| 0 <= k < at - pos implies #[trigger] rest[k] != 10 by {
                assert(bytes@[pos + k] != 10);
            }
            line_feed_at_is(rest, at - pos);
        }
        let end: usize = if at < len && at > pos && bytes[at - 1] == 13 {
            at - 1
        } else {
            at
        };
        assert(bytes@.subrange(pos as int, end as int) =~= first_line(rest));
        if bytes_contain_alias(vstd::slice::slice_subrange(bytes, pos, end)) {
            proof {
                let n = count as int;
                assert(lines(all)[n] == first_line(rest));
                assert forall|k: int| 0 <= k < n implies !contains_alias(
                    #[trigger] lines(all)[k],
                ) by {
                    assert(lines(all)[k] == done[k]);
                }
            }
            return Some(count + 1);
        }
        proof {
            let next = if at < len {
                at + 1
            } else {
                at as int
            };
            assert(after_first_line(rest) =~= all.skip(next));
            assert(done + (seq![first_line(rest)] + lines(all.skip(next))) =~= done.push(
                first_line(rest),
            ) + lines(all.skip(next)));
            done = done.push(first_line(rest));
        }
        count = count + 1;
        pos = if at < len {
            at + 1
        } else {
            at
        };
    }
    proof {
        assert(all.skip(pos as int).len() == 0);
        assert(lines(all) =~= done);
    }
    None
}

// -----------------------------------------------------------------------------
// Checks
// -----------------------------------------------------------------------------

/// What a refused alias node on line `n` is answered.
pub open spec fn alias_message(n: nat) -> Seq<char> {
    "YAML alias nodes (`*anchor`) are not supported (line "@ + text::decimal_text(n)
        + "); they enable alias-expansion denial-of-service and are not used by any Praxis config"@
}

/// What refused YAML of `len` bytes is answered.
pub open spec fn yaml_size_message(len: nat) -> Seq<char> {
    "YAML input too large ("@ + text::decimal_text(len) + " bytes, max 4194304)"@
}

/// What a refused config file of `len` bytes is answered.
pub open spec fn file_size_message(len: nat) -> Seq<char> {
    "config file too large ("@ + text::decimal_text(len) + " bytes, max 4194304)"@
}

/// `head`, the decimal form of `n`, and `tail`, as one text.
fn numbered(head: &str, n: u64, tail: &str) -> (res: String)
    ensures
        res@ == head@ + text::decimal_text(n as nat) + tail@,
{
    let mut res = head.to_owned();
    res.append(decimal(n).as_str());
    res.append(tail);
    res
}

/// Reject YAML alias nodes (`*anchor`) before parsing.
///
/// # Errors
///
/// [`ProxyError::Config`] when an alias node is present; it names the first
/// line that holds one.
pub fn reject_yaml_aliases(raw: &str) -> (res: Result<(), ProxyError>)
    ensures
        match res {
            Ok(()) => !has_alias(utf8::encode_utf8(raw@)),
            Err(error) => exists|n: nat| #[trigger]
                is_first_alias_line(utf8::encode_utf8(raw@), n as int) && error@
                    == alias_message(n),
        },
{
    match first_line_with_alias(raw) {
        Some(line) => {
            let message = numbered(
                "YAML alias nodes (`*anchor`) are not supported (line ",
                line as u64,
                "); they enable alias-expansion denial-of-service and are not used by any Praxis config",
            );
            assert(is_first_alias_line(utf8::encode_utf8(raw@), (line as nat) as int));
            Err(ProxyError::Config(message))
        },
        None => Ok(()),
    }
}

/// Reject raw YAML that exceeds the size limit.
///
/// # Errors
///
/// [`ProxyError::Config`] when the input exceeds [`MAX_YAML_BYTES`].
pub fn check_yaml_size(raw: &str) -> (res: Result<(), ProxyError>)
    ensures
        match res {
            Ok(()) => utf8::encode_utf8(raw@).len() <= MAX_YAML_BYTES,
            Err(error) => {
                &&& utf8::encode_utf8(raw@).len() > MAX_YAML_BYTES
                &&& error@ == yaml_size_message(utf8::encode_utf8(raw@).len())
            },
        },
{
    let len: usize = raw.as_bytes().len();
    if len > MAX_YAML_BYTES {
        return Err(
            ProxyError::Config(
                numbered("YAML input too large (", len as u64, " bytes, max 4194304)"),
            ),
        );
    }
    Ok(())
}

/// Reject raw YAML that is too large or holds an alias node.
///
/// # Errors
///
/// [`ProxyError::Config`]; an input that is both is refused for its size.
pub fn check_yaml_safety(raw: &str) -> (res: Result<(), ProxyError>)
    ensures
        match res {
            Ok(()) => {
                &&& utf8::encode_utf8(raw@).len() <= MAX_YAML_BYTES
                &&& !has_alias(utf8::encode_utf8(raw@))
            },
            Err(error) => if utf8::encode_utf8(raw@).len() > MAX_YAML_BYTES {
                error@ == yaml_size_message(utf8::encode_utf8(raw@).len())
            } else {
                exists|n: nat| #[trigger]
                    is_first_alias_line(utf8::encode_utf8(raw@), n as int) && error@
                        == alias_message(n)
            },
        },
{
    match check_yaml_size(raw) {
        Ok(()) => reject_yaml_aliases(raw),
        Err(error) => Err(error),
    }
}

/// Reject a config file whose size on disk exceeds [`MAX_YAML_BYTES`].
///
/// # Errors
///
/// [`ProxyError::Config`] when the file is too large.
pub fn check_file_len(len: u64) -> (res: Result<(), ProxyError>)
    ensures
        match res {
            Ok(()) => len <= MAX_YAML_BYTES,
            Err(error) => len > MAX_YAML_BYTES && error@ == file_size_message(len as nat),
        },
{
    if len > MAX_YAML_BYTES as u64 {
        return Err(
            ProxyError::Config(numbered("config file too large (", len, " bytes, max 4194304)")),
        );
    }
    Ok(())
}

/// The error of a config file at `path` whose metadata cannot be read because
/// of `cause`.
pub fn metadata_error(path: &str, cause: &str) -> (res: ProxyError)
    ensures
        res@ == "failed to read metadata for "@ + path@ + ": "@ + cause@,
{
    let mut message = "failed to read metadata for ".to_owned();
    message.append(path);
    message.append(": ");
    message.append(cause);
    ProxyError::Config(message)
}

// -----------------------------------------------------------------------------
// Laws
// -----------------------------------------------------------------------------

/// YAML is refused for aliases exactly where it has a first line with one, and
/// no more than one line is the first.
pub proof fn alias_is_found_on_one_first_line(raw: Seq<u8>)
    ensures
        has_alias(raw) <==> exists|n: nat| #[trigger] is_first_alias_line(raw, n as int),
        forall|n: nat, m: nat|
            #[trigger] is_first_alias_line(raw, n as int) && #[trigger] is_first_alias_line(
                raw,
                m as int,
            ) ==> n == m,
{
    if has_alias(raw) {
        let k = choose|k: int|
            0 <= k < lines(raw).len() && contains_alias(#[trigger] lines(raw)[k]);
        first_alias_line_up_to(raw, k);
    }
    assert forall|n: nat| #[trigger] is_first_alias_line(raw, n as int) implies has_alias(raw) by {
        assert(contains_alias(lines(raw)[n as int - 1]));
    }
    assert forall|n: nat, m: nat|
        #[trigger] is_first_alias_line(raw, n as int) && #[trigger] is_first_alias_line(
            raw,
            m as int,
        ) implies n == m by {
        if n < m {
            assert(!contains_alias(lines(raw)[n as int - 1]));
        }
        if m < n {
            assert(!contains_alias(lines(raw)[m as int - 1]));
        }
    }
}

proof fn first_alias_line_up_to(raw: Seq<u8>, k: int)
    requires
        0 <= k < lines(raw).len(),
        contains_alias(lines(raw)[k]),
    ensures
        exists|n: nat| #[trigger] is_first_alias_line(raw, n as int),
    decreases k,
{
    if exists|j: int| 0 <= j < k && contains_alias(#[trigger] lines(raw)[j]) {
        let j = choose|j: int| 0 <= j < k && contains_alias(#[trigger] lines(raw)[j]);
        first_alias_line_up_to(raw, j);
    } else {
        assert(is_first_alias_line(raw, ((k + 1) as nat) as int));
    }
}

/// Asterisks inside strings and comments are no alias nodes.
pub proof fn hidden_asterisks_pass(line: Seq<u8>)
    requires
        forall|i: int| 0 <= i < line.len() && #[trigger] line[i] == 0x2a ==> is_hidden(line, i),
    ensures
        !contains_alias(line),
{
    assert forall|i: int| !#[trigger] alias_at(line, i) by {
        if alias_at(line, i) {
            assert(line[i] == 0x2a);
        }
    }
}

proof fn places_of_prefix(line: Seq<u8>, more: Seq<u8>, i: int)
    requires
        0 <= i < line.len() || 0 <= i == line.len() && (more.len() == 0 || is_blank(more[0])),
    ensures
        place_at(line + more, i) == place_at(line, i),
    decreases i,
{
    if i > 0 {
        places_of_prefix(line, more, i - 1);
    }
}

proof fn letters_are_plain(line: Seq<u8>, n: int)
    requires
        0 <= n < line.len(),
        forall|i: int|
            0 <= i < n ==> 0x41 <= #[trigger] line[i] <= 0x5a || 0x61 <= line[i] <= 0x7a,
    ensures
        place_at(line, n) == Place::Start || place_at(line, n) == Place::Plain,
    decreases n,
{
    if n > 0 {
        letters_are_plain(line, n - 1);
        assert(line[n - 1] >= 0x41);
    }
}

proof fn string_goes_on(line: Seq<u8>, start: int, i: int, quote: u8)
    requires
        0 <= start <= i <= line.len(),
        quote == 0x27 && place_at(line, start) == Place::Single || quote == 0x22 && place_at(
            line,
            start,
        ) == Place::Double,
        forall|k: int| start <= k < i ==> #[trigger] line[k] != quote,
    ensures
        in_string(place_at(line, i)),
        quote == 0x27 ==> place_at(line, i) == Place::Single,
        quote == 0x22 ==> place_at(line, i) != Place::Single,
    decreases i,
{
    if i > start {
        string_goes_on(line, start, i - 1, quote);
        assert(line[i - 1] != quote);
    }
}

/// No asterisk in a quoted value is an alias node, whatever else stands between
/// the quotes.
pub proof fn quoted_values_hold_no_alias(key: Seq<u8>, quote: u8, text: Seq<u8>)
    requires
        forall|i: int|
            0 <= i < key.len() ==> 0x41 <= #[trigger] key[i] <= 0x5a || 0x61 <= key[i] <= 0x7a,
        quote == 0x27 || quote == 0x22,
        !text.contains(quote),
    ensures
        !contains_alias(key + seq![0x3a, 0x20, quote] + text + seq![quote]),
{
    let line = key + seq![0x3a, 0x20, quote] + text + seq![quote];
    let n = key.len() as int;
    let start = n + 3;
    let end = start + text.len();
    assert(line[n] == 0x3a && line[n + 1] == 0x20 && line[n + 2] == quote && line[end] == quote);
    assert forall|i: int| 0 <= i < n implies 0x41 <= #[trigger] line[i] <= 0x5a || 0x61 <= line[i]
        <= 0x7a by {
        assert(line[i] == key[i]);
    }
    assert forall|k: int| start <= k < end implies #[trigger] line[k] != quote by {
        assert(line[k] == text[k - start]);
    }
    letters_are_plain(line, n);
    assert(!break_ends(line, n + 1));
    assert(place_at(line, n + 1) == Place::Start);
    assert(place_at(line, n + 2) == Place::Start);
    assert(in_string(place_at(line, start)));
    assert forall|i: int| 0 <= i < line.len() && #[trigger] line[i] == 0x2a implies is_hidden(
        line,
        i,
    ) by {
        if i >= start {
            string_goes_on(line, start, i, quote);
        }
    }
    hidden_asterisks_pass(line);
}

/// Text that is appended to a line never hides an alias node.
pub proof fn appended_text_hides_nothing(line: Seq<u8>, more: Seq<u8>)
    requires
        contains_alias(line),
    ensures
        contains_alias(line + more),
{
    let i = choose|i: int| #[trigger] alias_at(line, i);
    places_of_prefix(line, more, i);
    if i > 0 {
        places_of_prefix(line, more, i - 1);
    }
    assert(alias_at(line + more, i));
}

proof fn comment_goes_on(line: Seq<u8>, start: int, i: int)
    requires
        0 <= start <= i <= line.len(),
        place_at(line, start) == Place::Comment,
        forall|k: int| start < k <= i ==> !#[trigger] break_ends(line, k),
    ensures
        place_at(line, i) == Place::Comment,
    decreases i,
{
    if i > start {
        comment_goes_on(line, start, i - 1);
        assert(!break_ends(line, i));
    }
}

/// A comment makes no difference to a line that ends outside strings.
pub proof fn comments_make_no_difference(line: Seq<u8>, comment: Seq<u8>)
    requires
        !in_string(place_at(line, line.len() as int)),
        forall|k: int| 0 <= k <= comment.len() ==> !#[trigger] break_ends(comment, k),
    ensures
        contains_alias(line + seq![0x20, 0x23] + comment) == contains_alias(line),
{
    let n = line.len() as int;
    let more = seq![0x20u8, 0x23] + comment;
    let full = line + seq![0x20, 0x23] + comment;
    assert(full =~= line + more);
    places_of_prefix(line, more, n);
    assert(place_at(full, n + 2) == Place::Comment) by {
        assert(full[n] == 0x20 && full[n + 1] == 0x23);
        assert(place_at(full, n + 1) == place_behind(full, place_at(full, n), n));
        assert(!in_string(place_at(full, n + 1)));
        assert(!break_ends(full, n + 2));
    }
    assert forall|k: int| n + 2 < k <= full.len() implies !#[trigger] break_ends(full, k) by {
        assert(!break_ends(comment, k - n - 2));
        assert(full[k - 1] == comment[k - n - 3]);
        if k - n - 2 >= 2 {
            assert(full[k - 2] == comment[k - n - 4]);
        }
        if k - n - 2 >= 3 {
            assert(full[k - 3] == comment[k - n - 5]);
        }
    }
    assert forall|i: int| #[trigger] alias_at(full, i) implies alias_at(line, i) by {
        if i >= n + 2 {
            comment_goes_on(full, n + 2, i);
        } else {
            places_of_prefix(line, more, i);
            if i > 0 {
                places_of_prefix(line, more, i - 1);
            }
        }
    }
    if contains_alias(full) {
        let i = choose|i: int| #[trigger] alias_at(full, i);
        assert(alias_at(line, i));
    }
    if contains_alias(line) {
        appended_text_hides_nothing(line, more);
    }
}

/// YAML without an asterisk has no alias nodes, whatever anchors it holds.
pub proof fn no_asterisk_no_alias(raw: Seq<u8>)
    requires
        forall|i: int| 0 <= i < raw.len() ==> #[trigger] raw[i] != 0x2a,
    ensures
        !has_alias(raw),
    decreases raw.len(),
{
    if raw.len() > 0 {
        line_feed_at_bound(raw);
        let line = first_line(raw);
        let rest = after_first_line(raw);
        assert forall|i: int| 0 <= i < rest.len() implies #[trigger] rest[i] != 0x2a by {
            assert(rest[i] == raw[line_feed_at(raw) + 1 + i]);
        }
        no_asterisk_no_alias(rest);
        assert forall|i: int| !#[trigger] alias_at(line, i) by {
            if alias_at(line, i) {
                assert(line[i] == raw[i]);
            }
        }
        assert forall|k: int| 0 <= k < lines(raw).len() implies !contains_alias(
            #[trigger] lines(raw)[k],
        ) by {
            if k > 0 {
                assert(lines(raw)[k] == lines(rest)[k - 1]);
            } else {
                assert(lines(raw)[k] == line);
            }
        }
    }
}

/// Every letter of either case and every digit can begin the name of an anchor,
/// and so can an underscore and a dash; nothing else can.
pub proof fn anchor_names_begin_with_any_letter_or_digit(b: u8)
    ensures
        is_anchor_byte(b)
            <==> "0123456789ABCDEFGHIJKLMNOPQRSTUVWXYZabcdefghijklmnopqrstuvwxyz_-"@.contains(
            b as char,
        ),
{
    reveal_strlit("0123456789ABCDEFGHIJKLMNOPQRSTUVWXYZabcdefghijklmnopqrstuvwxyz_-");
    let all = "0123456789ABCDEFGHIJKLMNOPQRSTUVWXYZabcdefghijklmnopqrstuvwxyz_-"@;
    assert(all[0] == '0' && all[1] == '1' && all[2] == '2' && all[3] == '3');
    assert(all[4] == '4' && all[5] == '5' && all[6] == '6' && all[7] == '7');
    assert(all[8] == '8' && all[9] == '9' && all[10] == 'A' && all[11] == 'B');
    assert(all[12] == 'C' && all[13] == 'D' && all[14] == 'E' && all[15] == 'F');
    assert(all[16] == 'G' && all[17] == 'H' && all[18] == 'I' && all[19] == 'J');
    assert(all[20] == 'K' && all[21] == 'L' && all[22] == 'M' && all[23] == 'N');
    assert(all[24] == 'O' && all[25] == 'P' && all[26] == 'Q' && all[27] == 'R');
    assert(all[28] == 'S' && all[29] == 'T' && all[30] == 'U' && all[31] == 'V');
    assert(all[32] == 'W' && all[33] == 'X' && all[34] == 'Y' && all[35] == 'Z');
    assert(all[36] == 'a' && all[37] == 'b' && all[38] == 'c' && all[39] == 'd');
    assert(all[40] == 'e' && all[41] == 'f' && all[42] == 'g' && all[43] == 'h');
    assert(all[44] == 'i' && all[45] == 'j' && all[46] == 'k' && all[47] == 'l');
    assert(all[48] == 'm' && all[49] == 'n' && all[50] == 'o' && all[51] == 'p');
    assert(all[52] == 'q' && all[53] == 'r' && all[54] == 's' && all[55] == 't');
    assert(all[56] == 'u' && all[57] == 'v' && all[58] == 'w' && all[59] == 'x');
    assert(all[60] == 'y' && all[61] == 'z' && all[62] == '_' && all[63] == '-');
}

/// Whether a line holds no line break of YAML: no carriage return, and none of
/// U+0085, U+2028 and U+2029.
pub open spec fn is_one_row(line: Seq<u8>) -> bool {
    &&& forall|i: int| 0 <= i < line.len() ==> #[trigger] line[i] != 0x0d
    &&& forall|i: int|
        0 <= i && i + 1 < line.len() ==> !(#[trigger] line[i] == 0xc2 && line[i + 1] == 0x85)
    &&& forall|i: int|
        0 <= i && i + 2 < line.len() ==> !(#[trigger] line[i] == 0xe2 && line[i + 1] == 0x80 && (
        line[i + 2] == 0xa8 || line[i + 2] == 0xa9))
}

/// Whether a line holds no quotes.
pub open spec fn has_no_quotes(line: Seq<u8>) -> bool {
    forall|i: int| 0 <= i < line.len() ==> #[trigger] line[i] != 0x22 && line[i] != 0x27
}

/// Whether a line is made of ASCII letters.
pub open spec fn is_word(line: Seq<u8>) -> bool {
    forall|i: int|
        0 <= i < line.len() ==> 0x41 <= #[trigger] line[i] <= 0x5a || 0x61 <= line[i] <= 0x7a
}

proof fn rows_do_not_break(line: Seq<u8>, i: int)
    requires
        is_one_row(line),
        0 <= i <= line.len(),
    ensures
        !break_ends(line, i),
{
    if i >= 1 {
        assert(line[i - 1] != 0x0d);
    }
    if i >= 2 {
        assert(!(line[i - 2] == 0xc2 && line[i - 2 + 1] == 0x85));
    }
    if i >= 3 {
        assert(!(line[i - 3] == 0xe2 && line[i - 3 + 1] == 0x80 && (line[i - 3 + 2] == 0xa8
            || line[i - 3 + 2] == 0xa9)));
    }
}

proof fn places_without_quotes(line: Seq<u8>, n: int)
    requires
        0 <= n <= line.len(),
        forall|i: int| 0 <= i < n ==> #[trigger] line[i] != 0x22 && line[i] != 0x27,
    ensures
        !in_string(place_at(line, n)),
        place_at(line, n) != Place::Ended,
        (forall|i: int| 0 <= i < n ==> #[trigger] line[i] != 0x23) ==> place_at(line, n)
            != Place::Comment && place_at(line, n) != Place::Marked,
    decreases n,
{
    if n > 0 {
        places_without_quotes(line, n - 1);
        assert(line[n - 1] != 0x22 && line[n - 1] != 0x27);
        if forall|i: int| 0 <= i < n ==> #[trigger] line[i] != 0x23 {
            assert(line[n - 1] != 0x23);
        }
    }
}

/// On a line of one row without quotes, `#` and `?`, an alias node is an
/// asterisk at the start of the line, or behind a blank, an opening bracket, a
/// comma, a colon or a dash, that a character of an anchor name follows.
pub proof fn plain_lines_show_their_aliases(line: Seq<u8>)
    requires
        is_one_row(line),
        has_no_quotes(line),
        forall|i: int| 0 <= i < line.len() ==> #[trigger] line[i] != 0x23 && line[i] != 0x3f,
    ensures
        contains_alias(line) <==> exists|i: int|
            0 <= i && i + 1 < line.len() && #[trigger] line[i] == 0x2a && (i == 0
                || " \t[{,:-"@.contains(line[i - 1] as char))
                && "0123456789ABCDEFGHIJKLMNOPQRSTUVWXYZabcdefghijklmnopqrstuvwxyz_-"@.contains(
                line[i + 1] as char,
            ),
{
    reveal_strlit(" \t[{,:-");
    let before = " \t[{,:-"@;
    assert(before[0] == ' ' && before[1] == '\t' && before[2] == '[' && before[3] == '{');
    assert(before[4] == ',' && before[5] == ':' && before[6] == '-');
    assert forall|i: int| 0 <= i && i + 1 < line.len() && #[trigger] line[i] == 0x2a implies (
    alias_at(line, i) <==> (i == 0 || before.contains(line[i - 1] as char))
        && "0123456789ABCDEFGHIJKLMNOPQRSTUVWXYZabcdefghijklmnopqrstuvwxyz_-"@.contains(
        line[i + 1] as char,
    )) by {
        anchor_names_begin_with_any_letter_or_digit(line[i + 1]);
        places_without_quotes(line, i);
        rows_do_not_break(line, i);
        if i > 0 {
            places_without_quotes(line, i - 1);
            assert(line[i - 1] != 0x3f);
        }
    }
    if contains_alias(line) {
        let i = choose|i: int| #[trigger] alias_at(line, i);
        assert(line[i] == 0x2a);
    }
}

/// Every name behind an asterisk is an alias node, as a value and in brackets.
pub proof fn every_alias_value_is_found(key: Seq<u8>, b: u8, more: Seq<u8>)
    requires
        is_word(key),
        "0123456789ABCDEFGHIJKLMNOPQRSTUVWXYZabcdefghijklmnopqrstuvwxyz_-"@.contains(b as char),
    ensures
        contains_alias(key + seq![0x3a, 0x20, 0x2a, b] + more),
        contains_alias(key + seq![0x3a, 0x20, 0x5b, 0x2a, b] + more),
        contains_alias(key + seq![0x3a, 0x20, 0x7b, 0x2a, b] + more),
        contains_alias(seq![0x2d, 0x20, 0x2a, b] + more),
        contains_alias(seq![0x2a, b] + more),
{
    let n = key.len() as int;
    let value = key + seq![0x3a, 0x20, 0x2a, b];
    let listed = key + seq![0x3a, 0x20, 0x5b, 0x2a, b];
    let mapped = key + seq![0x3a, 0x20, 0x7b, 0x2a, b];
    anchor_names_begin_with_any_letter_or_digit(b);
    words_lead_to_values(value, n);
    words_lead_to_values(listed, n);
    words_lead_to_values(mapped, n);
    assert(alias_at(value, n + 2));
    assert(!break_ends(listed, n + 3) && !break_ends(mapped, n + 3));
    assert(place_at(listed, n + 3) == Place::Start);
    assert(place_at(mapped, n + 3) == Place::Start);
    assert(alias_at(listed, n + 3));
    assert(alias_at(mapped, n + 3));
    let item = seq![0x2du8, 0x20, 0x2a, b];
    assert(place_at(item, 0) == Place::Start);
    assert(place_at(item, 1) == Place::Start);
    assert(place_at(item, 2) == Place::Start);
    assert(alias_at(item, 2));
    assert(alias_at(seq![0x2au8, b], 0));
    appended_text_hides_nothing(value, more);
    appended_text_hides_nothing(listed, more);
    appended_text_hides_nothing(mapped, more);
    appended_text_hides_nothing(item, more);
    appended_text_hides_nothing(seq![0x2a, b], more);
}

proof fn words_lead_to_values(line: Seq<u8>, n: int)
    requires
        0 <= n && n + 1 < line.len(),
        line[n] == 0x3a && line[n + 1] == 0x20,
        forall|i: int|
            0 <= i < n ==> 0x41 <= #[trigger] line[i] <= 0x5a || 0x61 <= line[i] <= 0x7a,
    ensures
        place_at(line, n + 1) == Place::Start,
        place_at(line, n + 2) == Place::Start,
        !break_ends(line, n + 1) && !break_ends(line, n + 2),
{
    letters_are_plain(line, n);
}

/// The places of a line behind position `n` are those of its tail `s`.
proof fn tail_places(line: Seq<u8>, s: Seq<u8>, n: int, i: int)
    requires
        0 <= n && line.len() == n + s.len(),
        forall|k: int| 0 <= k < s.len() ==> #[trigger] s[k] == line[n + k],
        1 <= i <= s.len(),
        s[0] == 0x2c || s[0] == 0x20,
        place_at(line, n + 1) == place_at(s, 1),
    ensures
        place_at(line, n + i) == place_at(s, i),
        break_ends(line, n + i) == break_ends(s, i),
    decreases i,
{
    assert(s[0] == line[n]);
    assert(s[i - 1] == line[n + (i - 1)]);
    if i >= 2 {
        assert(s[i - 2] == line[n + (i - 2)]);
    }
    if i >= 3 {
        assert(s[i - 3] == line[n + (i - 3)]);
    }
    if i > 1 {
        tail_places(line, s, n, i - 1);
        if i >= 4 {
            tail_places(line, s, n, i - 3);
        }
        if i < s.len() {
            assert(s[i] == line[n + i]);
        }
    }
}

proof fn head_aliases(line: Seq<u8>, p: Seq<u8>, i: int)
    requires
        p.len() <= line.len(),
        forall|k: int| 0 <= k < p.len() ==> #[trigger] p[k] == line[k],
        0 <= i && i + 1 < p.len(),
    ensures
        alias_at(line, i) == alias_at(p, i),
{
    let more = line.skip(p.len() as int);
    assert(p + more =~= line);
    places_of_prefix(p, more, i);
    assert(p[i] == line[i] && p[i + 1] == line[i + 1]);
    if i >= 1 {
        places_of_prefix(p, more, i - 1);
        assert(p[i - 1] == line[i - 1]);
    }
    if i >= 2 {
        assert(p[i - 2] == line[i - 2]);
    }
    if i >= 3 {
        assert(p[i - 3] == line[i - 3]);
    }
    assert(row_starts(line, i) == row_starts(p, i));
}

proof fn tail_aliases(line: Seq<u8>, s: Seq<u8>, n: int, i: int)
    requires
        0 <= n && line.len() == n + s.len(),
        forall|k: int| 0 <= k < s.len() ==> #[trigger] s[k] == line[n + k],
        1 <= i < s.len(),
        s[0] == 0x2c || s[0] == 0x20,
        place_at(line, n + 1) == place_at(s, 1),
        boundary_before(line, n + 1) == boundary_before(s, 1),
    ensures
        alias_at(line, n + i) == alias_at(s, i),
{
    tail_places(line, s, n, i);
    assert(s[i] == line[n + i]);
    if i + 1 < s.len() {
        assert(s[i + 1] == line[n + (i + 1)]);
    }
    if i > 1 {
        tail_places(line, s, n, i - 1);
        assert(s[i - 1] == line[n + (i - 1)]);
        assert(boundary_before(line, n + i) == boundary_before(s, i));
    }
}

/// A line holds what its head `p` and its tail `s` hold, where nothing between
/// them is an alias node.
proof fn aliases_of_parts(line: Seq<u8>, p: Seq<u8>, s: Seq<u8>, n: int)
    requires
        p.len() <= n && line.len() == n + s.len(),
        forall|k: int| 0 <= k < p.len() ==> #[trigger] p[k] == line[k],
        forall|k: int| 0 <= k < s.len() ==> #[trigger] s[k] == line[n + k],
        s.len() > 0,
        s[0] == 0x2c || s[0] == 0x20,
        place_at(line, n + 1) == place_at(s, 1),
        boundary_before(line, n + 1) == boundary_before(s, 1),
        forall|i: int| p.len() - 1 <= i < n ==> !#[trigger] alias_at(line, i),
    ensures
        contains_alias(line) == (contains_alias(p) || contains_alias(s)),
{
    assert(s[0] == line[n]);
    if contains_alias(line) {
        let i = choose|i: int| #[trigger] alias_at(line, i);
        if i < p.len() - 1 {
            head_aliases(line, p, i);
        } else if i > n {
            tail_aliases(line, s, n, i - n);
        }
    }
    if contains_alias(p) {
        let i = choose|i: int| #[trigger] alias_at(p, i);
        head_aliases(line, p, i);
    }
    if contains_alias(s) {
        let i = choose|i: int| #[trigger] alias_at(s, i);
        tail_aliases(line, s, n, i);
    }
}

/// A comma outside strings and comments parts a line: it holds an alias node
/// exactly where what stands before the comma does, or what follows it.
pub proof fn commas_part_lines(p: Seq<u8>, s: Seq<u8>)
    requires
        has_no_quotes(p),
        forall|i: int| 0 <= i < p.len() ==> #[trigger] p[i] != 0x23,
    ensures
        contains_alias(p + seq![0x2c] + s) == (contains_alias(p) || contains_alias(
            seq![0x2c] + s,
        )),
{
    let tail = seq![0x2cu8] + s;
    let line = p + seq![0x2c] + s;
    let n = p.len() as int;
    assert(line =~= p + tail);
    places_without_quotes(line, n);
    assert(line[n] == 0x2c);
    assert(place_at(tail, 0) == Place::Start);
    assert(!break_ends(line, n + 1) && !break_ends(tail, 1));
    if n > 0 {
        assert(!alias_at(line, n - 1));
    }
    aliases_of_parts(line, p, tail, n);
}

/// A colon with a blank behind it parts a line in the same way.
pub proof fn keys_part_lines(p: Seq<u8>, s: Seq<u8>)
    requires
        has_no_quotes(p),
        forall|i: int| 0 <= i < p.len() ==> #[trigger] p[i] != 0x23,
    ensures
        contains_alias(p + seq![0x3a, 0x20] + s) == (contains_alias(p) || contains_alias(
            seq![0x20] + s,
        )),
{
    let tail = seq![0x20u8] + s;
    let line = p + seq![0x3a, 0x20] + s;
    let n = p.len() as int;
    places_without_quotes(line, n);
    assert(line[n] == 0x3a && line[n + 1] == 0x20);
    assert(place_at(tail, 0) == Place::Start);
    assert(!break_ends(line, n + 1) && !break_ends(line, n + 2) && !break_ends(tail, 1));
    assert(place_at(line, n + 1) == Place::Start);
    assert(place_at(line, n + 2) == Place::Start);
    if n > 0 {
        assert(!alias_at(line, n - 1));
    }
    assert(!alias_at(line, n));
    aliases_of_parts(line, p, tail, n + 1);
}

/// Whether a node can start behind `p`, a line without quotes and `#`: at the
/// start of a line, behind an opening bracket or a comma, behind a key, behind
/// the dash of an item, the mark of a key or the start of a document, and
/// behind an anchor or a tag.
pub open spec fn leads_to_node(p: Seq<u8>) -> bool {
    let n = p.len() as int;
    &&& has_no_quotes(p)
    &&& forall|i: int| 0 <= i < p.len() ==> #[trigger] p[i] != 0x23
    &&& {
        ||| p.len() == 0
        ||| p[n - 1] == 0x5b || p[n - 1] == 0x7b || p[n - 1] == 0x2c
        ||| n >= 2 && p[n - 2] == 0x3a && p[n - 1] == 0x20
        ||| p == seq![0x2du8, 0x20] || p == seq![0x3fu8, 0x20]
        ||| p == seq![0x2du8, 0x2d, 0x2d, 0x20]
        ||| n >= 3 && (p[0] == 0x21 || p[0] == 0x26) && is_word(p.subrange(1, n - 1)) && p[n - 1]
            == 0x20
    }
}

proof fn property_goes_on(line: Seq<u8>, i: int)
    requires
        1 <= i <= line.len(),
        line[0] == 0x21 || line[0] == 0x26,
        forall|k: int|
            1 <= k < i ==> 0x41 <= #[trigger] line[k] <= 0x5a || 0x61 <= line[k] <= 0x7a,
    ensures
        place_at(line, i) == Place::Property,
    decreases i,
{
    assert(place_at(line, 0) == Place::Start);
    if i > 1 {
        property_goes_on(line, i - 1);
        assert(line[i - 1] >= 0x41);
    }
}

proof fn nodes_start_there(line: Seq<u8>, p: Seq<u8>)
    requires
        leads_to_node(p),
        p.len() < line.len(),
        forall|k: int| 0 <= k < p.len() ==> #[trigger] p[k] == line[k],
    ensures
        place_at(line, p.len() as int) == Place::Start,
{
    let n = p.len() as int;
    assert forall|i: int| 0 <= i < n implies #[trigger] line[i] != 0x22 && line[i] != 0x27
        && line[i] != 0x23 by {
        assert(p[i] == line[i]);
    }
    if n >= 1 {
        assert(p[n - 1] == line[n - 1]);
        places_without_quotes(line, n - 1);
    }
    if n >= 2 && p[n - 2] == 0x3a && p[n - 1] == 0x20 {
        assert(p[n - 2] == line[n - 2]);
        places_without_quotes(line, n - 2);
        assert(place_at(line, n - 1) == Place::Start);
    } else if p == seq![0x2du8, 0x20] || p == seq![0x3fu8, 0x20] {
        assert(p[0] == line[0] && p[1] == line[1]);
        assert(place_at(line, 0) == Place::Start);
        assert(place_at(line, 1) == Place::Start);
    } else if p == seq![0x2du8, 0x2d, 0x2d, 0x20] {
        assert(p[0] == line[0] && p[1] == line[1] && p[2] == line[2] && p[3] == line[3]);
        assert(document_starts(line, 2));
        assert(!break_ends(line, 3));
        places_without_quotes(line, 2);
        assert(place_at(line, 3) == Place::Start);
    } else if n >= 3 && (p[0] == 0x21 || p[0] == 0x26) && is_word(p.subrange(1, n - 1)) && p[n - 1]
        == 0x20 {
        assert(p[0] == line[0]);
        assert forall|k: int| 1 <= k < n - 1 implies 0x41 <= #[trigger] line[k] <= 0x5a || 0x61
            <= line[k] <= 0x7a by {
            assert(p.subrange(1, n - 1)[k - 1] == p[k]);
            assert(p[k] == line[k]);
        }
        property_goes_on(line, n - 1);
    }
}

/// A string that no quote closes hides what follows to the end of the line,
/// whatever it holds, line breaks and comment signs included.
pub proof fn open_strings_hide_the_rest(p: Seq<u8>, quote: u8, text: Seq<u8>)
    requires
        leads_to_node(p),
        quote == 0x27 || quote == 0x22,
        !text.contains(quote),
    ensures
        contains_alias(p + seq![quote] + text) == contains_alias(p),
{
    let line = p + seq![quote] + text;
    let n = p.len() as int;
    nodes_start_there(line, p);
    assert(line[n] == quote);
    assert(!break_ends(line, n + 1));
    assert forall|k: int| n + 1 <= k < line.len() implies #[trigger] line[k] != quote by {
        assert(line[k] == text[k - n - 1]);
    }
    assert forall|i: int| n - 1 <= i implies !#[trigger] alias_at(line, i) by {
        if alias_at(line, i) && i > n {
            string_goes_on(line, n + 1, i, quote);
        }
    }
    let more = seq![quote] + text;
    assert(p + more =~= line);
    if contains_alias(p) {
        appended_text_hides_nothing(p, more);
    }
    if contains_alias(line) {
        let i = choose|i: int| #[trigger] alias_at(line, i);
        places_of_prefix(p, more, i);
        if i > 0 {
            places_of_prefix(p, more, i - 1);
        }
        assert(alias_at(p, i));
    }
}

/// Whether `e` is nothing, or two single quotes in a string in single quotes, or
/// a backslash and any byte in one in double quotes.
pub open spec fn is_escape(e: Seq<u8>, quote: u8) -> bool {
    ||| e.len() == 0
    ||| quote == 0x27 && e == seq![0x27u8, 0x27]
    ||| quote == 0x22 && e.len() == 2 && e[0] == 0x5c
}

/// Whether `text` stands in a string as it is: it holds neither the quote nor,
/// in double quotes, a backslash.
pub open spec fn is_literal(text: Seq<u8>, quote: u8) -> bool {
    forall|i: int|
        0 <= i < text.len() ==> #[trigger] text[i] != quote && (quote == 0x22 ==> text[i] != 0x5c)
}

proof fn literals_go_on(line: Seq<u8>, start: int, i: int, quote: u8)
    requires
        0 <= start <= i <= line.len(),
        quote == 0x27 && (place_at(line, start) == Place::Single) || quote == 0x22 && place_at(
            line,
            start,
        ) == Place::Double,
        forall|k: int|
            start <= k < i ==> #[trigger] line[k] != quote && (quote == 0x22 ==> line[k] != 0x5c),
    ensures
        place_at(line, i) == place_at(line, start),
    decreases i,
{
    if i > start {
        literals_go_on(line, start, i - 1, quote);
        assert(line[i - 1] != quote);
    }
}

proof fn closed_goes_on(line: Seq<u8>, start: int, i: int)
    requires
        0 <= start <= i <= line.len(),
        place_at(line, start) == Place::Closed || place_at(line, start) == Place::Ended,
        forall|k: int|
            start <= k < i ==> #[trigger] line[k] == 0x20 || line[k] == 0x09 || line[k] == 0x5d
                || line[k] == 0x7d,
    ensures
        place_at(line, i) == Place::Closed || place_at(line, i) == Place::Ended,
    decreases i,
{
    if i > start {
        closed_goes_on(line, start, i - 1);
        assert(line[i - 1] == 0x20 || line[i - 1] == 0x09 || line[i - 1] == 0x5d || line[i - 1]
            == 0x7d);
    }
}

/// The line that [`strings_hide_themselves_alone`] speaks of, up to its tail.
spec fn quoted(
    p: Seq<u8>,
    quote: u8,
    first: Seq<u8>,
    escape: Seq<u8>,
    second: Seq<u8>,
    closing: Seq<u8>,
) -> Seq<u8> {
    p + seq![quote] + first + escape + second + seq![quote] + closing
}

proof fn places_of_quoted(
    line: Seq<u8>,
    p: Seq<u8>,
    quote: u8,
    first: Seq<u8>,
    escape: Seq<u8>,
    second: Seq<u8>,
    closing: Seq<u8>,
)
    requires
        leads_to_node(p),
        quote == 0x27 || quote == 0x22,
        is_literal(first, quote) && is_escape(escape, quote) && is_literal(second, quote),
        forall|i: int|
            0 <= i < closing.len() ==> #[trigger] closing[i] == 0x20 || closing[i] == 0x09
                || closing[i] == 0x5d || closing[i] == 0x7d,
        quoted(p, quote, first, escape, second, closing).is_prefix_of(line),
        quoted(p, quote, first, escape, second, closing).len() < line.len(),
    ensures
        ({
            let n = quoted(p, quote, first, escape, second, closing).len() as int;
            &&& place_at(line, n) == Place::Closed || place_at(line, n) == Place::Ended
            &&& forall|i: int| p.len() - 1 <= i < n ==> !#[trigger] alias_at(line, i)
        }),
{
    let head = quoted(p, quote, first, escape, second, closing);
    let n = head.len() as int;
    assert forall|k: int| 0 <= k < n implies #[trigger] head[k] == line[k] by {
        assert(line.subrange(0, n)[k] == line[k]);
    }
    let a = p.len() as int;
    let b = a + 1 + first.len();
    let c = b + escape.len();
    let d = c + second.len();
    assert forall|k: int| 0 <= k < p.len() implies #[trigger] p[k] == line[k] by {
        assert(head[k] == p[k]);
    }
    nodes_start_there(line, p);
    assert(head[a] == quote && head[d] == quote);
    assert(!break_ends(line, a + 1));
    let inside = place_at(line, a + 1);
    assert forall|k: int| a + 1 <= k < b implies #[trigger] line[k] != quote && (quote == 0x22
        ==> line[k] != 0x5c) by {
        assert(head[k] == first[k - a - 1]);
    }
    literals_go_on(line, a + 1, b, quote);
    if escape.len() > 0 {
        assert(head[b] == escape[0] && head[b + 1] == escape[1]);
        assert(place_at(line, b + 1) == Place::Ended || place_at(line, b + 1) == Place::Escaped);
        assert(quote == 0x27 ==> !break_ends(line, b + 2));
    }
    assert(place_at(line, c) == inside);
    assert forall|k: int| c <= k < d implies #[trigger] line[k] != quote && (quote == 0x22
        ==> line[k] != 0x5c) by {
        assert(head[k] == second[k - c]);
    }
    literals_go_on(line, c, d, quote);
    assert forall|k: int| d + 1 <= k < n implies #[trigger] line[k] == 0x20 || line[k] == 0x09
        || line[k] == 0x5d || line[k] == 0x7d by {
        assert(head[k] == closing[k - d - 1]);
    }
    closed_goes_on(line, d + 1, n);
    assert forall|i: int| p.len() - 1 <= i < n implies !#[trigger] alias_at(line, i) by {
        if alias_at(line, i) {
            assert(line[i] == 0x2a && line[i + 1] != quote);
            if a < i <= b {
                literals_go_on(line, a + 1, i, quote);
            } else if b < i < c {
                assert(in_string(place_at(line, i)) || line[i] == 0x27);
            } else if c <= i <= d {
                literals_go_on(line, c, i, quote);
            }
        }
    }
}

/// A string hides what it holds and nothing else: behind it, and behind brackets
/// and blanks that follow it, what a comma or a colon leads to counts as it does
/// on a line of its own.
pub proof fn strings_hide_themselves_alone(
    p: Seq<u8>,
    quote: u8,
    first: Seq<u8>,
    escape: Seq<u8>,
    second: Seq<u8>,
    closing: Seq<u8>,
    s: Seq<u8>,
)
    requires
        leads_to_node(p),
        quote == 0x27 || quote == 0x22,
        is_literal(first, quote) && is_escape(escape, quote) && is_literal(second, quote),
        forall|i: int|
            0 <= i < closing.len() ==> #[trigger] closing[i] == 0x20 || closing[i] == 0x09
                || closing[i] == 0x5d || closing[i] == 0x7d,
    ensures
        contains_alias(
            p + seq![quote] + first + escape + second + seq![quote] + closing + seq![0x2c] + s,
        ) == (contains_alias(p) || contains_alias(seq![0x2c] + s)),
        contains_alias(
            p + seq![quote] + first + escape + second + seq![quote] + closing + seq![0x3a, 0x20]
                + s,
        ) == (contains_alias(p) || contains_alias(seq![0x20] + s)),
{
    let head = quoted(p, quote, first, escape, second, closing);
    let n = head.len() as int;
    let listed = head + seq![0x2c] + s;
    let keyed = head + seq![0x3a, 0x20] + s;
    let item = seq![0x2cu8] + s;
    let value = seq![0x20u8] + s;
    assert(head =~= listed.subrange(0, n));
    assert(head =~= keyed.subrange(0, n));
    places_of_quoted(listed, p, quote, first, escape, second, closing);
    places_of_quoted(keyed, p, quote, first, escape, second, closing);
    assert forall|k: int| 0 <= k < p.len() implies #[trigger] p[k] == listed[k] && p[k]
        == keyed[k] by {}
    assert(listed[n] == 0x2c && keyed[n] == 0x3a && keyed[n + 1] == 0x20);
    assert(place_at(item, 0) == Place::Start && place_at(value, 0) == Place::Start);
    assert(!break_ends(listed, n + 1) && !break_ends(item, 1));
    assert(!break_ends(keyed, n + 1) && !break_ends(keyed, n + 2) && !break_ends(value, 1));
    assert(place_at(keyed, n + 1) == Place::Start);
    assert(!alias_at(keyed, n));
    aliases_of_parts(listed, p, item, n);
    aliases_of_parts(keyed, p, value, n + 1);
}

proof fn marked_goes_on(line: Seq<u8>, start: int, i: int)
    requires
        0 <= start <= i < line.len(),
        place_at(line, start) == Place::Marked,
        forall|k: int|
            start <= k < i ==> 0x41 <= #[trigger] line[k] <= 0x5a || 0x61 <= line[k] <= 0x7a,
    ensures
        place_at(line, i) == Place::Marked,
    decreases i,
{
    if i > start {
        marked_goes_on(line, start, i - 1);
        assert(line[i - 1] >= 0x41);
    }
}

/// Whether `first` is a word, or a dash or a colon, so that plain text begins with
/// it where no blank follows.
pub open spec fn begins_plain_text(first: Seq<u8>) -> bool {
    ||| is_word(first) && first.len() > 0
    ||| first == seq![0x2du8]
    ||| first == seq![0x3au8]
}

proof fn words_with_marks_are_plain(line: Seq<u8>, first: Seq<u8>, mark: u8, second: Seq<u8>)
    requires
        begins_plain_text(first) && is_word(second),
        mark == 0x22 || mark == 0x27 || mark == 0x23,
        (first + seq![mark] + second).is_prefix_of(line),
        (first + seq![mark] + second).len() < line.len(),
    ensures
        place_at(line, first.len() as int + 1 + second.len()) == Place::Marked,
        forall|i: int|
            0 <= i <= first.len() + second.len() ==> #[trigger] line[i] != 0x2a,
{
    let head = first + seq![mark] + second;
    let n = head.len() as int;
    let m = first.len() as int;
    assert forall|k: int| 0 <= k < n implies #[trigger] head[k] == line[k] by {
        assert(line.subrange(0, n)[k] == line[k]);
    }
    assert forall|k: int| m + 1 <= k < n implies 0x41 <= #[trigger] line[k] <= 0x5a || 0x61
        <= line[k] <= 0x7a by {
        assert(head[k] == second[k - m - 1]);
    }
    assert(head[m] == mark);
    if is_word(first) {
        assert forall|k: int| 0 <= k < m implies 0x41 <= #[trigger] line[k] <= 0x5a || 0x61
            <= line[k] <= 0x7a by {
            assert(head[k] == first[k]);
        }
        letters_are_plain(line, m - 1);
        assert(line[m - 1] >= 0x41);
    } else {
        assert(head[0] == first[0]);
        assert(place_at(line, 0) == Place::Start);
    }
    assert(!break_ends(line, m));
    assert(place_at(line, m) == Place::Plain);
    assert(!break_ends(line, m + 1));
    assert(place_at(line, m + 1) == Place::Marked);
    marked_goes_on(line, m + 1, n);
}

proof fn marked_items(first: Seq<u8>, mark: u8, second: Seq<u8>, s: Seq<u8>)
    requires
        begins_plain_text(first) && is_word(second),
        mark == 0x22 || mark == 0x27 || mark == 0x23,
    ensures
        contains_alias(first + seq![mark] + second + seq![0x2c] + s) == contains_alias(
            seq![0x2c] + s,
        ),
{
    let head = first + seq![mark] + second;
    let n = head.len() as int;
    let line = head + seq![0x2c] + s;
    let item = seq![0x2cu8] + s;
    let none = Seq::<u8>::empty();
    assert(head =~= line.subrange(0, n));
    words_with_marks_are_plain(line, first, mark, second);
    assert(line[n] == 0x2c);
    assert(place_at(item, 0) == Place::Start);
    assert(!break_ends(line, n + 1) && !break_ends(item, 1));
    assert forall|i: int| -1 <= i < n implies !#[trigger] alias_at(line, i) by {
        assert(i >= 0 ==> line[i] != 0x2a);
    }
    aliases_of_parts(line, none, item, n);
}

proof fn marked_keys(first: Seq<u8>, mark: u8, second: Seq<u8>, s: Seq<u8>)
    requires
        begins_plain_text(first) && is_word(second),
        mark == 0x22 || mark == 0x27 || mark == 0x23,
    ensures
        contains_alias(first + seq![mark] + second + seq![0x3a, 0x20] + s) == contains_alias(
            seq![0x20] + s,
        ),
{
    let head = first + seq![mark] + second;
    let n = head.len() as int;
    let line = head + seq![0x3a, 0x20] + s;
    let value = seq![0x20u8] + s;
    let none = Seq::<u8>::empty();
    assert(head =~= line.subrange(0, n));
    words_with_marks_are_plain(line, first, mark, second);
    assert(line[n] == 0x3a && line[n + 1] == 0x20);
    assert(place_at(value, 0) == Place::Start);
    assert(!break_ends(line, n + 1) && !break_ends(line, n + 2) && !break_ends(value, 1));
    assert(place_at(line, n + 1) == Place::Start);
    assert forall|i: int| -1 <= i < n + 1 implies !#[trigger] alias_at(line, i) by {
        assert(0 <= i < n ==> line[i] != 0x2a);
    }
    aliases_of_parts(line, none, value, n + 1);
}

proof fn marked_texts(first: Seq<u8>, mark: u8, second: Seq<u8>, third: Seq<u8>)
    requires
        begins_plain_text(first) && is_word(second) && is_word(third),
        mark == 0x22 || mark == 0x27 || mark == 0x23,
    ensures
        !contains_alias(first + seq![mark] + second + seq![0x20, 0x2a] + third),
{
    let head = first + seq![mark] + second;
    let n = head.len() as int;
    let line = head + seq![0x20, 0x2a] + third;
    assert(head =~= line.subrange(0, n));
    words_with_marks_are_plain(line, first, mark, second);
    assert(line[n] == 0x20 && line[n + 1] == 0x2a);
    assert(!break_ends(line, n + 1));
    assert(!node_follows(line, place_at(line, n), n));
    assert(!boundary_before(line, n + 1));
    assert forall|i: int| 0 <= i < line.len() && i != n + 1 implies #[trigger] line[i] != 0x2a by {
        if i > n + 1 {
            assert(line[i] == third[i - n - 2]);
        }
    }
    if contains_alias(line) {
        let i = choose|i: int| #[trigger] alias_at(line, i);
        assert(line[i] == 0x2a);
    }
}

/// A quote or a `#` inside plain text opens nothing: what a comma or a colon leads to
/// behind it counts as it does on a line of its own, and an asterisk in the same
/// plain text is no alias node.
pub proof fn marks_inside_words_hide_nothing(
    first: Seq<u8>,
    mark: u8,
    second: Seq<u8>,
    third: Seq<u8>,
    s: Seq<u8>,
)
    requires
        begins_plain_text(first) && is_word(second) && is_word(third),
        mark == 0x22 || mark == 0x27 || mark == 0x23,
    ensures
        contains_alias(first + seq![mark] + second + seq![0x2c] + s) == contains_alias(
            seq![0x2c] + s,
        ),
        contains_alias(first + seq![mark] + second + seq![0x3a, 0x20] + s) == contains_alias(
            seq![0x20] + s,
        ),
        !contains_alias(first + seq![mark] + second + seq![0x20, 0x2a] + third),
{
    marked_items(first, mark, second, s);
    marked_keys(first, mark, second, s);
    marked_texts(first, mark, second, third);
}

/// A `#` at the start of a line, or behind a blank, hides the rest of the row.
pub proof fn comments_hide_their_row(p: Seq<u8>, comment: Seq<u8>)
    requires
        has_no_quotes(p),
        p.len() == 0 || p.last() == 0x20 || p.last() == 0x09,
        is_one_row(comment),
    ensures
        contains_alias(p + seq![0x23] + comment) == contains_alias(p),
{
    let line = p + seq![0x23] + comment;
    let more = seq![0x23u8] + comment;
    let n = p.len() as int;
    assert(line =~= p + more);
    places_without_quotes(line, n);
    assert(line[n] == 0x23);
    assert(!break_ends(line, n + 1));
    assert(place_at(line, n + 1) == Place::Comment);
    assert forall|k: int| n + 1 < k <= line.len() implies !#[trigger] break_ends(line, k) by {
        rows_do_not_break(comment, k - n - 1);
        assert(line[k - 1] == comment[k - n - 2]);
        if k - n - 1 >= 2 {
            assert(line[k - 2] == comment[k - n - 3]);
        }
        if k - n - 1 >= 3 {
            assert(line[k - 3] == comment[k - n - 4]);
        }
    }
    if contains_alias(p) {
        appended_text_hides_nothing(p, more);
    }
    if contains_alias(line) {
        let i = choose|i: int| #[trigger] alias_at(line, i);
        if i > n {
            comment_goes_on(line, n + 1, i);
        }
        places_of_prefix(p, more, i);
        if i > 0 {
            places_of_prefix(p, more, i - 1);
        }
        assert(alias_at(p, i));
    }
}

/// Whether `b` is a line break of YAML other than the line feed.
pub open spec fn is_break(b: Seq<u8>) -> bool {
    ||| b == seq![0x0du8]
    ||| b == seq![0xc2u8, 0x85]
    ||| b == seq![0xe2u8, 0x80, 0xa8]
    ||| b == seq![0xe2u8, 0x80, 0xa9]
}

proof fn row_places(line: Seq<u8>, s: Seq<u8>, n: int, i: int)
    requires
        0 <= n && line.len() == n + s.len(),
        forall|k: int| 0 <= k < s.len() ==> #[trigger] s[k] == line[n + k],
        0 <= i <= s.len(),
        place_at(line, n) == Place::Start,
        row_starts(line, n),
        n == 0 || line[n - 1] == 0x0d || line[n - 1] == 0x85 || line[n - 1] == 0xa8 || line[n - 1]
            == 0xa9,
    ensures
        place_at(line, n + i) == place_at(s, i),
        row_starts(line, n + i) == row_starts(s, i),
    decreases i,
{
    if i > 0 {
        row_places(line, s, n, i - 1);
        assert(s[i - 1] == line[n + (i - 1)]);
        if i >= 2 {
            assert(s[i - 2] == line[n + (i - 2)]);
        }
        if i >= 3 {
            assert(s[i - 3] == line[n + (i - 3)]);
            row_places(line, s, n, i - 3);
        }
        if i < s.len() {
            assert(s[i] == line[n + i]);
        }
    }
}

/// A line break of YAML parts a line, comments included: each row holds what it
/// holds on a line of its own.
pub proof fn rows_are_read_apart(p: Seq<u8>, b: Seq<u8>, s: Seq<u8>)
    requires
        has_no_quotes(p),
        is_break(b),
    ensures
        contains_alias(p + b + s) == (contains_alias(p) || contains_alias(s)),
{
    let line = p + b + s;
    let more = b + s;
    let m = p.len() as int;
    let n = m + b.len();
    assert(line =~= p + more);
    assert(line[m] == b[0] && line[n - 1] == b[b.len() - 1]);
    if b.len() == 3 {
        assert(line[m + 1] == b[1]);
    }
    assert forall|k: int| 0 <= k < n implies #[trigger] line[k] != 0x22 && line[k] != 0x27 by {
        if k < m {
            assert(line[k] == p[k]);
        } else {
            assert(line[k] == b[k - m]);
        }
    }
    places_without_quotes(line, n - 1);
    assert(break_ends(line, n));
    assert(place_at(line, n) == Place::Start);
    assert forall|i: int| 0 <= i < s.len() implies alias_at(line, n + i) == #[trigger] alias_at(
        s,
        i,
    ) by {
        row_places(line, s, n, i);
        assert(s[i] == line[n + i]);
        if i + 1 < s.len() {
            assert(s[i + 1] == line[n + (i + 1)]);
        }
        if i > 0 {
            row_places(line, s, n, i - 1);
            assert(s[i - 1] == line[n + (i - 1)]);
        }
    }
    if contains_alias(p) {
        appended_text_hides_nothing(p, more);
    }
    if contains_alias(s) {
        let i = choose|i: int| #[trigger] alias_at(s, i);
        assert(alias_at(line, n + i));
    }
    if contains_alias(line) {
        let i = choose|i: int| #[trigger] alias_at(line, i);
        if i >= n {
            assert(alias_at(s, i - n));
        } else {
            if i >= m {
                assert(line[i] == b[i - m]);
            }
            places_of_prefix(p, more, i);
            if i > 0 {
                places_of_prefix(p, more, i - 1);
            }
            assert(alias_at(p, i));
        }
    }
}

/// The mark of a key can lead to an alias node; a question mark inside a word
/// does not.
pub proof fn key_marks_lead_to_aliases(p: Seq<u8>, word: Seq<u8>, b: u8, more: Seq<u8>)
    requires
        leads_to_node(p),
        is_word(word) && word.len() > 0,
        "0123456789ABCDEFGHIJKLMNOPQRSTUVWXYZabcdefghijklmnopqrstuvwxyz_-"@.contains(b as char),
    ensures
        contains_alias(p + seq![0x3f, 0x2a, b] + more),
        !contains_alias(word + seq![0x3f, 0x2a, b]),
{
    anchor_names_begin_with_any_letter_or_digit(b);
    let line = p + seq![0x3f, 0x2a, b];
    let n = p.len() as int;
    nodes_start_there(line, p);
    assert(line[n] == 0x3f && line[n + 1] == 0x2a && line[n + 2] == b);
    assert(!break_ends(line, n + 1));
    assert(alias_at(line, n + 1));
    appended_text_hides_nothing(line, more);
    assert(line + more =~= p + seq![0x3f, 0x2a, b] + more);
    let inside = word + seq![0x3f, 0x2a, b];
    let m = word.len() as int;
    assert forall|k: int| 0 <= k < m implies 0x41 <= #[trigger] inside[k] <= 0x5a || 0x61
        <= inside[k] <= 0x7a by {
        assert(inside[k] == word[k]);
    }
    letters_are_plain(inside, m - 1);
    assert(inside[m - 1] >= 0x41);
    assert(!break_ends(inside, m));
    assert(place_at(inside, m) == Place::Plain);
    assert(inside[m] == 0x3f);
    assert(!break_ends(inside, m + 1));
    assert forall|i: int| !#[trigger] alias_at(inside, i) by {
        if alias_at(inside, i) {
            assert(i < m ==> inside[i] >= 0x41);
        }
    }
}

/// The number of line feeds in `raw`.
pub open spec fn line_feeds(raw: Seq<u8>) -> nat
    decreases raw.len(),
{
    if raw.len() == 0 {
        0
    } else if raw.last() == 10 {
        line_feeds(raw.drop_last()) + 1
    } else {
        line_feeds(raw.drop_last())
    }
}

/// A line feed ends a line, with a carriage return before it or without one; a
/// text without a line feed is one line, and no text is none.
pub proof fn line_feeds_end_lines(line: Seq<u8>, rest: Seq<u8>)
    requires
        forall|i: int| 0 <= i < line.len() ==> #[trigger] line[i] != 10,
    ensures
        lines(Seq::<u8>::empty()).len() == 0,
        line.len() > 0 ==> lines(line) == seq![line],
        line.len() == 0 || line.last() != 13 ==> lines(line + seq![10] + rest) == seq![line]
            + lines(rest),
        lines(line + seq![13, 10] + rest) == seq![line] + lines(rest),
{
    line_feed_at_is(line, line.len() as int);
    assert(line.take(line.len() as int) =~= line);
    let short = line + seq![10] + rest;
    let n = line.len() as int;
    assert forall|k: int| 0 <= k < n implies #[trigger] short[k] != 10 by {
        assert(short[k] == line[k]);
    }
    line_feed_at_is(short, n);
    assert(after_first_line(short) =~= rest);
    if n == 0 || line.last() != 13 {
        assert(first_line(short) =~= line);
    }
    let long = line + seq![13, 10] + rest;
    assert forall|k: int| 0 <= k < n + 1 implies #[trigger] long[k] != 10 by {
        if k < n {
            assert(long[k] == line[k]);
        }
    }
    line_feed_at_is(long, n + 1);
    assert(first_line(long) =~= line);
    assert(after_first_line(long) =~= rest);
    if n > 0 {
        assert(first_line(line) =~= line);
        assert(after_first_line(line) =~= Seq::empty());
        assert(lines(after_first_line(line)) =~= Seq::empty());
        assert(lines(line) =~= seq![line]);
    }
}

proof fn line_feeds_add_up(a: Seq<u8>, b: Seq<u8>)
    ensures
        line_feeds(a + b) == line_feeds(a) + line_feeds(b),
    decreases b.len(),
{
    if b.len() == 0 {
        assert(a + b =~= a);
    } else {
        assert((a + b).drop_last() =~= a + b.drop_last());
        line_feeds_add_up(a, b.drop_last());
    }
}

proof fn no_line_feeds(line: Seq<u8>)
    requires
        forall|i: int| 0 <= i < line.len() ==> #[trigger] line[i] != 10,
    ensures
        line_feeds(line) == 0,
    decreases line.len(),
{
    if line.len() > 0 {
        assert(line[line.len() - 1] != 10);
        assert forall|i: int| 0 <= i < line.drop_last().len() implies #[trigger] line.drop_last()[i]
            != 10 by {
            assert(line[i] != 10);
        }
        no_line_feeds(line.drop_last());
    }
}

/// Lines that are ended come before what follows them, one for each line feed.
pub proof fn ended_lines_come_first(before: Seq<u8>, rest: Seq<u8>)
    requires
        before.len() == 0 || before.last() == 10,
    ensures
        lines(before).len() == line_feeds(before),
        lines(before + rest) == lines(before) + lines(rest),
    decreases before.len(),
{
    if before.len() == 0 {
        assert(before + rest =~= rest);
        assert(lines(before) + lines(rest) =~= lines(rest));
    } else {
        line_feed_at_bound(before);
        feed_is_first(before);
        let at = line_feed_at(before);
        assert(at < before.len()) by {
            if at == before.len() {
                assert(before[before.len() - 1] != 10);
            }
        }
        let next = before.skip(at + 1);
        let all = before + rest;
        assert(after_first_line(before) =~= next);
        assert forall|k: int| 0 <= k < at implies #[trigger] all[k] != 10 by {
            assert(all[k] == before[k]);
        }
        line_feed_at_is(all, at);
        assert(after_first_line(all) =~= next + rest);
        assert(first_line(all) =~= first_line(before));
        if next.len() > 0 {
            assert(next.last() == before.last());
        }
        ended_lines_come_first(next, rest);
        let row = before.take(at);
        assert forall|i: int| 0 <= i < row.len() implies #[trigger] row[i] != 10 by {
            assert(row[i] == before[i]);
        }
        no_line_feeds(row);
        assert(before =~= row + seq![10] + next);
        assert(row + seq![10u8] =~= row.push(10));
        assert(row.push(10).drop_last() =~= row);
        line_feeds_add_up(row.push(10), next);
        assert(before =~= row.push(10) + next);
        assert(lines(all) =~= lines(before) + lines(rest));
    }
}

proof fn feed_is_first(raw: Seq<u8>)
    ensures
        line_feed_at(raw) < raw.len() ==> raw[line_feed_at(raw)] == 10,
        forall|k: int| 0 <= k < line_feed_at(raw) ==> #[trigger] raw[k] != 10,
    decreases raw.len(),
{
    if raw.len() > 0 && raw[0] != 10 {
        line_feed_at_bound(raw.skip(1));
        feed_is_first(raw.skip(1));
        assert forall|k: int| 0 <= k < line_feed_at(raw) implies #[trigger] raw[k] != 10 by {
            if k > 0 {
                assert(raw.skip(1)[k - 1] == raw[k]);
            }
        }
    }
}

/// An alias node on any line is found, wherever the line stands, and is reported
/// on the line that it stands on: one more than there are line feeds before it,
/// where none of the lines before has one.
pub proof fn aliases_are_found_on_every_line(before: Seq<u8>, line: Seq<u8>, rest: Seq<u8>)
    requires
        before.len() == 0 || before.last() == 10,
        forall|i: int| 0 <= i < line.len() ==> #[trigger] line[i] != 10,
        contains_alias(line),
    ensures
        has_alias(before + line),
        line.last() != 13 ==> has_alias(before + line + seq![10] + rest),
        has_alias(before + line + seq![13, 10] + rest),
        !has_alias(before) ==> {
            let n = line_feeds(before) as int + 1;
            &&& is_first_alias_line(before + line, n)
            &&& line.last() != 13 ==> is_first_alias_line(before + line + seq![10] + rest, n)
            &&& is_first_alias_line(before + line + seq![13, 10] + rest, n)
        },
{
    let k = lines(before).len() as int;
    let short = line + seq![10] + rest;
    let long = line + seq![13, 10] + rest;
    assert(line.len() > 0);
    line_feeds_end_lines(line, rest);
    ended_lines_come_first(before, line);
    ended_lines_come_first(before, short);
    ended_lines_come_first(before, long);
    assert(before + line + seq![10] + rest =~= before + short);
    assert(before + line + seq![13, 10] + rest =~= before + long);
    assert(lines(before + line)[k] == line);
    assert(lines(before + long)[k] == line);
    if line.last() != 13 {
        assert(lines(before + short)[k] == line);
    }
    if !has_alias(before) {
        assert forall|j: int| 0 <= j < k implies !contains_alias(#[trigger] lines(before)[j]) by {}
        assert forall|j: int| 0 <= j < k implies !contains_alias(
            #[trigger] lines(before + line)[j],
        ) by {
            assert(lines(before + line)[j] == lines(before)[j]);
        }
        assert forall|j: int| 0 <= j < k implies !contains_alias(
            #[trigger] lines(before + short)[j],
        ) by {
            assert(lines(before + short)[j] == lines(before)[j]);
        }
        assert forall|j: int| 0 <= j < k implies !contains_alias(
            #[trigger] lines(before + long)[j],
        ) by {
            assert(lines(before + long)[j] == lines(before)[j]);
        }
    }
}

/// Lines without alias nodes make up YAML without alias nodes.
pub proof fn clean_lines_pass(before: Seq<u8>, line: Seq<u8>)
    requires
        before.len() == 0 || before.last() == 10,
        !has_alias(before),
        forall|i: int| 0 <= i < line.len() ==> #[trigger] line[i] != 10,
        !contains_alias(line),
    ensures
        !has_alias(before + line),
        line.len() == 0 || line.last() != 13 ==> !has_alias(before + line + seq![10]),
        !has_alias(before + line + seq![13, 10]),
{
    let none = Seq::<u8>::empty();
    let short = line + seq![10];
    let long = line + seq![13, 10];
    line_feeds_end_lines(line, none);
    assert(line + seq![10] + none =~= short);
    assert(line + seq![13, 10] + none =~= long);
    ended_lines_come_first(before, line);
    ended_lines_come_first(before, short);
    ended_lines_come_first(before, long);
    assert(before + line + seq![10] =~= before + short);
    assert(before + line + seq![13, 10] =~= before + long);
    let n = lines(before).len() as int;
    assert forall|raw: Seq<u8>|
        lines(raw) == lines(before) + seq![line] || lines(raw) == lines(before) implies
        !#[trigger] has_alias(raw) by {
        if has_alias(raw) {
            let k = choose|k: int|
                0 <= k < lines(raw).len() && contains_alias(#[trigger] lines(raw)[k]);
            assert(k < n ==> lines(raw)[k] == lines(before)[k]);
        }
    }
    assert(seq![line] + lines(none) =~= seq![line]);
    if line.len() == 0 {
        assert(line =~= none);
        assert(lines(before) + lines(line) =~= lines(before));
    }
}

/// A refusal names the line, or the number of bytes, in decimal, and the limit
/// of 4 MiB.
pub proof fn refusals_name_their_numbers(n: nat)
    ensures
        alias_message(n) == "YAML alias nodes (`*anchor`) are not supported (line "@
            + text::decimal_text(n)
            + "); they enable alias-expansion denial-of-service and are not used by any Praxis config"@,
        yaml_size_message(n) == "YAML input too large ("@ + text::decimal_text(n)
            + " bytes, max 4194304)"@,
        file_size_message(n) == "config file too large ("@ + text::decimal_text(n)
            + " bytes, max 4194304)"@,
        MAX_YAML_BYTES == 4 * 1024 * 1024,
{
}

/// An error says its message.
pub proof fn errors_say_their_message(message: String)
    ensures
        ProxyError::Config(message)@ == message@,
{
}

proof fn string_hides_the_rest(line: Seq<u8>, p: Seq<u8>, n: int, quote: u8)
    requires
        p.len() <= n < line.len(),
        forall|k: int| 0 <= k < p.len() ==> #[trigger] p[k] == line[k],
        quote == 0x27 || quote == 0x22,
        line[n] == quote,
        place_at(line, n + 1) == if quote == 0x27 {
            Place::Single
        } else {
            Place::Double
        },
        forall|k: int| n < k < line.len() ==> #[trigger] line[k] != quote,
        forall|i: int| p.len() - 1 <= i < n ==> !#[trigger] alias_at(line, i),
    ensures
        contains_alias(line) == contains_alias(p),
{
    if contains_alias(line) {
        let i = choose|i: int| #[trigger] alias_at(line, i);
        if i > n {
            string_goes_on(line, n + 1, i, quote);
        }
        head_aliases(line, p, i);
    }
    if contains_alias(p) {
        let i = choose|i: int| #[trigger] alias_at(p, i);
        head_aliases(line, p, i);
    }
}

/// Behind a string, and behind the colon that makes it a key, another string can
/// open, and hides what follows.
pub proof fn strings_open_behind_strings(
    p: Seq<u8>,
    quote: u8,
    first: Seq<u8>,
    closing: Seq<u8>,
    other: u8,
    text: Seq<u8>,
)
    requires
        leads_to_node(p),
        quote == 0x27 || quote == 0x22,
        is_literal(first, quote),
        forall|i: int|
            0 <= i < closing.len() ==> #[trigger] closing[i] == 0x20 || closing[i] == 0x09
                || closing[i] == 0x5d || closing[i] == 0x7d,
        other == 0x27 || other == 0x22,
        !text.contains(other),
        closing.len() > 0 || other != quote,
    ensures
        contains_alias(
            p + seq![quote] + first + seq![quote] + closing + seq![other] + text,
        ) == contains_alias(p),
        contains_alias(
            p + seq![quote] + first + seq![quote] + closing + seq![0x3a, other] + text,
        ) == contains_alias(p),
{
    let none = Seq::<u8>::empty();
    let head = quoted(p, quote, first, none, none, closing);
    let n = head.len() as int;
    assert(head =~= p + seq![quote] + first + seq![quote] + closing);
    let beside = head + seq![other] + text;
    let keyed = head + seq![0x3a, other] + text;
    assert(head =~= beside.subrange(0, n));
    assert(head =~= keyed.subrange(0, n));
    places_of_quoted(beside, p, quote, first, none, none, closing);
    places_of_quoted(keyed, p, quote, first, none, none, closing);
    assert(beside[n] == other && keyed[n] == 0x3a && keyed[n + 1] == other);
    assert(!break_ends(beside, n + 1) && !break_ends(keyed, n + 1) && !break_ends(keyed, n + 2));
    if closing.len() > 0 {
        assert(place_at(beside, n) == Place::Closed) by {
            assert(head[n - 1] == closing[closing.len() - 1]);
            assert(beside[n - 1] == head[n - 1]);
            closed_before(beside, p, quote, first, closing);
        }
    } else {
        assert(head[n - 1] == quote && beside[n - 1] == quote);
    }
    assert(place_at(keyed, n + 1) == Place::Start);
    assert forall|k: int| n < k < beside.len() implies #[trigger] beside[k] != other by {
        assert(beside[k] == text[k - n - 1]);
    }
    assert forall|k: int| n + 1 < k < keyed.len() implies #[trigger] keyed[k] != other by {
        assert(keyed[k] == text[k - n - 2]);
    }
    assert(!alias_at(keyed, n));
    string_hides_the_rest(beside, p, n, other);
    string_hides_the_rest(keyed, p, n + 1, other);
}

proof fn closed_before(
    line: Seq<u8>,
    p: Seq<u8>,
    quote: u8,
    first: Seq<u8>,
    closing: Seq<u8>,
)
    requires
        leads_to_node(p),
        quote == 0x27 || quote == 0x22,
        is_literal(first, quote),
        forall|i: int|
            0 <= i < closing.len() ==> #[trigger] closing[i] == 0x20 || closing[i] == 0x09
                || closing[i] == 0x5d || closing[i] == 0x7d,
        closing.len() > 0,
        quoted(p, quote, first, Seq::empty(), Seq::empty(), closing).is_prefix_of(line),
        quoted(p, quote, first, Seq::empty(), Seq::empty(), closing).len() < line.len(),
    ensures
        place_at(
            line,
            quoted(p, quote, first, Seq::empty(), Seq::empty(), closing).len() as int,
        ) == Place::Closed,
{
    let none = Seq::<u8>::empty();
    let head = quoted(p, quote, first, none, none, closing);
    let n = head.len() as int;
    let short = quoted(p, quote, first, none, none, closing.drop_last());
    assert(head =~= short + seq![closing.last()]);
    assert(short =~= line.subrange(0, n - 1)) by {
        assert forall|k: int| 0 <= k < n - 1 implies short[k] == line[k] by {
            assert(line.subrange(0, n)[k] == line[k]);
            assert(head[k] == short[k]);
        }
    }
    assert forall|i: int| 0 <= i < closing.drop_last().len() implies
        #[trigger] closing.drop_last()[i] == 0x20 || closing.drop_last()[i] == 0x09
        || closing.drop_last()[i] == 0x5d || closing.drop_last()[i] == 0x7d by {
        assert(closing[i] == closing.drop_last()[i]);
    }
    places_of_quoted(line, p, quote, first, none, none, closing.drop_last());
    assert(line.subrange(0, n)[n - 1] == head[n - 1]);
    assert(line[n - 1] == closing[closing.len() - 1]);
}

/// The colon behind a closing bracket ends a key, and a string can open directly
/// behind it.
pub proof fn strings_open_behind_bracketed_keys(p: Seq<u8>, quote: u8, text: Seq<u8>)
    requires
        has_no_quotes(p),
        forall|i: int| 0 <= i < p.len() ==> #[trigger] p[i] != 0x23,
        p.len() > 0 && (p.last() == 0x5d || p.last() == 0x7d),
        quote == 0x27 || quote == 0x22,
        !text.contains(quote),
    ensures
        contains_alias(p + seq![0x3a, quote] + text) == contains_alias(p),
{
    let line = p + seq![0x3a, quote] + text;
    let n = p.len() as int;
    assert forall|k: int| 0 <= k < n implies #[trigger] line[k] != 0x22 && line[k] != 0x27
        && line[k] != 0x23 by {
        assert(line[k] == p[k]);
    }
    places_without_quotes(line, n);
    assert(line[n - 1] == p.last() && line[n] == 0x3a && line[n + 1] == quote);
    assert(!break_ends(line, n + 1) && !break_ends(line, n + 2));
    assert(place_at(line, n + 1) == Place::Start);
    assert forall|k: int| n + 1 < k < line.len() implies #[trigger] line[k] != quote by {
        assert(line[k] == text[k - n - 2]);
    }
    assert forall|i: int| n - 1 <= i < n + 1 implies !#[trigger] alias_at(line, i) by {
        assert(line[i] != 0x2a);
    }
    string_hides_the_rest(line, p, n + 1, quote);
}

} // verus!
