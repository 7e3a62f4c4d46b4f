//! Log records: `timestamp|contributor|action|path[|colour]`.

use vstd::prelude::*;
use vstd::slice::slice_subrange;
use vstd::string::*;
use vstd::utf8::*;

use crate::error::{ErrorCode, ErrorView, IngestError};
use crate::limits::IngestLimits;
use crate::text;
use crate::timestamp;

verus! {

/// What a record says happened to its path.
#[derive(Clone, Copy, Debug, PartialEq, Eq, Structural)]
pub enum ParsedAction {
    Add,
    Modify,
    Delete,
}

/// Red, green and blue components.
#[derive(Clone, Copy, Debug, PartialEq, Eq)]
pub struct ParsedColour(pub [u8; 3]);

/// One normalized log record.
#[derive(Clone, Debug, PartialEq, Eq)]
pub struct NormalizedRecord {
    pub timestamp: i64,
    pub username: String,
    pub action: ParsedAction,
    /// Normalized lexical path, without its optional virtual-root slash or
    /// directory marker.  `is_directory` retains the target kind.
    pub path: String,
    pub is_directory: bool,
    pub colour: Option<ParsedColour>,
    pub source_sequence: u64,
    pub line: u64,
    pub byte_offset: u64,
}

/// What a [`NormalizedRecord`] says, with texts as UTF-8 bytes.
#[verifier::ext_equal]
pub struct RecordView {
    pub timestamp: i64,
    pub username: Seq<u8>,
    pub action: ParsedAction,
    pub path: Seq<u8>,
    pub is_directory: bool,
    pub colour: Option<ParsedColour>,
    pub source_sequence: u64,
    pub line: u64,
    pub byte_offset: u64,
}

impl View for NormalizedRecord {
    type V = RecordView;

    open spec fn view(&self) -> RecordView {
        RecordView {
            timestamp: self.timestamp,
            username: text::string_bytes(self.username),
            action: self.action,
            path: text::string_bytes(self.path),
            is_directory: self.is_directory,
            colour: self.colour,
            source_sequence: self.source_sequence,
            line: self.line,
            byte_offset: self.byte_offset,
        }
    }
}

/// The parts of `s` between separators.
pub open spec fn split(s: Seq<u8>, separator: u8) -> Seq<Seq<u8>>
    decreases s.len(),
{
    if s.len() == 0 {
        seq![Seq::empty()]
    } else {
        let before = split(s.drop_last(), separator);
        if s.last() == separator {
            before.push(Seq::empty())
        } else {
            before.update(before.len() - 1, before.last().push(s.last()))
        }
    }
}

/// The parts, joined by separators.
pub open spec fn join(parts: Seq<Seq<u8>>, separator: u8) -> Seq<u8>
    decreases parts.len(),
{
    if parts.len() == 0 {
        Seq::empty()
    } else if parts.len() == 1 {
        parts[0]
    } else {
        join(parts.drop_last(), separator).push(separator) + parts.last()
    }
}

/// Splitting loses nothing: the parts hold no separator and joining them
/// gives the text back.
pub proof fn split_is_inverse_to_join(s: Seq<u8>, separator: u8)
    ensures
        split(s, separator).len() > 0,
        join(split(s, separator), separator) == s,
        forall|i: int|
            0 <= i < split(s, separator).len() ==> !(#[trigger] split(s, separator)[i]).contains(
                separator,
            ),
    decreases s.len(),
{
    if s.len() > 0 {
        let head = s.drop_last();
        split_is_inverse_to_join(head, separator);
        let before = split(head, separator);
        let after = split(s, separator);
        if s.last() == separator {
            assert(after.drop_last() =~= before);
            assert(join(after, separator) =~= s);
        } else {
            let last = before.last().push(s.last());
            assert(after.drop_last() =~= before.drop_last());
            assert(after.last() == last);
            if before.len() > 1 {
                let joined = join(before.drop_last(), separator).push(separator);
                assert(join(before, separator) == joined + before.last());
                assert(join(after, separator) == joined + last);
                assert(joined + last =~= (joined + before.last()).push(s.last()));
            } else {
                assert(join(before, separator) == before[0]);
                assert(join(after, separator) == last);
            }
            assert(head.push(s.last()) =~= s);
            assert forall|i: int| 0 <= i < after.len() implies !(#[trigger] after[i]).contains(
                separator,
            ) by {
                if i < after.len() - 1 {
                    assert(after[i] == before[i]);
                } else if after[i].contains(separator) {
                    let k = choose|k: int|
                        0 <= k < after[i].len() && after[i][k] == separator;
                    assert(k < before.last().len());
                    assert(before.last()[k] == separator);
                    assert(before[before.len() - 1].contains(separator));
                }
            }
        }
    }
}

proof fn split_nonempty(s: Seq<u8>, separator: u8)
    ensures
        split(s, separator).len() > 0,
    decreases s.len(),
{
    if s.len() > 0 {
        split_nonempty(s.drop_last(), separator);
    }
}

/// The last part starts after the last separator.
proof fn split_at_last(s: Seq<u8>, separator: u8, at: int)
    requires
        0 <= at < s.len(),
        s[at] == separator,
        forall|i: int| at < i < s.len() ==> s[i] != separator,
    ensures
        split(s, separator) == split(s.take(at), separator).push(s.skip(at + 1)),
    decreases s.len(),
{
    split_nonempty(s.drop_last(), separator);
    if at == s.len() - 1 {
        assert(s.drop_last() =~= s.take(at));
        assert(s.skip(at + 1) =~= Seq::<u8>::empty());
    } else {
        let head = s.drop_last();
        assert(head[at] == separator);
        split_at_last(head, separator, at);
        assert(head.take(at) =~= s.take(at));
        assert(head.skip(at + 1).push(s.last()) =~= s.skip(at + 1));
        assert(split(s, separator) =~= split(s.take(at), separator).push(s.skip(at + 1)));
    }
}

proof fn split_without_separator(s: Seq<u8>, separator: u8)
    requires
        forall|i: int| 0 <= i < s.len() ==> s[i] != separator,
    ensures
        split(s, separator) == seq![s],
    decreases s.len(),
{
    if s.len() > 0 {
        split_without_separator(s.drop_last(), separator);
        assert(s.drop_last().push(s.last()) =~= s);
        assert(split(s, separator) =~= seq![s]);
    } else {
        assert(s =~= Seq::<u8>::empty());
    }
}

/// The parts of valid UTF-8 between ASCII separators are valid UTF-8.
pub proof fn split_keeps_utf8(s: Seq<u8>, separator: u8)
    requires
        valid_utf8(s),
        separator < 0x80,
    ensures
        forall|i: int|
            0 <= i < split(s, separator).len() ==> valid_utf8(#[trigger] split(s, separator)[i]),
    decreases s.len(),
{
    if exists|i: int| 0 <= i < s.len() && s[i] == separator {
        let at = last_position(s, separator, s.len() as int);
        split_at_last(s, separator, at);
        text::valid_utf8_between_boundaries(s, 0, at);
        assert(s.subrange(0, at) =~= s.take(at));
        text::valid_utf8_between_boundaries(s, at, s.len() as int);
        let tail = s.subrange(at, s.len() as int);
        assert(tail[0] == separator);
        assert(length_of_first_scalar(tail) == 1);
        assert(pop_first_scalar(tail) =~= s.skip(at + 1));
        split_keeps_utf8(s.take(at), separator);
    } else {
        split_without_separator(s, separator);
    }
}

/// The last position below `end` that holds the separator.
proof fn last_position(s: Seq<u8>, separator: u8, end: int) -> (at: int)
    requires
        0 <= end <= s.len(),
        exists|i: int| 0 <= i < end && s[i] == separator,
    ensures
        0 <= at < end,
        s[at] == separator,
        forall|i: int| at < i < end ==> s[i] != separator,
    decreases end,
{
    if s[end - 1] == separator {
        end - 1
    } else {
        last_position(s, separator, end - 1)
    }
}

/// Splits bytes at a separator.
pub fn split_bytes<'a>(body: &'a [u8], separator: u8) -> (parts: Vec<&'a [u8]>)
    ensures
        parts@.len() == split(body@, separator).len(),
        forall|i: int|
            0 <= i < parts@.len() ==> (#[trigger] parts@[i])@ == split(body@, separator)[i],
{
    let mut parts: Vec<&'a [u8]> = Vec::new();
    let mut start: usize = 0;
    let mut index: usize = 0;
    assert(body@.take(0) =~= Seq::<u8>::empty());
    assert(body@.subrange(0, 0) =~= Seq::<u8>::empty());
    while index < body.len()
        invariant
            start <= index <= body.len(),
            split(body@.take(index as int), separator).len() == parts@.len() + 1,
            split(body@.take(index as int), separator).last() == body@.subrange(
                start as int,
                index as int,
            ),
            forall|i: int|
                0 <= i < parts@.len() ==> (#[trigger] parts@[i])@ == split(
                    body@.take(index as int),
                    separator,
                )[i],
        decreases body.len() - index,
    {
        proof {
            let next = body@.take(index as int + 1);
            assert(next.drop_last() =~= body@.take(index as int));
            assert(next.last() == body@[index as int]);
            assert(body@.subrange(start as int, index as int).push(body@[index as int])
                =~= body@.subrange(start as int, index as int + 1));
            assert(body@.subrange(index as int + 1, index as int + 1) =~= Seq::<u8>::empty());
        }
        if body[index] == separator {
            parts.push(slice_subrange(body, start, index));
            start = index + 1;
        }
        index = index + 1;
    }
    parts.push(slice_subrange(body, start, body.len()));
    assert(body@.take(index as int) =~= body@);
    parts
}

/// The value of a hexadecimal digit in either case.
pub open spec fn hex_value(byte: u8) -> Option<u8> {
    if 0x30 <= byte <= 0x39 {
        Some((byte - 0x30) as u8)
    } else if 0x61 <= byte <= 0x66 {
        Some((byte - 0x61 + 10) as u8)
    } else if 0x41 <= byte <= 0x46 {
        Some((byte - 0x41 + 10) as u8)
    } else {
        None
    }
}

pub fn hex_digit(byte: u8) -> (value: Option<u8>)
    ensures
        value == hex_value(byte),
{
    if 0x30 <= byte && byte <= 0x39 {
        Some(byte - 0x30)
    } else if 0x61 <= byte && byte <= 0x66 {
        Some(byte - 0x61 + 10)
    } else if 0x41 <= byte && byte <= 0x46 {
        Some(byte - 0x41 + 10)
    } else {
        None
    }
}

/// The byte that two hexadecimal digits write.
pub open spec fn hex_pair(high: u8, low: u8) -> u8 {
    (hex_value(high)->0 * 16 + hex_value(low)->0) as u8
}

/// Every byte is a hexadecimal digit.
pub open spec fn all_hex(s: Seq<u8>) -> bool {
    forall|i: int| 0 <= i < s.len() ==> hex_value(#[trigger] s[i]) is Some
}

/// The text of a colour after its optional `#`.
pub open spec fn colour_digits(value: Seq<u8>) -> Seq<u8> {
    if value.len() > 0 && value[0] == 0x23 {
        value.skip(1)
    } else {
        value
    }
}

/// The colour of six hexadecimal digits, optionally after `#`.
pub open spec fn colour_of(value: Seq<u8>) -> Option<ParsedColour> {
    let digits = colour_digits(value);
    if digits.len() == 6 && all_hex(digits) {
        Some(
            ParsedColour(
                [
                    hex_pair(digits[0], digits[1]),
                    hex_pair(digits[2], digits[3]),
                    hex_pair(digits[4], digits[5]),
                ],
            ),
        )
    } else {
        None
    }
}

pub fn parse_colour(value: &[u8]) -> (colour: Option<ParsedColour>)
    ensures
        colour == colour_of(value@),
{
    let digits = if value.len() > 0 && value[0] == 0x23 {
        slice_subrange(value, 1, value.len())
    } else {
        value
    };
    assert(digits@ =~= colour_digits(value@));
    if digits.len() != 6 {
        return None;
    }
    match (
        hex_digit(digits[0]),
        hex_digit(digits[1]),
        hex_digit(digits[2]),
        hex_digit(digits[3]),
        hex_digit(digits[4]),
        hex_digit(digits[5]),
    ) {
        (Some(a), Some(b), Some(c), Some(d), Some(e), Some(f)) => {
            let rgb: [u8; 3] = [a * 16 + b, c * 16 + d, e * 16 + f];
            proof {
                assert forall|i: int| 0 <= i < 6 implies hex_value(
                    #[trigger] digits@[i],
                ) is Some by {
                    assert(i == 0 || i == 1 || i == 2 || i == 3 || i == 4 || i == 5);
                }
                let expected: [u8; 3] = [
                    hex_pair(digits@[0], digits@[1]),
                    hex_pair(digits@[2], digits@[3]),
                    hex_pair(digits@[4], digits@[5]),
                ];
                assert(rgb@ =~= expected@);
                assert(rgb =~= expected);
            }
            Some(ParsedColour(rgb))
        },
        _ => {
            assert(hex_value(digits@[0]) is None || hex_value(digits@[1]) is None || hex_value(
                digits@[2],
            ) is None || hex_value(digits@[3]) is None || hex_value(digits@[4]) is None
                || hex_value(digits@[5]) is None);
            None
        },
    }
}

/// A path component that names an entry of its directory.
pub open spec fn good_component(component: Seq<u8>) -> bool {
    &&& component.len() > 0
    &&& component != seq![0x2eu8]
    &&& component != seq![0x2eu8, 0x2eu8]
}

/// Every component of a path names an entry of its directory.
pub open spec fn good_components(path: Seq<u8>) -> bool {
    forall|i: int|
        0 <= i < split(path, 0x2f).len() ==> good_component(#[trigger] split(path, 0x2f)[i])
}

/// A path without its optional virtual-root slash.
pub open spec fn below_root(value: Seq<u8>) -> Seq<u8> {
    if value.len() > 0 && value[0] == 0x2f {
        value.skip(1)
    } else {
        value
    }
}

/// Whether a path names a directory: it ends with a slash.
pub open spec fn names_directory(value: Seq<u8>) -> bool {
    below_root(value).len() > 0 && below_root(value).last() == 0x2f
}

/// A path without its optional virtual-root slash and directory marker.
pub open spec fn normalized_path(value: Seq<u8>) -> Seq<u8> {
    if names_directory(value) {
        below_root(value).drop_last()
    } else {
        below_root(value)
    }
}

/// Why a path is refused; `None` for an accepted path.
pub open spec fn path_fault(value: Seq<u8>, limits: IngestLimits) -> Option<
    (ErrorCode, Seq<char>),
> {
    if value.len() == 0 {
        Some((ErrorCode::InvalidPath, "path cannot be empty"@))
    } else if value.len() > limits.max_path_bytes {
        Some((ErrorCode::PathTooLong, "path exceeds configured byte limit"@))
    } else if normalized_path(value).len() == 0 {
        Some((ErrorCode::InvalidPath, "root or empty path is not a file target"@))
    } else if !good_components(normalized_path(value)) {
        Some((ErrorCode::InvalidPath, "path contains an empty, . or .. component"@))
    } else if split(normalized_path(value), 0x2f).len() > limits.max_path_components {
        Some((ErrorCode::PathTooDeep, "path exceeds configured component limit"@))
    } else {
        None
    }
}

/// Checks a path and returns it normalized, with whether it names a
/// directory.
pub fn parse_path<'a>(value: &'a [u8], limits: &IngestLimits) -> (path: Result<
    (&'a [u8], bool),
    (ErrorCode, &'static str),
>)
    ensures
        match path {
            Ok((normalized, directory)) => path_fault(value@, *limits) is None && normalized@
                == normalized_path(value@) && directory == names_directory(value@),
            Err((code, message)) => path_fault(value@, *limits) == Some((code, message@)),
        },
{
    if value.len() == 0 {
        return Err((ErrorCode::InvalidPath, "path cannot be empty"));
    }
    if value.len() as u64 > limits.max_path_bytes {
        return Err((ErrorCode::PathTooLong, "path exceeds configured byte limit"));
    }
    let below: &'a [u8] = if value[0] == 0x2f {
        slice_subrange(value, 1, value.len())
    } else {
        value
    };
    assert(below@ =~= below_root(value@));
    let is_directory = below.len() > 0 && below[below.len() - 1] == 0x2f;
    let path: &'a [u8] = if is_directory {
        slice_subrange(below, 0, below.len() - 1)
    } else {
        below
    };
    assert(path@ =~= normalized_path(value@));
    if path.len() == 0 {
        return Err((ErrorCode::InvalidPath, "root or empty path is not a file target"));
    }
    let components = split_bytes(path, 0x2f);
    let mut index: usize = 0;
    while index < components.len()
        invariant
            index <= components@.len(),
            components@.len() == split(path@, 0x2f).len(),
            path@ == normalized_path(value@),
            value@.len() > 0,
            value@.len() <= limits.max_path_bytes,
            path@.len() > 0,
            forall|i: int|
                0 <= i < components@.len() ==> (#[trigger] components@[i])@ == split(path@, 0x2f)[i],
            forall|i: int|
                0 <= i < index ==> good_component(#[trigger] split(path@, 0x2f)[i]),
        decreases components@.len() - index,
    {
        let component = components[index];
        let dot = component.len() == 1 && component[0] == 0x2e;
        let dots = component.len() == 2 && component[0] == 0x2e && component[1] == 0x2e;
        assert(dot == (component@ == seq![0x2eu8])) by {
            assert(dot ==> component@ =~= seq![0x2eu8]);
        }
        assert(dots == (component@ == seq![0x2eu8, 0x2eu8])) by {
            assert(dots ==> component@ =~= seq![0x2eu8, 0x2eu8]);
        }
        if component.len() == 0 || dot || dots {
            assert(!good_component(split(path@, 0x2f)[index as int]));
            return Err((ErrorCode::InvalidPath, "path contains an empty, . or .. component"));
        }
        index = index + 1;
    }
    assert(good_components(path@));
    if components.len() as u64 > limits.max_path_components {
        return Err((ErrorCode::PathTooDeep, "path exceeds configured component limit"));
    }
    Ok((path, is_directory))
}

/// An accepted path stays accepted with its virtual-root slash or directory
/// marker removed, and normalizing again changes nothing.
pub proof fn normalization_is_idempotent(value: Seq<u8>, limits: IngestLimits)
    requires
        path_fault(value, limits) is None,
    ensures
        path_fault(normalized_path(value), limits) is None,
        normalized_path(normalized_path(value)) == normalized_path(value),
        !names_directory(normalized_path(value)),
{
    let path = normalized_path(value);
    split_is_inverse_to_join(path, 0x2f);
    let parts = split(path, 0x2f);
    assert(good_component(parts[0]));
    assert(good_component(parts[parts.len() - 1]));
    if path[0] == 0x2f {
        first_part(path, 0x2f);
        assert(false);
    }
    if path.last() == 0x2f {
        assert(parts.last().len() == 0);
        assert(false);
    }
}

/// A text that starts with a separator starts with an empty part.
proof fn first_part(s: Seq<u8>, separator: u8)
    requires
        s.len() > 0,
        s[0] == separator,
    ensures
        split(s, separator).len() > 1,
        split(s, separator)[0].len() == 0,
    decreases s.len(),
{
    split_nonempty(s.drop_last(), separator);
    if s.len() > 1 {
        first_part(s.drop_last(), separator);
    } else {
        assert(s.drop_last() =~= Seq::<u8>::empty());
    }
}

/// The action that a field names.
pub open spec fn action_of(field: Seq<u8>) -> Option<ParsedAction> {
    if field.len() == 0 || field == seq![0x41u8] {
        Some(ParsedAction::Add)
    } else if field == seq![0x4du8] {
        Some(ParsedAction::Modify)
    } else if field == seq![0x44u8] {
        Some(ParsedAction::Delete)
    } else {
        None
    }
}

pub fn parse_action_field(field: &[u8]) -> (action: Option<ParsedAction>)
    ensures
        action == action_of(field@),
{
    if field.len() == 0 {
        return Some(ParsedAction::Add);
    }
    if field.len() != 1 {
        return None;
    }
    assert(field@ =~= seq![field@[0]]);
    if field[0] == 0x41 {
        Some(ParsedAction::Add)
    } else if field[0] == 0x4d {
        Some(ParsedAction::Modify)
    } else if field[0] == 0x44 {
        Some(ParsedAction::Delete)
    } else {
        None
    }
}

/// The contributor that a field names; an empty field names `Unknown`.
pub open spec fn contributor_of(field: Seq<u8>) -> Seq<u8> {
    if field.len() == 0 {
        encode_utf8("Unknown"@)
    } else {
        field
    }
}

/// An error about a record, with the record as context.
pub open spec fn record_error(
    code: ErrorCode,
    body: Seq<u8>,
    line: u64,
    byte_offset: u64,
    message: Seq<char>,
) -> ErrorView {
    ErrorView { code, line, byte_offset, context: text::context_of(body), message }
}

/// What a record body means.  The source sequence is assigned later.
pub open spec fn record_of(
    body: Seq<u8>,
    line: u64,
    byte_offset: u64,
    limits: IngestLimits,
) -> Result<RecordView, ErrorView> {
    let fields = split(body, 0x7c);
    let fail = |code: ErrorCode, message: Seq<char>|
        Err::<RecordView, ErrorView>(record_error(code, body, line, byte_offset, message));
    if !valid_utf8(body) {
        fail(ErrorCode::InvalidUtf8, "record is not valid UTF-8"@)
    } else if fields.len() != 4 && fields.len() != 5 {
        fail(
            ErrorCode::WrongFieldCount,
            "expected exactly four or five fields, got "@ + text::decimal(fields.len()),
        )
    } else if fields.len() == 5 && fields[4].len() == 0 {
        fail(ErrorCode::WrongFieldCount, "the optional colour field cannot be empty"@)
    } else if timestamp::timestamp_of(fields[0]) is Err {
        fail(ErrorCode::InvalidTimestamp, timestamp::timestamp_of(fields[0])->Err_0)
    } else if contributor_of(fields[1]).len() > limits.max_contributor_bytes {
        fail(ErrorCode::ContributorTooLong, "contributor exceeds configured byte limit"@)
    } else if action_of(fields[2]) is None {
        fail(ErrorCode::InvalidAction, "action must be empty, A, M, or D"@)
    } else if fields.len() == 5 && colour_of(fields[4]) is None {
        fail(
            ErrorCode::InvalidColour,
            "colour must contain exactly six hexadecimal digits, optionally prefixed by #"@,
        )
    } else if path_fault(fields[3], limits) is Some {
        let fault = path_fault(fields[3], limits)->0;
        fail(fault.0, fault.1)
    } else if names_directory(fields[3]) && action_of(fields[2]) != Some(ParsedAction::Delete) {
        fail(
            ErrorCode::DirectoryActionUnsupported,
            "directory targets support only delete actions"@,
        )
    } else {
        Ok(
            RecordView {
                timestamp: timestamp::timestamp_of(fields[0])->Ok_0 as i64,
                username: contributor_of(fields[1]),
                action: action_of(fields[2])->0,
                path: normalized_path(fields[3]),
                is_directory: names_directory(fields[3]),
                colour: if fields.len() == 5 {
                    colour_of(fields[4])
                } else {
                    None
                },
                source_sequence: 0,
                line,
                byte_offset,
            },
        )
    }
}

/// The view of a fallible record result.
pub open spec fn record_result(result: Result<NormalizedRecord, IngestError>) -> Result<
    RecordView,
    ErrorView,
> {
    match result {
        Ok(record) => Ok(record@),
        Err(e) => Err(e@),
    }
}

fn fail(
    code: ErrorCode,
    body: &[u8],
    line: u64,
    byte_offset: u64,
    message: &str,
) -> (result: Result<NormalizedRecord, IngestError>)
    ensures
        record_result(result) == Err::<RecordView, ErrorView>(
            record_error(code, body@, line, byte_offset, message@),
        ),
{
    Err(
        IngestError::new(
            code,
            line,
            byte_offset,
            text::bounded_context(body),
            message.to_owned(),
        ),
    )
}

/// Parses and normalizes one record body.
pub fn parse_record(
    body: &[u8],
    line: u64,
    byte_offset: u64,
    limits: &IngestLimits,
) -> (result: Result<NormalizedRecord, IngestError>)
    ensures
        record_result(result) == record_of(body@, line, byte_offset, *limits),
{
    if text::utf8_text(body).is_none() {
        return fail(ErrorCode::InvalidUtf8, body, line, byte_offset, "record is not valid UTF-8");
    }
    let fields = split_bytes(body, 0x7c);
    proof {
        split_keeps_utf8(body@, 0x7c);
    }
    if fields.len() != 4 && fields.len() != 5 {
        let mut message = "expected exactly four or five fields, got ".to_owned();
        text::push_decimal(&mut message, fields.len() as u64);
        return fail(ErrorCode::WrongFieldCount, body, line, byte_offset, message.as_str());
    }
    if fields.len() == 5 && fields[4].len() == 0 {
        return fail(
            ErrorCode::WrongFieldCount,
            body,
            line,
            byte_offset,
            "the optional colour field cannot be empty",
        );
    }
    let seconds: i64 = match timestamp::parse_timestamp(fields[0]) {
        Ok(seconds) => seconds,
        Err(message) => {
            return fail(ErrorCode::InvalidTimestamp, body, line, byte_offset, message);
        },
    };
    let contributor = if fields[1].len() == 0 {
        "Unknown".as_bytes()
    } else {
        fields[1]
    };
    if contributor.len() as u64 > limits.max_contributor_bytes {
        return fail(
            ErrorCode::ContributorTooLong,
            body,
            line,
            byte_offset,
            "contributor exceeds configured byte limit",
        );
    }
    let action = match parse_action_field(fields[2]) {
        Some(action) => action,
        None => {
            return fail(
                ErrorCode::InvalidAction,
                body,
                line,
                byte_offset,
                "action must be empty, A, M, or D",
            );
        },
    };
    let colour = if fields.len() == 5 {
        match parse_colour(fields[4]) {
            Some(colour) => Some(colour),
            None => {
                return fail(
                    ErrorCode::InvalidColour,
                    body,
                    line,
                    byte_offset,
                    "colour must contain exactly six hexadecimal digits, optionally prefixed by #",
                );
            },
        }
    } else {
        None
    };
    let (path, is_directory) = match parse_path(fields[3], limits) {
        Ok(found) => found,
        Err((code, message)) => {
            return fail(code, body, line, byte_offset, message);
        },
    };
    if is_directory && action != ParsedAction::Delete {
        return fail(
            ErrorCode::DirectoryActionUnsupported,
            body,
            line,
            byte_offset,
            "directory targets support only delete actions",
        );
    }
    proof {
        let value = split(body@, 0x7c)[3];
        assert(valid_utf8(value));
        normalized_path_keeps_utf8(value);
        encode_utf8_valid_utf8("Unknown"@);
        assert(valid_utf8(split(body@, 0x7c)[1]));
    }
    match (text::string_from_bytes(contributor), text::string_from_bytes(path)) {
        (Some(username), Some(path)) => Ok(
            NormalizedRecord {
                timestamp: seconds,
                username,
                action,
                path,
                is_directory,
                colour,
                source_sequence: 0,
                line,
                byte_offset,
            },
        ),
        _ => {
            assert(false);
            fail(ErrorCode::InvalidUtf8, body, line, byte_offset, "record is not valid UTF-8")
        },
    }
}

/// Normalizing valid UTF-8 gives valid UTF-8.
pub proof fn normalized_path_keeps_utf8(value: Seq<u8>)
    requires
        valid_utf8(value),
    ensures
        valid_utf8(normalized_path(value)),
{
    let below = below_root(value);
    if value.len() > 0 && value[0] == 0x2f {
        assert(length_of_first_scalar(value) == 1);
        assert(pop_first_scalar(value) =~= value.skip(1));
    }
    if names_directory(value) {
        text::valid_utf8_between_boundaries(below, 0, below.len() - 1);
        assert(below.subrange(0, below.len() - 1) =~= below.drop_last());
    }
}

impl NormalizedRecord {
    /// A copy of this record.
    pub fn copy(&self) -> (record: Self)
        ensures
            record@ == self@,
            record.username@ == self.username@,
            record.path@ == self.path@,
    {
        NormalizedRecord {
            timestamp: self.timestamp,
            username: text::copy_string(&self.username),
            action: self.action,
            path: text::copy_string(&self.path),
            is_directory: self.is_directory,
            colour: self.colour,
            source_sequence: self.source_sequence,
            line: self.line,
            byte_offset: self.byte_offset,
        }
    }
}

} // verus!
