//! What the text of a log record means.

use vstd::prelude::*;
use vstd::utf8::*;

use crate::error::{ErrorCode, ErrorView};
use crate::limits;
use crate::limits::IngestLimits;
use crate::lines;
use crate::lines::LogView;
use crate::record;
use crate::record::{ParsedAction, ParsedColour, RecordView};
use crate::timestamp;

verus! {

/// A text without a byte.
pub open spec fn lacks(s: Seq<u8>, byte: u8) -> bool {
    forall|i: int| 0 <= i < s.len() ==> #[trigger] s[i] != byte
}

proof fn one_part(s: Seq<u8>, separator: u8)
    requires
        lacks(s, separator),
    ensures
        record::split(s, separator) == seq![s],
    decreases s.len(),
{
    if s.len() > 0 {
        let front = s.drop_last();
        assert forall|i: int| 0 <= i < front.len() implies #[trigger] front[i] != separator by {
            assert(s[i] != separator);
        }
        one_part(front, separator);
        assert(front.push(s.last()) =~= s);
        assert(record::split(s, separator) =~= seq![s]);
    } else {
        assert(s =~= Seq::<u8>::empty());
    }
}

/// A text, a separator and a text without one: the parts of the first, and the
/// second as one part more.
pub proof fn parts_are_between_separators(head: Seq<u8>, tail: Seq<u8>, separator: u8)
    requires
        lacks(tail, separator),
    ensures
        record::split(head + seq![separator] + tail, separator) == record::split(
            head,
            separator,
        ).push(tail),
        lacks(head, separator) ==> record::split(head, separator) == seq![head],
    decreases tail.len(),
{
    if lacks(head, separator) {
        one_part(head, separator);
    }
    let whole = head + seq![separator] + tail;
    if tail.len() == 0 {
        assert(whole.drop_last() =~= head);
        assert(whole.last() == separator);
        assert(tail =~= Seq::<u8>::empty());
    } else {
        let shorter = tail.drop_last();
        assert forall|i: int| 0 <= i < shorter.len() implies #[trigger] shorter[i] != separator by {
            assert(tail[i] != separator);
        }
        parts_are_between_separators(head, shorter, separator);
        assert(whole.drop_last() =~= head + seq![separator] + shorter);
        assert(whole.last() == tail.last());
        assert(tail.last() != separator);
        let before = record::split(head, separator).push(shorter);
        assert(before.last().push(tail.last()) =~= tail);
        assert(before.update(before.len() - 1, tail) =~= record::split(head, separator).push(tail));
    }
}

/// The letters of actions: nothing and `A` add, `M` modifies, `D` deletes, and
/// nothing else is an action.
pub proof fn letters_name_actions(field: Seq<u8>)
    ensures
        match record::action_of(field) {
            Some(ParsedAction::Add) => field.len() == 0 || (field.len() == 1 && field[0] == 0x41),
            Some(ParsedAction::Modify) => field.len() == 1 && field[0] == 0x4d,
            Some(ParsedAction::Delete) => field.len() == 1 && field[0] == 0x44,
            None => field.len() > 1 || (field.len() == 1 && field[0] != 0x41 && field[0] != 0x4d
                && field[0] != 0x44),
        },
{
    if field.len() == 1 {
        assert(field =~= seq![field[0]]);
    }
}

/// The digit that a value below sixteen is written with, in lower or in upper
/// case.
pub open spec fn hex_digit(value: int, upper: bool) -> u8 {
    if value < 10 {
        (0x30 + value) as u8
    } else if upper {
        (0x41 + value - 10) as u8
    } else {
        (0x61 + value - 10) as u8
    }
}

/// A component, written with two digits.
pub open spec fn hex_digits(component: u8, upper: bool) -> Seq<u8> {
    seq![
        hex_digit(component as int / 16, upper),
        hex_digit(component as int % 16, upper),
    ]
}

/// Red, green and blue, each of two hexadecimal digits in either case, read
/// back as the same colour, after a `#` as well as without.
pub proof fn colours_read_back(rgb: [u8; 3], upper: bool)
    ensures
        ({
            let digits = hex_digits(rgb[0], upper) + hex_digits(rgb[1], upper) + hex_digits(
                rgb[2],
                upper,
            );
            &&& record::colour_of(digits) == Some(ParsedColour(rgb))
            &&& record::colour_of(seq![0x23u8] + digits) == Some(ParsedColour(rgb))
        }),
{
    let digits = hex_digits(rgb[0], upper) + hex_digits(rgb[1], upper) + hex_digits(rgb[2], upper);
    let marked = seq![0x23u8] + digits;
    assert(marked.skip(1) =~= digits);
    hex_digits_read_back(rgb[0], upper);
    hex_digits_read_back(rgb[1], upper);
    hex_digits_read_back(rgb[2], upper);
    assert(digits[0] == hex_digits(rgb[0], upper)[0]);
    assert(digits[1] == hex_digits(rgb[0], upper)[1]);
    assert(digits[2] == hex_digits(rgb[1], upper)[0]);
    assert(digits[3] == hex_digits(rgb[1], upper)[1]);
    assert(digits[4] == hex_digits(rgb[2], upper)[0]);
    assert(digits[5] == hex_digits(rgb[2], upper)[1]);
    assert forall|i: int| 0 <= i < 6 implies record::hex_value(#[trigger] digits[i]) is Some by {
        assert(i == 0 || i == 1 || i == 2 || i == 3 || i == 4 || i == 5);
    }
    let read: [u8; 3] = [
        record::hex_pair(digits[0], digits[1]),
        record::hex_pair(digits[2], digits[3]),
        record::hex_pair(digits[4], digits[5]),
    ];
    assert(read@ =~= rgb@);
    assert(read =~= rgb);
}

proof fn hex_digits_read_back(component: u8, upper: bool)
    ensures
        ({
            let pair = hex_digits(component, upper);
            &&& record::hex_value(pair[0]) == Some((component / 16) as u8)
            &&& record::hex_value(pair[1]) == Some((component % 16) as u8)
            &&& record::hex_pair(pair[0], pair[1]) == component
            &&& pair[0] != 0x23
        }),
{
}

/// A text of another length, or with another character than a hexadecimal
/// digit, is no colour.
pub proof fn other_texts_are_no_colours(value: Seq<u8>, at: int)
    ensures
        value.len() > 0 && value[0] != 0x23 && value.len() != 6 ==> record::colour_of(value) is None,
        value.len() > 0 && value[0] == 0x23 && value.len() != 7 ==> record::colour_of(value) is None,
        value.len() == 0 ==> record::colour_of(value) is None,
        0 < at < value.len() && !(0x30 <= value[at] <= 0x39 || 0x41 <= value[at] <= 0x46 || 0x61
            <= value[at] <= 0x66) ==> record::colour_of(value) is None,
{
    let digits = record::colour_digits(value);
    if 0 < at < value.len() && !(0x30 <= value[at] <= 0x39 || 0x41 <= value[at] <= 0x46 || 0x61
        <= value[at] <= 0x66) {
        assert(record::hex_value(value[at]) is None);
        if value[0] == 0x23 {
            assert(digits[at - 1] == value[at]);
        } else {
            assert(digits[at] == value[at]);
        }
    }
}

/// A path without a slash at either end.
pub open spec fn is_bare(path: Seq<u8>) -> bool {
    path.len() > 0 && path[0] != 0x2f && path.last() != 0x2f
}

/// A slash before a path makes no difference; a slash after it makes it the
/// path of a directory.
pub proof fn slashes_mark_roots_and_directories(path: Seq<u8>)
    requires
        is_bare(path),
    ensures
        record::normalized_path(path) == path,
        record::normalized_path(seq![0x2fu8] + path) == path,
        record::normalized_path(path.push(0x2f)) == path,
        record::normalized_path((seq![0x2fu8] + path).push(0x2f)) == path,
        !record::names_directory(path),
        !record::names_directory(seq![0x2fu8] + path),
        record::names_directory(path.push(0x2f)),
        record::names_directory((seq![0x2fu8] + path).push(0x2f)),
{
    let rooted = seq![0x2fu8] + path;
    assert(rooted.skip(1) =~= path);
    assert(path.push(0x2f).drop_last() =~= path);
    assert(rooted.push(0x2f).skip(1) =~= path.push(0x2f));
}

/// A path of at least one component, none of them empty, `.` or `..`, is
/// accepted within the limits.
pub proof fn plain_paths_are_accepted(path: Seq<u8>, limits: IngestLimits)
    requires
        is_bare(path),
        forall|i: int|
            0 <= i < record::split(path, 0x2f).len() ==> {
                let part = #[trigger] record::split(path, 0x2f)[i];
                &&& part.len() > 0
                &&& !(part.len() == 1 && part[0] == 0x2e)
                &&& !(part.len() == 2 && part[0] == 0x2e && part[1] == 0x2e)
            },
    ensures
        path.len() <= limits.max_path_bytes && record::split(path, 0x2f).len()
            <= limits.max_path_components ==> record::path_fault(path, limits) is None,
        path.len() > limits.max_path_bytes ==> (record::path_fault(path, limits) matches Some(fault)
            && fault.0 == ErrorCode::PathTooLong),
        path.len() <= limits.max_path_bytes && record::split(path, 0x2f).len()
            > limits.max_path_components ==> (record::path_fault(path, limits) matches Some(fault)
            && fault.0 == ErrorCode::PathTooDeep),
{
    slashes_mark_roots_and_directories(path);
}

/// A path with a component that is empty, `.` or `..` is refused, and so is one
/// without a component.
pub proof fn other_paths_are_refused(path: Seq<u8>, limits: IngestLimits, at: int)
    requires
        is_bare(path),
        0 <= at < record::split(path, 0x2f).len(),
        ({
            let part = record::split(path, 0x2f)[at];
            ||| part.len() == 0
            ||| part.len() == 1 && part[0] == 0x2e
            ||| part.len() == 2 && part[0] == 0x2e && part[1] == 0x2e
        }),
    ensures
        record::path_fault(path, limits) is Some,
        record::path_fault(Seq::empty(), limits) is Some,
        record::path_fault(seq![0x2fu8], limits) is Some,
        record::path_fault(seq![0x2fu8, 0x2fu8], limits) is Some,
{
    slashes_mark_roots_and_directories(path);
    let part = record::split(path, 0x2f)[at];
    if part.len() == 1 && part[0] == 0x2e {
        assert(part =~= seq![0x2eu8]);
    }
    if part.len() == 2 && part[0] == 0x2e && part[1] == 0x2e {
        assert(part =~= seq![0x2eu8, 0x2eu8]);
    }
    assert(!record::good_component(part));
    let one = seq![0x2fu8];
    let two = seq![0x2fu8, 0x2fu8];
    assert(one.skip(1).len() == 0);
    assert(two.skip(1) =~= one);
    assert(one.drop_last().len() == 0);
}

/// A contributor is the text of its field; an empty field is `Unknown`.
pub proof fn contributors_are_named(field: Seq<u8>)
    ensures
        field.len() > 0 ==> record::contributor_of(field) == field,
        field.len() == 0 ==> record::contributor_of(field) == encode_utf8("Unknown"@),
{
}

/// Four fields between bars.
pub open spec fn record_text(time: Seq<u8>, user: Seq<u8>, action: Seq<u8>, path: Seq<u8>) -> Seq<
    u8,
> {
    time + seq![0x7cu8] + user + seq![0x7cu8] + action + seq![0x7cu8] + path
}

proof fn four_fields(time: Seq<u8>, user: Seq<u8>, action: Seq<u8>, path: Seq<u8>)
    requires
        lacks(time, 0x7c),
        lacks(user, 0x7c),
        lacks(action, 0x7c),
        lacks(path, 0x7c),
    ensures
        record::split(record_text(time, user, action, path), 0x7c) == seq![
            time,
            user,
            action,
            path,
        ],
{
    let bar = seq![0x7cu8];
    parts_are_between_separators(time, user, 0x7c);
    parts_are_between_separators(time + bar + user, action, 0x7c);
    parts_are_between_separators(time + bar + user + bar + action, path, 0x7c);
    assert(seq![time].push(user).push(action).push(path) =~= seq![time, user, action, path]);
}

/// A record is read from its fields: time, contributor, action and path, and a
/// colour where there is one.  A record without a colour has none.
#[verifier::spinoff_prover]
pub proof fn records_are_read_from_their_fields(
    time: Seq<u8>,
    user: Seq<u8>,
    action: Seq<u8>,
    path: Seq<u8>,
    line: u64,
    byte_offset: u64,
    limits: IngestLimits,
)
    requires
        lacks(time, 0x7c),
        lacks(user, 0x7c),
        lacks(action, 0x7c),
        lacks(path, 0x7c),
        valid_utf8(record_text(time, user, action, path)),
        timestamp::timestamp_of(time) is Ok,
        user.len() > 0,
        user.len() <= limits.max_contributor_bytes,
        record::action_of(action) is Some,
        is_bare(path),
        record::path_fault(path, limits) is None,
    ensures
        match record::record_of(
            record_text(time, user, action, path),
            line,
            byte_offset,
            limits,
        ) {
            Err(_) => false,
            Ok(read) => {
                &&& Ok::<int, Seq<char>>(read.timestamp as int) == timestamp::timestamp_of(time)
                    || timestamp::timestamp_of(time)->Ok_0 > i64::MAX
                    || timestamp::timestamp_of(time)->Ok_0 < i64::MIN
                &&& read.username == user
                &&& Some(read.action) == record::action_of(action)
                &&& read.path == path
                &&& !read.is_directory
                &&& read.colour is None
                &&& read.line == line
                &&& read.byte_offset == byte_offset
            },
        },
{
    four_fields(time, user, action, path);
    slashes_mark_roots_and_directories(path);
}

/// A fifth field gives a record its colour and changes nothing else; where it
/// is no colour, the record is refused.
#[verifier::spinoff_prover]
pub proof fn colours_are_the_fifth_field(
    time: Seq<u8>,
    user: Seq<u8>,
    action: Seq<u8>,
    path: Seq<u8>,
    colour: Seq<u8>,
    line: u64,
    byte_offset: u64,
    limits: IngestLimits,
)
    requires
        lacks(time, 0x7c),
        lacks(user, 0x7c),
        lacks(action, 0x7c),
        lacks(path, 0x7c),
        lacks(colour, 0x7c),
        valid_utf8(record_text(time, user, action, path)),
        valid_utf8(record_text(time, user, action, path) + seq![0x7cu8] + colour),
    ensures
        ({
            let plain = record_text(time, user, action, path);
            let without = record::record_of(plain, line, byte_offset, limits);
            let with = record::record_of(
                plain + seq![0x7cu8] + colour,
                line,
                byte_offset,
                limits,
            );
            &&& with is Ok <==> without is Ok && record::colour_of(colour) is Some
            &&& with is Ok ==> {
                &&& with->Ok_0.colour == record::colour_of(colour)
                &&& with->Ok_0.timestamp == without->Ok_0.timestamp
                &&& with->Ok_0.username == without->Ok_0.username
                &&& with->Ok_0.action == without->Ok_0.action
                &&& with->Ok_0.path == without->Ok_0.path
                &&& with->Ok_0.is_directory == without->Ok_0.is_directory
            }
        }),
{
    four_fields(time, user, action, path);
    parts_are_between_separators(record_text(time, user, action, path), colour, 0x7c);
    other_texts_are_no_colours(colour, 0);
}

/// A record that is refused says which of its fields is wrong, the first in the
/// order time, contributor, action and path; the error has the place of the
/// record.
#[verifier::spinoff_prover]
pub proof fn refusals_name_the_wrong_field(
    time: Seq<u8>,
    user: Seq<u8>,
    action: Seq<u8>,
    path: Seq<u8>,
    line: u64,
    byte_offset: u64,
    limits: IngestLimits,
)
    requires
        lacks(time, 0x7c),
        lacks(user, 0x7c),
        lacks(action, 0x7c),
        lacks(path, 0x7c),
    ensures
        match record::record_of(
            record_text(time, user, action, path),
            line,
            byte_offset,
            limits,
        ) {
            Ok(_) => {
                &&& valid_utf8(record_text(time, user, action, path))
                &&& timestamp::timestamp_of(time) is Ok
                &&& user.len() <= limits.max_contributor_bytes
                &&& record::action_of(action) is Some
                &&& record::path_fault(path, limits) is None
            },
            Err(e) => {
                &&& e.line == line
                &&& e.byte_offset == byte_offset
                &&& e.code == if !valid_utf8(record_text(time, user, action, path)) {
                    ErrorCode::InvalidUtf8
                } else if timestamp::timestamp_of(time) is Err {
                    ErrorCode::InvalidTimestamp
                } else if record::contributor_of(user).len() > limits.max_contributor_bytes {
                    ErrorCode::ContributorTooLong
                } else if record::action_of(action) is None {
                    ErrorCode::InvalidAction
                } else if record::path_fault(path, limits) is Some {
                    (record::path_fault(path, limits)->0).0
                } else {
                    ErrorCode::DirectoryActionUnsupported
                }
            },
        },
{
    four_fields(time, user, action, path);
}

/// A record of another number of fields than four or five is refused for that.
pub proof fn records_have_four_or_five_fields(
    body: Seq<u8>,
    line: u64,
    byte_offset: u64,
    limits: IngestLimits,
)
    requires
        valid_utf8(body),
        record::split(body, 0x7c).len() != 4,
        record::split(body, 0x7c).len() != 5,
    ensures
        record::record_of(body, line, byte_offset, limits) matches Err(e) && e.code
            == ErrorCode::WrongFieldCount && e.line == line && e.byte_offset == byte_offset,
{
}

/// A directory, whose path ends with a slash, can only be deleted.
#[verifier::spinoff_prover]
pub proof fn directories_can_only_be_deleted(
    time: Seq<u8>,
    user: Seq<u8>,
    action: Seq<u8>,
    path: Seq<u8>,
    line: u64,
    byte_offset: u64,
    limits: IngestLimits,
)
    requires
        lacks(time, 0x7c),
        lacks(user, 0x7c),
        lacks(action, 0x7c),
        lacks(path, 0x7c),
        is_bare(path),
    ensures
        match record::record_of(
            record_text(time, user, action, path.push(0x2f)),
            line,
            byte_offset,
            limits,
        ) {
            Ok(read) => read.action == ParsedAction::Delete && action.len() == 1 && action[0]
                == 0x44 && read.is_directory && read.path == path,
            Err(e) => action.len() == 1 && action[0] == 0x44 ==> e.code
                != ErrorCode::DirectoryActionUnsupported,
        },
{
    let directory = path.push(0x2f);
    assert forall|i: int| 0 <= i < directory.len() implies #[trigger] directory[i] != 0x7c by {
        if i < path.len() {
            assert(path[i] != 0x7c);
        }
    }
    four_fields(time, user, action, directory);
    slashes_mark_roots_and_directories(path);
    letters_name_actions(action);
}

/// The line end of a record, an LF or a CRLF, is not part of it.
pub proof fn line_ends_are_not_part_of_records(body: Seq<u8>)
    requires
        body.len() > 0,
        body.last() != 0x0a,
        body.last() != 0x0d,
    ensures
        lines::line_body(body) == body,
        lines::line_body(body.push(0x0a)) == body,
        lines::line_body(body.push(0x0d).push(0x0a)) == body,
{
    assert(body.push(0x0a).drop_last() =~= body);
    assert(body.push(0x0d).push(0x0a).drop_last() =~= body.push(0x0d));
    assert(body.push(0x0d).drop_last() =~= body);
}

/// A byte order mark before the first record is not part of it; a record
/// without one is left as it is.
pub proof fn marks_are_not_part_of_the_first_record(raw: Seq<u8>)
    requires
        raw.len() > 0,
    ensures
        ({
            let marked = seq![0xefu8, 0xbbu8, 0xbfu8] + raw;
            &&& lines::unmarked_body(marked, true) == lines::line_body(raw)
            &&& lines::unmarked_body(raw, false) == lines::line_body(raw)
            &&& !(raw.len() >= 3 && raw[0] == 0xef && raw[1] == 0xbb && raw[2] == 0xbf)
                ==> lines::unmarked_body(raw, true) == lines::line_body(raw)
        }),
{
    let mark = seq![0xefu8, 0xbbu8, 0xbfu8];
    let marked = mark + raw;
    assert(marked.last() == raw.last());
    if raw.last() == 0x0a {
        assert(marked.drop_last() =~= mark + raw.drop_last());
        if raw.len() > 1 && raw.drop_last().last() == 0x0d {
            assert(marked.drop_last().last() == 0x0d);
            assert(marked.drop_last().drop_last() =~= mark + raw.drop_last().drop_last());
        } else if raw.len() == 1 {
            assert(marked.drop_last().last() == 0xbf);
        }
    }
    assert(lines::line_body(marked) =~= mark + lines::line_body(raw));
    assert((mark + lines::line_body(raw)).skip(3) =~= lines::line_body(raw));
    assert(lines::starts_with_mark(lines::line_body(raw)) ==> lines::starts_with_mark(raw));
}

/// A NUL, a carriage return and a byte order mark are refused wherever they
/// stand in a record, and so is a record of nothing.
pub proof fn forbidden_bytes_are_refused(body: Seq<u8>, at: int, line: u64, byte_offset: u64)
    requires
        0 <= at < body.len(),
    ensures
        body[at] == 0 || body[at] == 0x0d ==> lines::body_fault(body, line, byte_offset) is Some,
        at + 2 < body.len() && body[at] == 0xef && body[at + 1] == 0xbb && body[at + 2] == 0xbf
            ==> lines::body_fault(body, line, byte_offset) is Some,
        lines::body_fault(Seq::empty(), line, byte_offset) is Some,
        lacks(body, 0) && lacks(body, 0x0d) && lacks(body, 0xef) ==> lines::body_fault(
            body,
            line,
            byte_offset,
        ) is None,
{
    if at + 2 < body.len() && body[at] == 0xef && body[at + 1] == 0xbb && body[at + 2] == 0xbf {
        assert(lines::mark_at(body, at));
    }
    if body[at] == 0 {
        assert(body.contains(0));
    }
    if body[at] == 0x0d {
        assert(body.contains(0x0d));
    }
}

/// Texts, each ended by a line feed.
pub open spec fn lines_text(texts: Seq<Seq<u8>>) -> Seq<u8>
    decreases texts.len(),
{
    if texts.len() == 0 {
        Seq::empty()
    } else {
        lines_text(texts.drop_last()) + texts.last().push(0x0a)
    }
}

proof fn first_line(body: Seq<u8>, rest: Seq<u8>)
    requires
        lacks(body, 0x0a),
    ensures
        lines::piece_length(body.push(0x0a) + rest) == body.len() + 1,
        lines::piece_length(body) == body.len(),
    decreases body.len(),
{
    let whole = body.push(0x0a) + rest;
    if body.len() > 0 {
        let shorter = body.drop_first();
        assert forall|i: int| 0 <= i < shorter.len() implies #[trigger] shorter[i] != 0x0a by {
            assert(body[i + 1] != 0x0a);
        }
        first_line(shorter, rest);
        assert(whole.drop_first() =~= shorter.push(0x0a) + rest);
        assert(whole[0] == body[0]);
    } else {
        assert(whole[0] == 0x0a);
    }
}

/// The line that starts after some text goes up to its line feed, or to the end
/// of the input where it has none.
pub proof fn lines_end_at_their_line_feed(before: Seq<u8>, body: Seq<u8>, rest: Seq<u8>)
    requires
        lacks(body, 0x0a),
    ensures
        lines::raw_line(before + body.push(0x0a) + rest, before.len() as int) == body.push(0x0a),
        lines::raw_line(before + body, before.len() as int) == body,
{
    let input = before + body.push(0x0a) + rest;
    first_line(body, rest);
    assert(input.skip(before.len() as int) =~= body.push(0x0a) + rest);
    assert((body.push(0x0a) + rest).take(body.len() as int + 1) =~= body.push(0x0a));
    assert((before + body).skip(before.len() as int) =~= body);
    assert(body.take(body.len() as int) =~= body);
}

/// The text of lines is that of the first of them, a line and the rest.
proof fn text_at_line(texts: Seq<Seq<u8>>, at: int) -> (rest: Seq<u8>)
    requires
        0 <= at < texts.len(),
    ensures
        lines_text(texts) == lines_text(texts.take(at)) + texts[at].push(0x0a) + rest,
        lines_text(texts.take(at + 1)) == lines_text(texts.take(at)) + texts[at].push(0x0a),
    decreases texts.len(),
{
    let front = texts.drop_last();
    assert(texts.take(at + 1).drop_last() =~= texts.take(at));
    assert(texts.take(at + 1).last() == texts[at]);
    if at == texts.len() - 1 {
        assert(texts.take(at) =~= front);
        let rest = Seq::<u8>::empty();
        assert(lines_text(front) + texts[at].push(0x0a) + rest =~= lines_text(texts));
        rest
    } else {
        let shorter = text_at_line(front, at);
        let rest = shorter + texts.last().push(0x0a);
        assert(front.take(at) =~= texts.take(at));
        assert(lines_text(texts) =~= lines_text(texts.take(at)) + texts[at].push(0x0a) + rest);
        rest
    }
}

proof fn records_from_line(texts: Seq<Seq<u8>>, from: int, at: int, limits: IngestLimits)
    requires
        forall|i: int| 0 <= i < texts.len() ==> lacks(#[trigger] texts[i], 0x0a),
        0 <= from <= at <= texts.len(),
    ensures
        ({
            let input = lines_text(texts);
            let records = lines::records_from(
                input,
                lines_text(texts.take(from)).len() as int,
                from,
                limits,
            );
            &&& records.len() == texts.len() - from
            &&& at < texts.len() ==> Ok::<RecordView, ErrorView>(records[at - from])
                == lines::line_record(
                texts[at].push(0x0a),
                at,
                lines_text(texts.take(at)).len() as int,
                limits,
            ) || lines::line_record(
                texts[at].push(0x0a),
                at,
                lines_text(texts.take(at)).len() as int,
                limits,
            ) is Err
        }),
    decreases texts.len() - from,
{
    let input = lines_text(texts);
    let position = lines_text(texts.take(from)).len() as int;
    if from == texts.len() {
        assert(texts.take(from) =~= texts);
    } else {
        let rest = text_at_line(texts, from);
        let body = texts[from];
        assert(lacks(texts[from], 0x0a));
        lines_end_at_their_line_feed(lines_text(texts.take(from)), body, rest);
        let raw = lines::raw_line(input, position);
        assert(raw == body.push(0x0a));
        assert(raw.last() == 0x0a);
        assert(lines::byte_order_mark().last() == 0xbf);
        assert(position < input.len());
        if at > from {
            records_from_line(texts, from + 1, at, limits);
        } else {
            records_from_line(texts, from + 1, from + 1, limits);
        }
        lines::piece_length_bounds(input.skip(position));
        let tail = lines::records_from(input, position + raw.len(), from + 1, limits);
        assert(lines::records_from(input, position, from, limits) == seq![
            lines::line_record(raw, from, position, limits)->Ok_0,
        ] + tail);
    }
}

/// A log has one record for each of its lines, in their order: each says what
/// its line says, the number of lines before it, and where it starts.
pub proof fn every_line_is_a_record(texts: Seq<Seq<u8>>, at: int, limits: IngestLimits)
    requires
        forall|i: int| 0 <= i < texts.len() ==> lacks(#[trigger] texts[i], 0x0a),
        0 <= at < texts.len() < u64::MAX,
        lines::line_record(
            texts[at].push(0x0a),
            at,
            lines_text(texts.take(at)).len() as int,
            limits,
        ) is Ok,
    ensures
        ({
            let records = lines::records_of(lines_text(texts), limits);
            let place = lines_text(texts.take(at)).len();
            let body = lines::unmarked_body(texts[at].push(0x0a), at == 0);
            let read = record::record_of(body, (at + 1) as u64, place as u64, limits);
            &&& records.len() == texts.len()
            &&& records[at].source_sequence == at
            &&& records[at].line == at + 1
            &&& records[at].byte_offset == place as u64
            &&& read is Ok
            &&& records[at].timestamp == read->Ok_0.timestamp
            &&& records[at].username == read->Ok_0.username
            &&& records[at].action == read->Ok_0.action
            &&& records[at].path == read->Ok_0.path
            &&& records[at].is_directory == read->Ok_0.is_directory
            &&& records[at].colour == read->Ok_0.colour
        }),
{
    records_from_line(texts, 0, at, limits);
    assert(texts.take(0) =~= Seq::<Seq<u8>>::empty());
}

/// A piece of a record is taken in exactly when the record stays within its
/// bytes and the memory for one, and the input within its bytes; else the error
/// says which of them it is over.
pub proof fn records_and_inputs_are_bounded(log: LogView, length: int, limits: IngestLimits)
    requires
        length >= 0,
        log.partial.len() + length <= usize::MAX,
        log.input_bytes + length <= u64::MAX,
    ensures
        ({
            let size = log.partial.len() + length;
            let room = limits::payload_share(limits.working_memory_bytes / 2);
            match lines::piece_fault(log, length, limits) {
                None => size <= limits.max_record_bytes && size <= room && log.input_bytes + length
                    <= limits.max_input_bytes,
                Some(e) => {
                    &&& e.line == log.line
                    &&& e.byte_offset == log.byte_offset
                    &&& e.code == if size > limits.max_record_bytes {
                        ErrorCode::RecordTooLarge
                    } else if size > room {
                        ErrorCode::WorkingMemoryLimit
                    } else {
                        ErrorCode::InputTooLarge
                    }
                    &&& size > limits.max_record_bytes || size > room || log.input_bytes + length
                        > limits.max_input_bytes
                },
            }
        }),
{
}

/// Taking in bytes loses none and counts each.
pub proof fn pieces_are_put_together(log: LogView, bytes: Seq<u8>)
    requires
        log.input_bytes + bytes.len() <= u64::MAX,
    ensures
        lines::with_piece(log, bytes).partial == log.partial + bytes,
        lines::with_piece(log, bytes).input_bytes == log.input_bytes + bytes.len(),
        lines::with_piece(log, bytes).count == log.count,
        lines::with_piece(log, bytes).line == log.line,
        lines::with_piece(log, bytes).byte_offset == log.byte_offset,
        lines::with_piece(log, bytes).chunk == log.chunk,
{
}

/// A record is accepted only below the number of events that a log may have;
/// then the log has one record more, at its end, and stands at its next line.
pub proof fn accepted_records_are_counted(log: LogView, limits: IngestLimits)
    requires
        log.line < u64::MAX,
        log.count < u64::MAX,
    ensures
        lines::accepted(log, limits) matches Ok(next) ==> {
            &&& log.count < limits.max_events
            &&& next.count == log.count + 1
            &&& next.line == log.line + 1
            &&& next.byte_offset == log.input_bytes
            &&& next.input_bytes == log.input_bytes
            &&& next.partial.len() == 0
            &&& next.chunk.len() > 0
            &&& next.chunk.last().source_sequence == log.count
            &&& next.chunk.last().line == log.line
            &&& next.chunk.last().byte_offset == log.byte_offset
        },
{
}

} // verus!
