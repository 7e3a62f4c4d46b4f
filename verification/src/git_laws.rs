//! What the output of `git log` gives: one record for each change of a commit,
//! with the action of Git's status letter.

use vstd::prelude::*;
use vstd::utf8::*;

use crate::charges;
use crate::git_options::GitErrorView;
use crate::git_protocol;
use crate::git_protocol::{ProtocolPhase, ProtocolView};
use crate::limits::IngestLimits;
use crate::record;
use crate::record::{ParsedAction, RecordView};
use crate::sorting;
use crate::timestamp;

verus! {

/// A status letter stands for an action.
pub open spec fn letter_means(letter: u8, action: ParsedAction) -> bool {
    ||| letter == 0x41 && action == ParsedAction::Add
    ||| letter == 0x4d && action == ParsedAction::Modify
    ||| letter == 0x44 && action == ParsedAction::Delete
}

/// Raw metadata that ends with a space and a status letter gives the action of
/// that letter, whatever stands before: `A` adds, `M` modifies and `D` deletes.
/// Any other letter gives nothing.
pub proof fn status_letters_give_actions(before: Seq<u8>, space: u8, letter: u8, offset: u64)
    requires
        git_protocol::is_space(space),
        !git_protocol::is_space(letter),
    ensures
        match git_protocol::metadata_action(before.push(space).push(letter), offset) {
            Ok(action) => letter_means(letter, action),
            Err(_) => letter != 0x41 && letter != 0x4d && letter != 0x44,
        },
{
    reveal_with_fuel(git_protocol::last_word, 3);
    let metadata = before.push(space).push(letter);
    assert(metadata.drop_last() =~= before.push(space));
    assert(before.push(space).last() == space);
    assert(git_protocol::last_word(metadata) =~= seq![letter]);
}

/// White space at the end of raw metadata makes no difference.
pub proof fn trailing_space_makes_no_difference(metadata: Seq<u8>, space: u8, offset: u64)
    requires
        git_protocol::is_space(space),
    ensures
        git_protocol::metadata_action(metadata.push(space), offset)
            == git_protocol::metadata_action(metadata, offset),
{
    assert(metadata.push(space).drop_last() =~= metadata);
}

/// A status of more than one character, such as that of a scored rename, gives
/// nothing, and neither does metadata of white space alone.
pub proof fn long_statuses_are_refused(before: Seq<u8>, first: u8, second: u8, offset: u64)
    requires
        !git_protocol::is_space(first),
        !git_protocol::is_space(second),
    ensures
        git_protocol::metadata_action(before.push(first).push(second), offset) is Err,
        git_protocol::metadata_action(Seq::empty(), offset) is Err,
{
    reveal_with_fuel(git_protocol::last_word, 3);
    let metadata = before.push(first).push(second);
    assert(metadata.drop_last() =~= before.push(first));
    assert(before.push(first).drop_last() =~= before);
    assert(git_protocol::last_word(metadata) == git_protocol::last_word(before).push(first).push(
        second,
    ));
}

/// The white space of raw metadata.
pub proof fn blanks_are_white_space(byte: u8)
    ensures
        git_protocol::is_space(byte) <==> byte == 32 || byte == 9 || byte == 10 || byte == 12
            || byte == 13,
{
}

/// A field without a NUL.
pub open spec fn is_field(field: Seq<u8>) -> bool {
    forall|i: int| 0 <= i < field.len() ==> #[trigger] field[i] != 0
}

/// A parser between two fields.
pub open spec fn between_fields(p: ProtocolView) -> bool {
    p.pending.len() == 0 && p.phase != ProtocolPhase::HeaderLf
}

/// A field is collected until its NUL.
proof fn field_is_collected(
    p: ProtocolView,
    field: Seq<u8>,
    base: int,
    limits: IngestLimits,
    limit: u64,
)
    requires
        between_fields(p),
        is_field(field),
        field.len() <= git_protocol::phase_limit(p.phase, limits),
        p.usage() + field.len() <= limit,
    ensures
        git_protocol::fed(p, field, base, limits, limit) == Ok::<ProtocolView, GitErrorView>(
            (ProtocolView { pending: field, ..p }),
        ),
    decreases field.len(),
{
    sorting::texts_size_is_nonnegative(p.records);
    if field.len() == 0 {
        assert(field =~= p.pending);
        assert((ProtocolView { pending: field, ..p }) =~= p);
    } else {
        let front = field.drop_last();
        assert forall|i: int| 0 <= i < front.len() implies #[trigger] front[i] != 0 by {
            assert(field[i] != 0);
        }
        field_is_collected(p, front, base, limits, limit);
        let next = ProtocolView { pending: front, ..p };
        assert(field.last() != 0);
        assert(front.push(field.last()) =~= field);
        assert(next.usage() + 1 <= limit);
        assert((ProtocolView { pending: next.pending.push(field.last()), ..next })
            =~= (ProtocolView { pending: field, ..p }));
    }
}

/// A field and its NUL.
proof fn field_is_consumed(
    p: ProtocolView,
    field: Seq<u8>,
    base: int,
    limits: IngestLimits,
    limit: u64,
)
    requires
        between_fields(p),
        is_field(field),
        field.len() <= git_protocol::phase_limit(p.phase, limits),
        p.usage() + field.len() <= limit,
    ensures
        git_protocol::fed(p, field.push(0), base, limits, limit) == git_protocol::token_consumed(
            p,
            field,
            sorting::sat(base + field.len()),
            limits,
            limit,
        ),
{
    let bytes = field.push(0);
    field_is_collected(p, field, base, limits, limit);
    assert(bytes.drop_last() =~= field);
    let full = ProtocolView { pending: field, ..p };
    assert(p.pending =~= Seq::<u8>::empty());
    assert((ProtocolView { pending: Seq::empty(), ..full }) =~= p);
}

/// What the limits ask of a change.
pub open spec fn change_fits(
    p: ProtocolView,
    metadata: Seq<u8>,
    path: Seq<u8>,
    limits: IngestLimits,
    limit: u64,
) -> bool {
    &&& metadata.len() + 1 + path.len() + 1 <= limits.max_record_bytes
    &&& path.len() <= limits.max_path_bytes
    &&& charges::slashes(path) + 1 <= limits.max_path_components
    &&& p.records.len() < limits.max_events
    &&& p.usage() + 2 * metadata.len() + p.username.len() + path.len() + 2 * 88 <= limit
}

/// A path that records can hold: UTF-8, not empty, without a NUL, a `|`, a line
/// feed or a carriage return.
pub open spec fn is_path(path: Seq<u8>) -> bool {
    &&& path.len() > 0
    &&& valid_utf8(path)
    &&& forall|i: int|
        0 <= i < path.len() ==> {
            let byte = #[trigger] path[i];
            byte != 0 && byte != 0x7c && byte != 0x0a && byte != 0x0d
        }
}

/// The record of a change says what the output says of it: its path, Git's
/// status letter, the time and the contributor of its commit, and its place
/// among all changes.
pub open spec fn tells_change(
    change: RecordView,
    p: ProtocolView,
    path: Seq<u8>,
    letter: u8,
) -> bool {
    &&& letter_means(letter, change.action)
    &&& change.path == path
    &&& change.timestamp == p.timestamp
    &&& change.username == p.username
    &&& change.source_sequence == p.records.len() as u64
    &&& p.records.len() < u64::MAX ==> change.line == p.records.len() + 1
    &&& !change.is_directory
    &&& change.colour is None
}

/// After the header of a commit, and after each change of it, raw metadata that
/// starts with a colon and ends with a space and a status letter, and a path,
/// each ended by a NUL, add one record after those there were: the record of
/// that change.  More changes may follow.
#[verifier::spinoff_prover]
pub proof fn changes_become_records(
    p: ProtocolView,
    middle: Seq<u8>,
    letter: u8,
    path: Seq<u8>,
    base: int,
    limits: IngestLimits,
    limit: u64,
)
    requires
        p.phase == ProtocolPhase::PostHeader || p.phase == ProtocolPhase::PostRecord,
        p.pending.len() == 0,
        p.metadata.len() == 0,
        is_field(middle),
        letter == 0x41 || letter == 0x4d || letter == 0x44,
        is_path(path),
        change_fits(p, seq![0x3au8] + middle + seq![0x20u8, letter], path, limits, limit),
    ensures
        ({
            let metadata = seq![0x3au8] + middle + seq![0x20u8, letter];
            let bytes = metadata + seq![0u8] + path + seq![0u8];
            match git_protocol::fed(p, bytes, base, limits, limit) {
                Err(_) => false,
                Ok(next) => {
                    &&& next.phase == ProtocolPhase::PostRecord
                    &&& next.pending.len() == 0
                    &&& next.metadata.len() == 0
                    &&& next.timestamp == p.timestamp
                    &&& next.username == p.username
                    &&& next.records.len() == p.records.len() + 1
                    &&& next.records.drop_last() == p.records
                    &&& tells_change(next.records.last(), p, path, letter)
                },
            }
        }),
{
    let metadata = seq![0x3au8] + middle + seq![0x20u8, letter];
    let first = metadata.push(0);
    let second = path.push(0);
    let bytes = metadata + seq![0u8] + path + seq![0u8];
    assert(bytes =~= first + second);
    sorting::texts_size_is_nonnegative(p.records);
    assert forall|i: int| 0 <= i < metadata.len() implies #[trigger] metadata[i] != 0 by {
        if 1 <= i <= middle.len() {
            assert(metadata[i] == middle[i - 1]);
        }
    }
    assert(metadata[0] == 0x3a);
    field_is_consumed(p, metadata, base, limits, limit);
    git_protocol::chunks_do_not_matter(p, first, second, base, limits, limit);
    let reading = ProtocolView { metadata, phase: ProtocolPhase::Path, ..p };
    assert(git_protocol::fed(p, first, base, limits, limit) == Ok::<ProtocolView, GitErrorView>(
        reading,
    ));
    let there = base + first.len();
    field_is_consumed(reading, path, there, limits, limit);
    let offset = sorting::sat(there + path.len());
    status_letters_give_actions(seq![0x3au8] + middle, 0x20, letter, offset);
    assert(metadata =~= (seq![0x3au8] + middle).push(0x20).push(letter));
    assert(!git_protocol::holds_forbidden(path));
    let action = git_protocol::metadata_action(metadata, offset)->Ok_0;
    let change = git_protocol::path_record(reading, path, action, offset);
    assert(p.records.push(change).drop_last() =~= p.records);
}

/// A marker, a number and a contributor, each ended by a NUL, and a line feed
/// are the header of a commit: what follows is of that time and by that
/// contributor.  No record is added or lost.
#[verifier::spinoff_prover]
pub proof fn headers_begin_commits(
    p: ProtocolView,
    epoch: Seq<u8>,
    author: Seq<u8>,
    base: int,
    limits: IngestLimits,
    limit: u64,
)
    requires
        p.phase == ProtocolPhase::Marker || p.phase == ProtocolPhase::ExpectMarker,
        p.pending.len() == 0,
        is_field(epoch),
        0 < epoch.len() <= 32,
        valid_utf8(epoch),
        timestamp::signed_number_of(epoch) is Some,
        is_field(author),
        author.len() <= limits.max_contributor_bytes,
        valid_utf8(author),
        p.usage() + 32 + author.len() + record::contributor_of(author).len() <= limit,
    ensures
        ({
            let marker = seq![71u8, 79, 85, 82, 67, 69, 45, 67, 79, 77, 77, 73, 84];
            let bytes = marker + seq![0u8] + epoch + seq![0u8] + author + seq![0u8];
            match git_protocol::fed(p, bytes, base, limits, limit) {
                Err(_) => false,
                Ok(next) => {
                    &&& next.phase == ProtocolPhase::HeaderLf
                    &&& next.pending.len() == 0
                    &&& next.metadata.len() == 0
                    &&& Some(next.timestamp) == timestamp::signed_number_of(epoch)
                    &&& next.username == record::contributor_of(author)
                    &&& next.records == p.records
                },
            }
        }),
{
    let marker = seq![71u8, 79, 85, 82, 67, 69, 45, 67, 79, 77, 77, 73, 84];
    let bytes = marker + seq![0u8] + epoch + seq![0u8] + author + seq![0u8];
    let first = marker.push(0);
    let second = epoch.push(0);
    let third = author.push(0);
    assert(bytes =~= first + second + third);
    assert(marker =~= git_protocol::commit_marker());
    sorting::texts_size_is_nonnegative(p.records);
    field_is_consumed(p, marker, base, limits, limit);
    let begun = ProtocolView {
        username: Seq::empty(),
        metadata: Seq::empty(),
        phase: ProtocolPhase::Timestamp,
        ..p
    };
    git_protocol::chunks_do_not_matter(p, first + second, third, base, limits, limit);
    git_protocol::chunks_do_not_matter(p, first, second, base, limits, limit);
    field_is_consumed(begun, epoch, base + first.len(), limits, limit);
    let dated = ProtocolView {
        timestamp: timestamp::signed_number_of(epoch)->0,
        phase: ProtocolPhase::Author,
        ..begun
    };
    field_is_consumed(dated, author, base + (first + second).len(), limits, limit);
}

/// After a header a line feed leads to the changes of the commit; a NUL ends a
/// commit that has none, as an empty field ends one after its changes.  Then
/// the next commit begins.
pub proof fn commits_are_separated(
    p: ProtocolView,
    offset: u64,
    limits: IngestLimits,
    limit: u64,
)
    requires
        p.pending.len() == 0,
    ensures
        p.phase == ProtocolPhase::HeaderLf ==> git_protocol::byte_fed(p, 10, offset, limits, limit)
            == Ok::<ProtocolView, GitErrorView>(
            (ProtocolView { phase: ProtocolPhase::PostHeader, ..p }),
        ),
        p.phase == ProtocolPhase::HeaderLf || p.phase == ProtocolPhase::PostRecord
            ==> git_protocol::byte_fed(p, 0, offset, limits, limit) == Ok::<
            ProtocolView,
            GitErrorView,
        >((ProtocolView { phase: ProtocolPhase::ExpectMarker, ..p })),
        p.phase == ProtocolPhase::HeaderLf ==> forall|byte: u8|
            byte != 0 && byte != 10 ==> #[trigger] git_protocol::byte_fed(
                p,
                byte,
                offset,
                limits,
                limit,
            ) is Err,
{
    assert(p.pending =~= Seq::<u8>::empty());
    assert((ProtocolView { pending: Seq::empty(), ..p }) =~= p);
}

/// The output may end after the contributor of a commit and after a change, and
/// nowhere else.
pub proof fn output_ends_between_changes(p: ProtocolView, input_bytes: u64)
    ensures
        git_protocol::end_fault(p, input_bytes) is None <==> p.pending.len() == 0 && (p.phase
            == ProtocolPhase::HeaderLf || p.phase == ProtocolPhase::PostRecord),
{
}

/// Records that were made stay as they are, whatever follows.
pub proof fn records_only_grow(
    p: ProtocolView,
    bytes: Seq<u8>,
    base: int,
    limits: IngestLimits,
    limit: u64,
)
    ensures
        git_protocol::fed(p, bytes, base, limits, limit) matches Ok(next) ==> {
            &&& p.records.len() <= next.records.len()
            &&& next.records.take(p.records.len() as int) == p.records
        },
    decreases bytes.len(),
{
    if bytes.len() == 0 {
        assert(p.records.take(p.records.len() as int) =~= p.records);
    } else {
        records_only_grow(p, bytes.drop_last(), base, limits, limit);
        if let Ok(middle) = git_protocol::fed(p, bytes.drop_last(), base, limits, limit) {
            if let Ok(next) = git_protocol::fed(p, bytes, base, limits, limit) {
                assert(next.records == middle.records || next.records.drop_last()
                    =~= middle.records);
                assert(next.records.take(p.records.len() as int) =~= middle.records.take(
                    p.records.len() as int,
                ));
            }
        }
    }
}

} // verus!
