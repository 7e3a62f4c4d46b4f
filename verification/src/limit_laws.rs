//! How bounds are shared out and what is charged against them.

use vstd::prelude::*;
use vstd::utf8::*;

use crate::charges;
use crate::input;
use crate::limits;
use crate::record;

verus! {

/// The buffer of a parser is a sixteenth of its memory, rounded up, and of 8192
/// bytes at most; the rest is for what it reads.
pub proof fn buffers_are_a_sixteenth(parser_limit: u64)
    ensures
        ({
            let buffer = limits::buffer_share(parser_limit);
            &&& parser_limit <= 8192 ==> 16 * buffer >= parser_limit && 16 * buffer < parser_limit
                + 16
            &&& parser_limit >= 8192 ==> buffer == 512
            &&& buffer + limits::payload_share(parser_limit) == parser_limit
        }),
{
}

/// A list has room for what it holds, and for no more than twice as many or
/// four.
pub proof fn lists_have_room(length: int, size: int)
    requires
        length > 0,
        size > 0,
    ensures
        charges::capacity(length, size) >= length * size,
        length >= 2 ==> charges::capacity(length, size) == 2 * (length * size),
        length == 1 ==> charges::capacity(length, size) == 4 * size,
        charges::capacity(0, size) == 0,
{
    assert(2 * length * size == 2 * (length * size)) by (nonlinear_arith);
    assert(length * size >= size) by (nonlinear_arith)
        requires
            length >= 1,
            size > 0,
    ;
}

/// A path has one component more than it has slashes.
pub proof fn components_are_between_slashes(path: Seq<u8>)
    ensures
        record::split(path, 0x2f).len() == charges::slashes(path) + 1,
    decreases path.len(),
{
    if path.len() > 0 {
        components_are_between_slashes(path.drop_last());
        record::split_is_inverse_to_join(path.drop_last(), 0x2f);
    }
}

/// A path is shown up to 256 bytes: one that fits as it is, and a longer one up
/// to the last character that does.
pub proof fn paths_are_shown_up_to_a_character(path: Seq<u8>, at: int)
    ensures
        path.len() <= 256 ==> input::path_context(path) == path,
        path.len() > 256 ==> {
            let shown = input::path_context(path);
            &&& shown.len() <= 256
            &&& shown == path.take(shown.len() as int)
            &&& shown.len() > 0 ==> !is_continuation_byte(path[shown.len() as int])
            &&& shown.len() < at <= 256 ==> is_continuation_byte(path[at])
        },
{
    if path.len() > 256 {
        cuts_are_latest(path, 256, at);
        let shown = input::path_context(path);
        assert(shown =~= path.take(shown.len() as int));
    }
}

proof fn cuts_are_latest(bytes: Seq<u8>, from: int, at: int)
    requires
        0 <= from < bytes.len(),
    ensures
        ({
            let cut = input::cut_before(bytes, from);
            &&& 0 <= cut <= from
            &&& cut > 0 ==> !is_continuation_byte(bytes[cut])
            &&& cut < at <= from ==> is_continuation_byte(bytes[at])
        }),
    decreases from,
{
    if from > 0 && !input::may_cut(bytes, from) {
        cuts_are_latest(bytes, from - 1, at);
    }
}

} // verus!
