//! How numbers, digests and diagnostics are written.

use vstd::prelude::*;

use crate::text;

verus! {

/// The number that decimal digits write.
pub open spec fn number_of(digits: Seq<char>) -> int
    decreases digits.len(),
{
    if digits.len() == 0 {
        0
    } else {
        number_of(digits.drop_last()) * 10 + (digits.last() as u32 - 48)
    }
}

/// The decimal notation of a number reads as that number; it is of digits and
/// has no leading zero.
pub proof fn decimals_read_back(n: nat)
    ensures
        number_of(text::decimal(n)) == n,
        text::decimal(n).len() > 0,
        n > 0 ==> text::decimal(n)[0] != '0',
        forall|i: int|
            0 <= i < text::decimal(n).len() ==> '0' <= #[trigger] text::decimal(n)[i] <= '9',
    decreases n,
{
    let last = text::digit_char(n % 10);
    assert(last as u32 == 48 + n % 10);
    if n >= 10 {
        decimals_read_back(n / 10);
        let front = text::decimal(n / 10);
        let whole = text::decimal(n);
        assert(whole.drop_last() =~= front);
        assert forall|i: int| 0 <= i < whole.len() implies '0' <= #[trigger] whole[i] <= '9' by {
            if i < front.len() {
                assert(whole[i] == front[i]);
            }
        }
        assert(whole[0] == front[0]);
    } else {
        assert(text::decimal(n).drop_last() =~= Seq::<char>::empty());
        assert(number_of(Seq::<char>::empty()) == 0);
    }
}

/// The value of a lower-case hexadecimal digit.
pub open spec fn nibble_of(c: char) -> int {
    if '0' <= c <= '9' {
        c as u32 - 48
    } else {
        c as u32 - 97 + 10
    }
}

/// Every byte of a digest is written with two lower-case hexadecimal digits,
/// the higher first.
pub proof fn digests_are_written_in_hexadecimal(bytes: Seq<u8>, at: int)
    requires
        0 <= at < bytes.len(),
    ensures
        ({
            let digits = text::hex_of(bytes);
            &&& digits.len() == 2 * bytes.len()
            &&& nibble_of(digits[2 * at]) * 16 + nibble_of(digits[2 * at + 1]) == bytes[at]
            &&& '0' <= digits[2 * at] <= '9' || 'a' <= digits[2 * at] <= 'f'
            &&& '0' <= digits[2 * at + 1] <= '9' || 'a' <= digits[2 * at + 1] <= 'f'
        }),
    decreases bytes.len(),
{
    let front = bytes.drop_last();
    let last = bytes.last();
    assert(last as int == (last / 16) * 16 + last % 16);
    hex_length(front);
    if at < front.len() {
        digests_are_written_in_hexadecimal(front, at);
        assert(text::hex_of(bytes)[2 * at] == text::hex_of(front)[2 * at]);
        assert(text::hex_of(bytes)[2 * at + 1] == text::hex_of(front)[2 * at + 1]);
        hex_length(bytes);
    }
}

proof fn hex_length(bytes: Seq<u8>)
    ensures
        text::hex_of(bytes).len() == 2 * bytes.len(),
    decreases bytes.len(),
{
    if bytes.len() > 0 {
        hex_length(bytes.drop_last());
    }
}

/// Printable text without a backslash is shown in a diagnostic as it is.
pub proof fn plain_text_is_shown_as_it_is(bytes: Seq<u8>)
    requires
        bytes.len() <= 96,
        forall|i: int|
            0 <= i < bytes.len() ==> 0x20 <= #[trigger] bytes[i] <= 0x7e && bytes[i] != 0x5c,
    ensures
        text::context_of(bytes).len() == bytes.len(),
        forall|i: int|
            0 <= i < bytes.len() ==> #[trigger] text::context_of(bytes)[i] == bytes[i] as char,
    decreases bytes.len(),
{
    if bytes.len() > 0 {
        let front = bytes.drop_last();
        assert forall|i: int| 0 <= i < front.len() implies 0x20 <= #[trigger] front[i] <= 0x7e
            && front[i] != 0x5c by {
            assert(front[i] == bytes[i]);
        }
        plain_text_is_shown_as_it_is(front);
        assert forall|i: int| 0 <= i < bytes.len() implies #[trigger] text::context_of(bytes)[i]
            == bytes[i] as char by {
            if i < front.len() {
                assert(text::context_of(bytes)[i] == text::context_of(front)[i]);
                assert(front[i] == bytes[i]);
            }
        }
    }
}

/// A longer text is cut after ninety-six bytes and ends with an ellipsis.
pub proof fn long_text_is_cut(bytes: Seq<u8>)
    requires
        bytes.len() > 96,
    ensures
        text::context_of(bytes).last() == '\u{2026}',
        text::context_of(bytes).drop_last() == text::context_of(bytes.take(96)),
{
    assert(text::context_of(bytes).drop_last() =~= text::context_of(bytes.take(96)));
}

/// A text comes before another that goes on after it, and before one that has a
/// greater byte where they first differ.
pub proof fn the_first_difference_decides(same: Seq<u8>, a: u8, x: Seq<u8>, b: u8, y: Seq<u8>)
    ensures
        a < b ==> text::bytes_before(same.push(a) + x, same.push(b) + y),
        a > b ==> !text::bytes_before(same.push(a) + x, same.push(b) + y),
        text::bytes_before(same, same.push(a) + x),
        !text::bytes_before(same.push(a) + x, same),
    decreases same.len(),
{
    let one = same.push(a) + x;
    let two = same.push(b) + y;
    assert(one.len() > 0 && two.len() > 0);
    if same.len() > 0 {
        let rest = same.drop_first();
        the_first_difference_decides(rest, a, x, b, y);
        assert(one.drop_first() =~= rest.push(a) + x);
        assert(two.drop_first() =~= rest.push(b) + y);
        assert(one[0] == same[0] && two[0] == same[0]);
    } else {
        assert(one[0] == a && two[0] == b);
    }
}

} // verus!
