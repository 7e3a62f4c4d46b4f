//! Text primitives: UTF-8 conversion, decimal and hexadecimal rendering, and
//! the bounded escaped context that diagnostics quote from their input.

use vstd::prelude::*;
use vstd::string::*;
use vstd::utf8::*;

verus! {

/// `String::push` appends one character to the end of the string.
pub assume_specification[ String::push ](s: &mut String, c: char)
    ensures
        final(s)@ == old(s)@.push(c),
;

/// `std::str::from_utf8` accepts exactly the valid UTF-8 byte sequences and
/// then returns the same bytes as text.
#[verifier::external_body]
pub(crate) fn utf8_text<'a>(bytes: &'a [u8]) -> (text: Option<&'a str>)
    ensures
        text is Some <==> valid_utf8(bytes@),
        text matches Some(t) ==> t.spec_bytes() == bytes@,
{
    std::str::from_utf8(bytes).ok()
}

/// The UTF-8 bytes of an owned string.
pub open spec fn string_bytes(s: String) -> Seq<u8> {
    encode_utf8(s@)
}

/// Two strings with the same bytes hold the same characters.
pub proof fn string_bytes_determine_chars(a: Seq<char>, b: Seq<char>)
    requires
        encode_utf8(a) == encode_utf8(b),
    ensures
        a == b,
{
    encode_utf8_decode_utf8(a);
    encode_utf8_decode_utf8(b);
}

/// Copies valid UTF-8 bytes into an owned string.
pub fn string_from_bytes(bytes: &[u8]) -> (text: Option<String>)
    ensures
        text is Some <==> valid_utf8(bytes@),
        text matches Some(t) ==> string_bytes(t) == bytes@,
{
    match utf8_text(bytes) {
        Some(t) => Some(t.to_owned()),
        None => None,
    }
}

/// Copies a string.
pub fn copy_string(s: &String) -> (copy: String)
    ensures
        copy@ == s@,
{
    s.as_str().to_owned()
}

/// Slicing valid UTF-8 just before and just after positions that do not hold
/// continuation bytes leaves valid UTF-8.
pub proof fn valid_utf8_between_boundaries(bytes: Seq<u8>, from: int, to: int)
    requires
        valid_utf8(bytes),
        0 <= from <= to <= bytes.len(),
        from == bytes.len() || !is_continuation_byte(bytes[from]),
        to == bytes.len() || !is_continuation_byte(bytes[to]),
    ensures
        valid_utf8(bytes.subrange(from, to)),
{
    is_char_boundary_start_end_of_seq(bytes);
    if to < bytes.len() {
        is_char_boundary_iff_not_is_continuation_byte(bytes, to);
    }
    valid_utf8_split(bytes, to);
    let head = bytes.subrange(0, to);
    is_char_boundary_start_end_of_seq(head);
    if from < to {
        assert(head[from] == bytes[from]);
        is_char_boundary_iff_not_is_continuation_byte(head, from);
    }
    valid_utf8_split(head, from);
    assert(head.subrange(from, head.len() as int) =~= bytes.subrange(from, to));
}

/// The character of a decimal digit.
pub open spec fn digit_char(digit: nat) -> char {
    (48 + digit) as u8 as char
}

/// Decimal notation without leading zeros.
pub open spec fn decimal(n: nat) -> Seq<char>
    decreases n,
{
    if n < 10 {
        seq![digit_char(n)]
    } else {
        decimal(n / 10).push(digit_char(n % 10))
    }
}

/// Appends the decimal notation of `n`.
pub fn push_decimal(out: &mut String, n: u64)
    ensures
        final(out)@ == old(out)@ + decimal(n as nat),
    decreases n,
{
    if n >= 10 {
        push_decimal(out, n / 10);
    }
    out.push((48 + (n % 10) as u8) as char);
    proof {
        assert(out@ =~= old(out)@ + decimal(n as nat));
    }
}

/// The lower-case hexadecimal digit of a four-bit value.
pub open spec fn hex_char(nibble: nat) -> char {
    if nibble < 10 {
        (48 + nibble) as u8 as char
    } else {
        (87 + nibble) as u8 as char
    }
}

/// The lower-case hexadecimal digit of a four-bit value.
pub fn hex_digit_char(nibble: u8) -> (c: char)
    requires
        nibble < 16,
    ensures
        c == hex_char(nibble as nat),
{
    if nibble < 10 {
        (48 + nibble) as char
    } else {
        (87 + nibble) as char
    }
}

/// Two lower-case hexadecimal digits for each byte.
pub open spec fn hex_of(bytes: Seq<u8>) -> Seq<char>
    decreases bytes.len(),
{
    if bytes.len() == 0 {
        Seq::empty()
    } else {
        hex_of(bytes.drop_last()).push(hex_char((bytes.last() / 16) as nat)).push(
            hex_char((bytes.last() % 16) as nat),
        )
    }
}

/// Appends two lower-case hexadecimal digits for each byte.
pub fn push_hex(out: &mut String, bytes: &[u8])
    ensures
        final(out)@ == old(out)@ + hex_of(bytes@),
{
    let mut index: usize = 0;
    assert(bytes@.take(0) =~= Seq::<u8>::empty());
    assert(out@ =~= old(out)@ + hex_of(bytes@.take(0)));
    while index < bytes.len()
        invariant
            index <= bytes.len(),
            out@ == old(out)@ + hex_of(bytes@.take(index as int)),
        decreases bytes.len() - index,
    {
        let byte: u8 = bytes[index];
        out.push(hex_digit_char(byte / 16));
        out.push(hex_digit_char(byte % 16));
        proof {
            let next = bytes@.take(index as int + 1);
            assert(next.drop_last() =~= bytes@.take(index as int));
            assert(next.last() == byte);
            assert(out@ =~= old(out)@ + hex_of(next));
        }
        index = index + 1;
    }
    assert(bytes@.take(index as int) =~= bytes@);
}

/// How one byte is shown inside a diagnostic context.
pub open spec fn escaped_byte(byte: u8) -> Seq<char> {
    if byte == 0x5c {
        seq!['\\', '\\']
    } else if byte == 0x0a {
        seq!['\\', 'n']
    } else if byte == 0x0d {
        seq!['\\', 'r']
    } else if byte == 0x09 {
        seq!['\\', 't']
    } else if 0x20 <= byte <= 0x7e {
        seq![byte as char]
    } else {
        seq!['\\', 'x', hex_char((byte / 16) as nat), hex_char((byte % 16) as nat)]
    }
}

/// Every byte escaped, in order.
pub open spec fn escaped_bytes(bytes: Seq<u8>) -> Seq<char>
    decreases bytes.len(),
{
    if bytes.len() == 0 {
        Seq::empty()
    } else {
        escaped_bytes(bytes.drop_last()) + escaped_byte(bytes.last())
    }
}

/// The largest number of input bytes that a diagnostic context shows.
pub const MAX_CONTEXT: usize = 96;

/// The context of a diagnostic: the first bytes escaped, followed by an
/// ellipsis when more were there.
pub open spec fn context_of(bytes: Seq<u8>) -> Seq<char> {
    if bytes.len() > MAX_CONTEXT {
        escaped_bytes(bytes.take(MAX_CONTEXT as int)).push('\u{2026}')
    } else {
        escaped_bytes(bytes)
    }
}

/// Renders the bounded escaped context of a diagnostic.
pub fn bounded_context(bytes: &[u8]) -> (context: String)
    ensures
        context@ == context_of(bytes@),
{
    let mut output = String::new();
    let shown: usize = if bytes.len() > MAX_CONTEXT {
        MAX_CONTEXT
    } else {
        bytes.len()
    };
    let mut index: usize = 0;
    assert(bytes@.take(0) =~= Seq::<u8>::empty());
    while index < shown
        invariant
            index <= shown <= bytes.len(),
            output@ == escaped_bytes(bytes@.take(index as int)),
        decreases shown - index,
    {
        let byte: u8 = bytes[index];
        let ghost before = output@;
        if byte == 0x5c {
            output.push('\\');
            output.push('\\');
        } else if byte == 0x0a {
            output.push('\\');
            output.push('n');
        } else if byte == 0x0d {
            output.push('\\');
            output.push('r');
        } else if byte == 0x09 {
            output.push('\\');
            output.push('t');
        } else if 0x20 <= byte && byte <= 0x7e {
            output.push(byte as char);
        } else {
            output.push('\\');
            output.push('x');
            output.push(hex_digit_char(byte / 16));
            output.push(hex_digit_char(byte % 16));
        }
        proof {
            let next = bytes@.take(index as int + 1);
            assert(next.drop_last() =~= bytes@.take(index as int));
            assert(next.last() == byte);
            assert(output@ =~= before + escaped_byte(byte));
        }
        index = index + 1;
    }
    if bytes.len() > MAX_CONTEXT {
        output.push('\u{2026}');
    } else {
        assert(bytes@.take(index as int) =~= bytes@);
    }
    output
}

/// A diagnostic context is bounded whatever the input: at most four
/// characters for each quoted byte and one ellipsis.
pub proof fn context_is_bounded(bytes: Seq<u8>)
    ensures
        context_of(bytes).len() <= 4 * MAX_CONTEXT + 1,
{
    if bytes.len() > MAX_CONTEXT {
        escaped_length(bytes.take(MAX_CONTEXT as int));
    } else {
        escaped_length(bytes);
    }
}

proof fn escaped_length(bytes: Seq<u8>)
    ensures
        escaped_bytes(bytes).len() <= 4 * bytes.len(),
    decreases bytes.len(),
{
    if bytes.len() > 0 {
        escaped_length(bytes.drop_last());
    }
}

/// Whether two byte slices hold the same bytes.
pub fn same_bytes(a: &[u8], b: &[u8]) -> (same: bool)
    ensures
        same == (a@ == b@),
{
    if a.len() != b.len() {
        return false;
    }
    let mut index: usize = 0;
    while index < a.len()
        invariant
            index <= a.len(),
            a.len() == b.len(),
            a@.take(index as int) =~= b@.take(index as int),
        decreases a.len() - index,
    {
        if a[index] != b[index] {
            return false;
        }
        proof {
            assert(a@.take(index as int + 1) =~= a@.take(index as int).push(a@[index as int]));
            assert(b@.take(index as int + 1) =~= b@.take(index as int).push(b@[index as int]));
        }
        index = index + 1;
    }
    assert(a@.take(index as int) =~= a@);
    assert(b@.take(index as int) =~= b@);
    true
}

/// The order of byte strings.
pub open spec fn bytes_before(a: Seq<u8>, b: Seq<u8>) -> bool
    decreases a.len(),
{
    if b.len() == 0 {
        false
    } else if a.len() == 0 {
        true
    } else if a[0] != b[0] {
        a[0] < b[0]
    } else {
        bytes_before(a.drop_first(), b.drop_first())
    }
}

/// Compares bytes one by one.
pub fn bytes_precede(a: &[u8], b: &[u8]) -> (before: bool)
    ensures
        before == bytes_before(a@, b@),
{
    let mut index: usize = 0;
    assert(a@.skip(0) =~= a@);
    assert(b@.skip(0) =~= b@);
    while index < a.len() && index < b.len()
        invariant
            index <= a@.len(),
            index <= b@.len(),
            bytes_before(a@, b@) == bytes_before(a@.skip(index as int), b@.skip(index as int)),
        decreases a@.len() - index,
    {
        if a[index] != b[index] {
            return a[index] < b[index];
        }
        assert(a@.skip(index as int).drop_first() =~= a@.skip(index + 1));
        assert(b@.skip(index as int).drop_first() =~= b@.skip(index + 1));
        index = index + 1;
    }
    index < b.len()
}

/// The order of byte strings is transitive.
pub proof fn bytes_order_is_transitive(a: Seq<u8>, b: Seq<u8>, c: Seq<u8>)
    requires
        bytes_before(a, b),
        bytes_before(b, c),
    ensures
        bytes_before(a, c),
    decreases a.len(),
{
    if a.len() > 0 && a[0] == b[0] && b[0] == c[0] {
        bytes_order_is_transitive(a.drop_first(), b.drop_first(), c.drop_first());
    }
}

pub proof fn no_bytes_before_themselves(a: Seq<u8>)
    ensures
        !bytes_before(a, a),
    decreases a.len(),
{
    if a.len() > 0 {
        no_bytes_before_themselves(a.drop_first());
    }
}

/// Of two different byte strings one is before the other.
pub proof fn bytes_order_is_total(a: Seq<u8>, b: Seq<u8>)
    requires
        !bytes_before(a, b),
        !bytes_before(b, a),
    ensures
        a == b,
    decreases a.len(),
{
    if a.len() > 0 && b.len() > 0 {
        bytes_order_is_total(a.drop_first(), b.drop_first());
        assert forall|i: int| 0 <= i < a.len() implies a[i] == b[i] by {
            if i > 0 {
                assert(a.drop_first()[i - 1] == b.drop_first()[i - 1]);
            }
        }
    }
    assert(a =~= b);
}

/// Of two byte strings that are not before each other in turn, the outer two
/// are not either.
pub proof fn bytes_order_is_weak(a: Seq<u8>, b: Seq<u8>, c: Seq<u8>)
    requires
        !bytes_before(a, b),
        !bytes_before(b, c),
    ensures
        !bytes_before(a, c),
    decreases a.len(),
{
    if a.len() > 0 && b.len() > 0 && c.len() > 0 && a[0] == b[0] && b[0] == c[0] {
        bytes_order_is_weak(a.drop_first(), b.drop_first(), c.drop_first());
    }
}

} // verus!
