//! The embedded 5 by 7 glyphs of labels.

use vstd::prelude::*;
use vstd::string::*;

verus! {

/// Columns of a glyph.
pub const GLYPH_COLUMNS: usize = 5;

/// Rows of a glyph.
pub const GLYPH_ROWS: usize = 7;

/// Cells of a glyph.
pub const GLYPH_CELLS: usize = 35;

/// Glyphs that are laid out of one label at most.
pub const MAX_LABEL_LAYOUT_GLYPHS: usize = 256;

/// Vertices of one cell.
pub const CELL_VERTICES: usize = 6;

/// Seven rows of five cells in one number, the first row lowest.
pub open spec fn packed(r0: u64, r1: u64, r2: u64, r3: u64, r4: u64, r5: u64, r6: u64) -> u64 {
    (r0 + 0x20 * r1 + 0x400 * r2 + 0x8000 * r3 + 0x10_0000 * r4 + 0x200_0000 * r5 + 0x4000_0000
        * r6) as u64
}

/// Packs seven rows of five cells.
pub fn glyph(r0: u64, r1: u64, r2: u64, r3: u64, r4: u64, r5: u64, r6: u64) -> (bits: u64)
    requires
        r0 < 32,
        r1 < 32,
        r2 < 32,
        r3 < 32,
        r4 < 32,
        r5 < 32,
        r6 < 32,
    ensures
        bits == packed(r0, r1, r2, r3, r4, r5, r6),
{
    r0 + 0x20 * r1 + 0x400 * r2 + 0x8000 * r3 + 0x10_0000 * r4 + 0x200_0000 * r5 + 0x4000_0000 * r6
}

/// The glyph of a upper case letter, or of what is not known.
pub open spec fn uppercase_bits(c: char) -> u64 {
    match c {
        'A' => packed(14, 17, 17, 31, 17, 17, 17),
        'B' => packed(30, 17, 17, 30, 17, 17, 30),
        'C' => packed(14, 17, 16, 16, 16, 17, 14),
        'D' => packed(30, 17, 17, 17, 17, 17, 30),
        'E' => packed(31, 16, 16, 30, 16, 16, 31),
        'F' => packed(31, 16, 16, 30, 16, 16, 16),
        'G' => packed(14, 17, 16, 23, 17, 17, 15),
        'H' => packed(17, 17, 17, 31, 17, 17, 17),
        'I' => packed(14, 4, 4, 4, 4, 4, 14),
        'J' => packed(7, 2, 2, 2, 2, 18, 12),
        'K' => packed(17, 18, 20, 24, 20, 18, 17),
        'L' => packed(16, 16, 16, 16, 16, 16, 31),
        'M' => packed(17, 27, 21, 21, 17, 17, 17),
        'N' => packed(17, 25, 21, 19, 17, 17, 17),
        'O' => packed(14, 17, 17, 17, 17, 17, 14),
        'P' => packed(30, 17, 17, 30, 16, 16, 16),
        'Q' => packed(14, 17, 17, 17, 21, 18, 13),
        'R' => packed(30, 17, 17, 30, 20, 18, 17),
        'S' => packed(15, 16, 16, 14, 1, 1, 30),
        'T' => packed(31, 4, 4, 4, 4, 4, 4),
        'U' => packed(17, 17, 17, 17, 17, 17, 14),
        'V' => packed(17, 17, 17, 17, 17, 10, 4),
        'W' => packed(17, 17, 17, 21, 21, 21, 10),
        'X' => packed(17, 17, 10, 4, 10, 17, 17),
        'Y' => packed(17, 17, 10, 4, 4, 4, 4),
        'Z' => packed(31, 1, 2, 4, 8, 16, 31),
        _ => packed(31, 17, 21, 21, 21, 17, 31),
    }
}

fn uppercase_glyph(c: char) -> (bits: u64)
    ensures
        bits == uppercase_bits(c),
{
    match c {
        'A' => glyph(14, 17, 17, 31, 17, 17, 17),
        'B' => glyph(30, 17, 17, 30, 17, 17, 30),
        'C' => glyph(14, 17, 16, 16, 16, 17, 14),
        'D' => glyph(30, 17, 17, 17, 17, 17, 30),
        'E' => glyph(31, 16, 16, 30, 16, 16, 31),
        'F' => glyph(31, 16, 16, 30, 16, 16, 16),
        'G' => glyph(14, 17, 16, 23, 17, 17, 15),
        'H' => glyph(17, 17, 17, 31, 17, 17, 17),
        'I' => glyph(14, 4, 4, 4, 4, 4, 14),
        'J' => glyph(7, 2, 2, 2, 2, 18, 12),
        'K' => glyph(17, 18, 20, 24, 20, 18, 17),
        'L' => glyph(16, 16, 16, 16, 16, 16, 31),
        'M' => glyph(17, 27, 21, 21, 17, 17, 17),
        'N' => glyph(17, 25, 21, 19, 17, 17, 17),
        'O' => glyph(14, 17, 17, 17, 17, 17, 14),
        'P' => glyph(30, 17, 17, 30, 16, 16, 16),
        'Q' => glyph(14, 17, 17, 17, 21, 18, 13),
        'R' => glyph(30, 17, 17, 30, 20, 18, 17),
        'S' => glyph(15, 16, 16, 14, 1, 1, 30),
        'T' => glyph(31, 4, 4, 4, 4, 4, 4),
        'U' => glyph(17, 17, 17, 17, 17, 17, 14),
        'V' => glyph(17, 17, 17, 17, 17, 10, 4),
        'W' => glyph(17, 17, 17, 21, 21, 21, 10),
        'X' => glyph(17, 17, 10, 4, 10, 17, 17),
        'Y' => glyph(17, 17, 10, 4, 4, 4, 4),
        'Z' => glyph(31, 1, 2, 4, 8, 16, 31),
        _ => glyph(31, 17, 21, 21, 21, 17, 31),
    }
}

/// The glyph of a lower case letter, or of what is not known.
pub open spec fn lowercase_bits(c: char) -> u64 {
    match c {
        'a' => packed(0, 0, 14, 1, 15, 17, 15),
        'b' => packed(16, 16, 30, 17, 17, 17, 30),
        'c' => packed(0, 0, 14, 16, 16, 17, 14),
        'd' => packed(1, 1, 15, 17, 17, 17, 15),
        'e' => packed(0, 0, 14, 17, 31, 16, 14),
        'f' => packed(6, 9, 8, 28, 8, 8, 8),
        'g' => packed(0, 0, 15, 17, 15, 1, 14),
        'h' => packed(16, 16, 30, 17, 17, 17, 17),
        'i' => packed(4, 0, 12, 4, 4, 4, 14),
        'j' => packed(2, 0, 6, 2, 2, 18, 12),
        'k' => packed(16, 16, 18, 20, 24, 20, 18),
        'l' => packed(12, 4, 4, 4, 4, 4, 14),
        'm' => packed(0, 0, 26, 21, 21, 17, 17),
        'n' => packed(0, 0, 30, 17, 17, 17, 17),
        'o' => packed(0, 0, 14, 17, 17, 17, 14),
        'p' => packed(0, 0, 30, 17, 30, 16, 16),
        'q' => packed(0, 0, 15, 17, 15, 1, 1),
        'r' => packed(0, 0, 22, 25, 16, 16, 16),
        's' => packed(0, 0, 15, 16, 14, 1, 30),
        't' => packed(8, 8, 28, 8, 8, 9, 6),
        'u' => packed(0, 0, 17, 17, 17, 19, 13),
        'v' => packed(0, 0, 17, 17, 17, 10, 4),
        'w' => packed(0, 0, 17, 17, 21, 21, 10),
        'x' => packed(0, 0, 17, 10, 4, 10, 17),
        'y' => packed(0, 0, 17, 17, 15, 1, 14),
        'z' => packed(0, 0, 31, 2, 4, 8, 31),
        _ => packed(31, 17, 21, 21, 21, 17, 31),
    }
}

fn lowercase_glyph(c: char) -> (bits: u64)
    ensures
        bits == lowercase_bits(c),
{
    match c {
        'a' => glyph(0, 0, 14, 1, 15, 17, 15),
        'b' => glyph(16, 16, 30, 17, 17, 17, 30),
        'c' => glyph(0, 0, 14, 16, 16, 17, 14),
        'd' => glyph(1, 1, 15, 17, 17, 17, 15),
        'e' => glyph(0, 0, 14, 17, 31, 16, 14),
        'f' => glyph(6, 9, 8, 28, 8, 8, 8),
        'g' => glyph(0, 0, 15, 17, 15, 1, 14),
        'h' => glyph(16, 16, 30, 17, 17, 17, 17),
        'i' => glyph(4, 0, 12, 4, 4, 4, 14),
        'j' => glyph(2, 0, 6, 2, 2, 18, 12),
        'k' => glyph(16, 16, 18, 20, 24, 20, 18),
        'l' => glyph(12, 4, 4, 4, 4, 4, 14),
        'm' => glyph(0, 0, 26, 21, 21, 17, 17),
        'n' => glyph(0, 0, 30, 17, 17, 17, 17),
        'o' => glyph(0, 0, 14, 17, 17, 17, 14),
        'p' => glyph(0, 0, 30, 17, 30, 16, 16),
        'q' => glyph(0, 0, 15, 17, 15, 1, 1),
        'r' => glyph(0, 0, 22, 25, 16, 16, 16),
        's' => glyph(0, 0, 15, 16, 14, 1, 30),
        't' => glyph(8, 8, 28, 8, 8, 9, 6),
        'u' => glyph(0, 0, 17, 17, 17, 19, 13),
        'v' => glyph(0, 0, 17, 17, 17, 10, 4),
        'w' => glyph(0, 0, 17, 17, 21, 21, 10),
        'x' => glyph(0, 0, 17, 10, 4, 10, 17),
        'y' => glyph(0, 0, 17, 17, 15, 1, 14),
        'z' => glyph(0, 0, 31, 2, 4, 8, 31),
        _ => glyph(31, 17, 21, 21, 21, 17, 31),
    }
}

/// The glyph of a digit, or of what is not known.
pub open spec fn digit_bits(c: char) -> u64 {
    match c {
        '0' => packed(14, 17, 19, 21, 25, 17, 14),
        '1' => packed(4, 12, 4, 4, 4, 4, 14),
        '2' => packed(14, 17, 1, 2, 4, 8, 31),
        '3' => packed(30, 1, 1, 14, 1, 1, 30),
        '4' => packed(2, 6, 10, 18, 31, 2, 2),
        '5' => packed(31, 16, 16, 30, 1, 1, 30),
        '6' => packed(6, 8, 16, 30, 17, 17, 14),
        '7' => packed(31, 1, 2, 4, 8, 8, 8),
        '8' => packed(14, 17, 17, 14, 17, 17, 14),
        '9' => packed(14, 17, 17, 15, 1, 2, 12),
        _ => packed(31, 17, 21, 21, 21, 17, 31),
    }
}

fn digit_glyph(c: char) -> (bits: u64)
    ensures
        bits == digit_bits(c),
{
    match c {
        '0' => glyph(14, 17, 19, 21, 25, 17, 14),
        '1' => glyph(4, 12, 4, 4, 4, 4, 14),
        '2' => glyph(14, 17, 1, 2, 4, 8, 31),
        '3' => glyph(30, 1, 1, 14, 1, 1, 30),
        '4' => glyph(2, 6, 10, 18, 31, 2, 2),
        '5' => glyph(31, 16, 16, 30, 1, 1, 30),
        '6' => glyph(6, 8, 16, 30, 17, 17, 14),
        '7' => glyph(31, 1, 2, 4, 8, 8, 8),
        '8' => glyph(14, 17, 17, 14, 17, 17, 14),
        '9' => glyph(14, 17, 17, 15, 1, 2, 12),
        _ => glyph(31, 17, 21, 21, 21, 17, 31),
    }
}

/// The glyph of a mark, or of what is not known.
pub open spec fn mark_bits(c: char) -> u64 {
    match c {
        ' ' => packed(0, 0, 0, 0, 0, 0, 0),
        '!' => packed(4, 4, 4, 4, 4, 0, 4),
        '"' => packed(10, 10, 0, 0, 0, 0, 0),
        '#' => packed(10, 31, 10, 10, 31, 10, 10),
        '$' => packed(4, 15, 20, 14, 5, 30, 4),
        '%' => packed(25, 26, 4, 8, 19, 11, 0),
        '&' => packed(12, 18, 20, 8, 21, 18, 13),
        '\'' => packed(4, 4, 0, 0, 0, 0, 0),
        '(' => packed(2, 4, 8, 8, 8, 4, 2),
        ')' => packed(8, 4, 2, 2, 2, 4, 8),
        '*' => packed(0, 4, 21, 14, 21, 4, 0),
        '+' => packed(0, 4, 4, 31, 4, 4, 0),
        ',' => packed(0, 0, 0, 0, 0, 4, 8),
        '-' => packed(0, 0, 0, 31, 0, 0, 0),
        '.' => packed(0, 0, 0, 0, 0, 0, 4),
        '/' => packed(1, 2, 4, 8, 16, 0, 0),
        ':' => packed(0, 0, 4, 0, 0, 4, 0),
        ';' => packed(0, 0, 4, 0, 0, 4, 8),
        '<' => packed(2, 4, 8, 16, 8, 4, 2),
        '=' => packed(0, 0, 31, 0, 31, 0, 0),
        '>' => packed(8, 4, 2, 1, 2, 4, 8),
        '?' => packed(14, 17, 1, 2, 4, 0, 4),
        '@' => packed(14, 17, 23, 21, 23, 16, 14),
        '[' => packed(14, 8, 8, 8, 8, 8, 14),
        '\\' => packed(16, 8, 4, 2, 1, 0, 0),
        ']' => packed(14, 2, 2, 2, 2, 2, 14),
        '^' => packed(4, 10, 17, 0, 0, 0, 0),
        '_' => packed(0, 0, 0, 0, 0, 0, 31),
        '`' => packed(8, 4, 0, 0, 0, 0, 0),
        '{' => packed(2, 4, 4, 8, 4, 4, 2),
        '|' => packed(4, 4, 4, 4, 4, 4, 4),
        '}' => packed(8, 4, 4, 2, 4, 4, 8),
        '~' => packed(0, 0, 9, 18, 0, 0, 0),
        _ => packed(31, 17, 21, 21, 21, 17, 31),
    }
}

fn mark_glyph(c: char) -> (bits: u64)
    ensures
        bits == mark_bits(c),
{
    match c {
        ' ' => glyph(0, 0, 0, 0, 0, 0, 0),
        '!' => glyph(4, 4, 4, 4, 4, 0, 4),
        '"' => glyph(10, 10, 0, 0, 0, 0, 0),
        '#' => glyph(10, 31, 10, 10, 31, 10, 10),
        '$' => glyph(4, 15, 20, 14, 5, 30, 4),
        '%' => glyph(25, 26, 4, 8, 19, 11, 0),
        '&' => glyph(12, 18, 20, 8, 21, 18, 13),
        '\'' => glyph(4, 4, 0, 0, 0, 0, 0),
        '(' => glyph(2, 4, 8, 8, 8, 4, 2),
        ')' => glyph(8, 4, 2, 2, 2, 4, 8),
        '*' => glyph(0, 4, 21, 14, 21, 4, 0),
        '+' => glyph(0, 4, 4, 31, 4, 4, 0),
        ',' => glyph(0, 0, 0, 0, 0, 4, 8),
        '-' => glyph(0, 0, 0, 31, 0, 0, 0),
        '.' => glyph(0, 0, 0, 0, 0, 0, 4),
        '/' => glyph(1, 2, 4, 8, 16, 0, 0),
        ':' => glyph(0, 0, 4, 0, 0, 4, 0),
        ';' => glyph(0, 0, 4, 0, 0, 4, 8),
        '<' => glyph(2, 4, 8, 16, 8, 4, 2),
        '=' => glyph(0, 0, 31, 0, 31, 0, 0),
        '>' => glyph(8, 4, 2, 1, 2, 4, 8),
        '?' => glyph(14, 17, 1, 2, 4, 0, 4),
        '@' => glyph(14, 17, 23, 21, 23, 16, 14),
        '[' => glyph(14, 8, 8, 8, 8, 8, 14),
        '\\' => glyph(16, 8, 4, 2, 1, 0, 0),
        ']' => glyph(14, 2, 2, 2, 2, 2, 14),
        '^' => glyph(4, 10, 17, 0, 0, 0, 0),
        '_' => glyph(0, 0, 0, 0, 0, 0, 31),
        '`' => glyph(8, 4, 0, 0, 0, 0, 0),
        '{' => glyph(2, 4, 4, 8, 4, 4, 2),
        '|' => glyph(4, 4, 4, 4, 4, 4, 4),
        '}' => glyph(8, 4, 4, 2, 4, 4, 8),
        '~' => glyph(0, 0, 9, 18, 0, 0, 0),
        _ => glyph(31, 17, 21, 21, 21, 17, 31),
    }
}

/// The glyph of a character.  Every character has one: what is not known gets
/// a hollow box.
pub open spec fn bits_of(c: char) -> u64 {
    if 'A' <= c <= 'Z' {
        uppercase_bits(c)
    } else if 'a' <= c <= 'z' {
        lowercase_bits(c)
    } else if '0' <= c <= '9' {
        digit_bits(c)
    } else {
        mark_bits(c)
    }
}

/// A character with a glyph of its own.
pub open spec fn is_printable(c: char) -> bool {
    ' ' <= c <= '~'
}

/// The glyph of what is not known: a hollow box.
pub open spec fn fallback_bits() -> u64 {
    packed(31, 17, 21, 21, 21, 17, 31)
}

/// The character that a glyph is of.
spec fn character_of(bits: u64) -> char {
    match bits {
        0x4631fc62e => 'A',
        0x7a31f463e => 'B',
        0x3a308422e => 'C',
        0x7a318c63e => 'D',
        0x7e10f421f => 'E',
        0x4210f421f => 'F',
        0x3e31bc22e => 'G',
        0x4631fc631 => 'H',
        0x38842108e => 'I',
        0x324210847 => 'J',
        0x4654c5251 => 'K',
        0x7e1084210 => 'L',
        0x4631ad771 => 'M',
        0x46319d731 => 'N',
        0x3a318c62e => 'O',
        0x4210f463e => 'P',
        0x36558c62e => 'Q',
        0x4654f463e => 'R',
        0x78217420f => 'S',
        0x10842109f => 'T',
        0x3a318c631 => 'U',
        0x11518c631 => 'V',
        0x2ab5ac631 => 'W',
        0x462a22a31 => 'X',
        0x108422a31 => 'Y',
        0x7e082083f => 'Z',
        0x3e2f0b800 => 'a',
        0x7a318fa10 => 'b',
        0x3a3083800 => 'c',
        0x3e318bc21 => 'd',
        0x3a1f8b800 => 'e',
        0x2108e2126 => 'f',
        0x382f8bc00 => 'g',
        0x46318fa10 => 'h',
        0x388423004 => 'i',
        0x324211802 => 'j',
        0x4a98a4a10 => 'k',
        0x38842108c => 'l',
        0x4635ae800 => 'm',
        0x46318f800 => 'n',
        0x3a318b800 => 'o',
        0x421e8f800 => 'p',
        0x42f8bc00 => 'q',
        0x4210cd800 => 'r',
        0x782e83c00 => 's',
        0x192847108 => 't',
        0x36718c400 => 'u',
        0x11518c400 => 'v',
        0x2ab58c400 => 'w',
        0x454454400 => 'x',
        0x382f8c400 => 'y',
        0x7d0417c00 => 'z',
        0x3a39ace2e => '0',
        0x388421184 => '1',
        0x7d041062e => '2',
        0x78217043e => '3',
        0x85f928c2 => '4',
        0x7821f421f => '5',
        0x3a31f4106 => '6',
        0x21082083f => '7',
        0x3a317462e => '8',
        0x30417c62e => '9',
        0x0 => ' ',
        0x100421084 => '!',
        0x14a => '"',
        0x295f52bea => '#',
        0x13c5751e4 => '$',
        0x17341359 => '%',
        0x36554524c => '&',
        0x84 => '\'',
        0x88842082 => '(',
        0x208210888 => ')',
        0x9575480 => '*',
        0x84f9080 => '+',
        0x208000000 => ',',
        0xf8000 => '-',
        0x100000000 => '.',
        0x1041041 => '/',
        0x8001000 => ':',
        0x208001000 => ';',
        0x88882082 => '<',
        0x1f07c00 => '=',
        0x208208888 => '>',
        0x10041062e => '?',
        0x3a17ade2e => '@',
        0x39084210e => '[',
        0x111110 => '\\',
        0x38421084e => ']',
        0x4544 => '^',
        0x7c0000000 => '_',
        0x88 => '`',
        0x88441082 => '{',
        0x108421084 => '|',
        0x208411088 => '}',
        0x92400 => '~',
        _ => '\u{0}',
    }
}

proof fn letters_are_recognized(c: char)
    ensures
        'A' <= c <= 'Z' ==> character_of(bits_of(c)) == c,
        'a' <= c <= 'z' ==> character_of(bits_of(c)) == c,
{
}

proof fn digits_and_marks_are_recognized(c: char)
    requires
        is_printable(c),
        !('A' <= c <= 'Z'),
        !('a' <= c <= 'z'),
    ensures
        character_of(bits_of(c)) == c,
{
}

/// Every printable character has a glyph of its own, in either case.
pub proof fn printable_glyphs_differ(a: char, b: char)
    requires
        is_printable(a),
        is_printable(b),
        a != b,
    ensures
        bits_of(a) != bits_of(b),
{
    assert forall|c: char| is_printable(c) implies character_of(#[trigger] bits_of(c)) == c by {
        if 'A' <= c <= 'Z' || 'a' <= c <= 'z' {
            letters_are_recognized(c);
        } else {
            digits_and_marks_are_recognized(c);
        }
    }
}

/// Glyphs stay within their cells, only the space is blank, and exactly what is
/// not printable gets the hollow box.
pub proof fn glyphs_are_well_formed(c: char)
    ensures
        bits_of(c) < 0x8_0000_0000,
        bits_of(c) == 0 <==> c == ' ',
        bits_of(c) == fallback_bits() <==> !is_printable(c),
        fallback_bits() != 0,
{
}

/// The glyph of a character.
pub fn glyph_bits(character: char) -> (bits: u64)
    ensures
        bits == bits_of(character),
{
    if 'A' <= character && character <= 'Z' {
        uppercase_glyph(character)
    } else if 'a' <= character && character <= 'z' {
        lowercase_glyph(character)
    } else if '0' <= character && character <= '9' {
        digit_glyph(character)
    } else {
        mark_glyph(character)
    }
}

/// Ones among the lowest binary digits of a number.
pub open spec fn ones(bits: int, digits: nat) -> nat
    decreases digits,
{
    if digits == 0 {
        0
    } else {
        ((bits % 2) as nat) + ones(bits / 2, (digits - 1) as nat)
    }
}

/// The cells that a glyph fills.
pub fn glyph_cell_count(bits: u64) -> (count: usize)
    ensures
        count == ones(bits as int, GLYPH_CELLS as nat),
        count <= GLYPH_CELLS,
{
    let mut rest: u64 = bits;
    let mut digits: usize = GLYPH_CELLS;
    let mut count: usize = 0;
    while digits > 0
        invariant
            digits <= GLYPH_CELLS,
            count + digits <= GLYPH_CELLS,
            count + ones(rest as int, digits as nat) == ones(bits as int, GLYPH_CELLS as nat),
        decreases digits,
    {
        count = count + (rest % 2) as usize;
        rest = rest / 2;
        digits = digits - 1;
    }
    count
}

/// A cell of a row is filled; the highest digit is the leftmost cell.
pub open spec fn fills(row: int, column: int) -> bool {
    if column == 0 {
        (row / 16) % 2 == 1
    } else if column == 1 {
        (row / 8) % 2 == 1
    } else if column == 2 {
        (row / 4) % 2 == 1
    } else if column == 3 {
        (row / 2) % 2 == 1
    } else {
        row % 2 == 1
    }
}

/// The filled cells of a row up to a column, from the left.
pub open spec fn row_cells(bits: int, row: usize, columns: nat) -> Seq<(usize, usize)>
    decreases columns,
{
    if columns == 0 {
        Seq::empty()
    } else {
        let before = row_cells(bits, row, (columns - 1) as nat);
        if fills(bits, columns - 1) {
            before.push((row, (columns - 1) as usize))
        } else {
            before
        }
    }
}

/// The filled cells of a glyph from a row on, row by row.
pub open spec fn cells_from(bits: int, row: nat) -> Seq<(usize, usize)>
    decreases GLYPH_ROWS - row,
{
    if row >= GLYPH_ROWS {
        Seq::empty()
    } else {
        row_cells(bits % 32, row as usize, GLYPH_COLUMNS as nat) + cells_from(bits / 32, row + 1)
    }
}

fn is_filled(row: u64, column: usize) -> (filled: bool)
    ensures
        filled == fills(row as int, column as int),
{
    if column == 0 {
        (row / 16) % 2 == 1
    } else if column == 1 {
        (row / 8) % 2 == 1
    } else if column == 2 {
        (row / 4) % 2 == 1
    } else if column == 3 {
        (row / 2) % 2 == 1
    } else {
        row % 2 == 1
    }
}

/// The filled cells of a glyph, row by row from the top and each from the
/// left.
pub fn glyph_cells(bits: u64) -> (cells: Vec<(usize, usize)>)
    ensures
        cells@ == cells_from(bits as int, 0),
        cells@.len() == ones(bits as int, GLYPH_CELLS as nat),
{
    let mut cells: Vec<(usize, usize)> = Vec::new();
    let mut rest: u64 = bits;
    let mut row: usize = 0;
    assert(Seq::<(usize, usize)>::empty() + cells_from(bits as int, 0) =~= cells_from(
        bits as int,
        0,
    ));
    while row < GLYPH_ROWS
        invariant
            row <= GLYPH_ROWS,
            cells@ + cells_from(rest as int, row as nat) == cells_from(bits as int, 0),
        decreases GLYPH_ROWS - row,
    {
        let row_bits: u64 = rest % 32;
        let ghost before = cells@;
        let mut column: usize = 0;
        assert(before + row_cells(row_bits as int, row, 0) =~= before);
        while column < GLYPH_COLUMNS
            invariant
                column <= GLYPH_COLUMNS,
                cells@ == before + row_cells(row_bits as int, row, column as nat),
            decreases GLYPH_COLUMNS - column,
        {
            if is_filled(row_bits, column) {
                cells.push((row, column));
            }
            assert(cells@ =~= before + row_cells(row_bits as int, row, (column + 1) as nat));
            column = column + 1;
        }
        assert(before + (row_cells(row_bits as int, row, GLYPH_COLUMNS as nat) + cells_from(
            rest as int / 32,
            (row + 1) as nat,
        )) =~= cells@ + cells_from(rest as int / 32, (row + 1) as nat));
        rest = rest / 32;
        row = row + 1;
    }
    assert(cells@ + Seq::<(usize, usize)>::empty() =~= cells@);
    proof {
        cells_are_counted(bits as int, 0);
    }
    cells
}

proof fn row_is_counted(bits: int, row: usize)
    requires
        0 <= bits < 32,
    ensures
        row_cells(bits, row, GLYPH_COLUMNS as nat).len() == ones(bits, GLYPH_COLUMNS as nat),
{
    reveal_with_fuel(ones, 6);
    reveal_with_fuel(row_cells, 6);
}

proof fn ones_split(bits: int, digits: nat)
    requires
        bits >= 0,
    ensures
        ones(bits, 5 + digits) == ones(bits % 32, 5) + ones(bits / 32, digits),
{
    reveal_with_fuel(ones, 6);
    assert(bits / 2 / 2 / 2 / 2 / 2 == bits / 32);
    assert((bits % 32) % 2 == bits % 2);
    assert((bits % 32) / 2 % 2 == bits / 2 % 2);
    assert((bits % 32) / 2 / 2 % 2 == bits / 2 / 2 % 2);
    assert((bits % 32) / 2 / 2 / 2 % 2 == bits / 2 / 2 / 2 % 2);
    assert((bits % 32) / 2 / 2 / 2 / 2 % 2 == bits / 2 / 2 / 2 / 2 % 2);
}

proof fn cells_are_counted(bits: int, row: nat)
    requires
        row <= GLYPH_ROWS,
        bits >= 0,
    ensures
        cells_from(bits, row).len() == ones(bits, (GLYPH_CELLS - GLYPH_COLUMNS * row) as nat),
    decreases GLYPH_ROWS - row,
{
    if row < GLYPH_ROWS {
        row_is_counted(bits % 32, row as usize);
        cells_are_counted(bits / 32, row + 1);
        ones_split(bits, (GLYPH_CELLS - GLYPH_COLUMNS * (row + 1)) as nat);
    }
}

} // verus!
