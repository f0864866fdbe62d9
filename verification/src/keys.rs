//! The keys of a US keyboard, by their Linux input codes.

use vstd::prelude::*;

verus! {

/// A Linux input key code.
#[derive(Debug, Clone, Copy, PartialEq, Eq, Structural)]
pub struct KeyCode(pub u16);

pub const KEY_ESC: u16 = 1;

pub const KEY_MINUS: u16 = 12;

pub const KEY_EQUAL: u16 = 13;

pub const KEY_BACKSPACE: u16 = 14;

pub const KEY_TAB: u16 = 15;

pub const KEY_LEFTBRACE: u16 = 26;

pub const KEY_RIGHTBRACE: u16 = 27;

pub const KEY_ENTER: u16 = 28;

pub const KEY_LEFTCTRL: u16 = 29;

pub const KEY_A: u16 = 30;

pub const KEY_SEMICOLON: u16 = 39;

pub const KEY_APOSTROPHE: u16 = 40;

pub const KEY_GRAVE: u16 = 41;

pub const KEY_LEFTSHIFT: u16 = 42;

pub const KEY_BACKSLASH: u16 = 43;

pub const KEY_COMMA: u16 = 51;

pub const KEY_DOT: u16 = 52;

pub const KEY_SLASH: u16 = 53;

pub const KEY_RIGHTSHIFT: u16 = 54;

pub const KEY_LEFTALT: u16 = 56;

pub const KEY_SPACE: u16 = 57;

pub const KEY_RIGHTCTRL: u16 = 97;

pub const KEY_RIGHTALT: u16 = 100;

pub const KEY_LEFTMETA: u16 = 125;

pub const KEY_RIGHTMETA: u16 = 126;

/// The code of the key with a small letter on it, or of the key with a digit on it.
pub open spec fn glyph_code(c: char) -> u16 {
    match c {
        'a' => 30u16,
        'b' => 48u16,
        'c' => 46u16,
        'd' => 32u16,
        'e' => 18u16,
        'f' => 33u16,
        'g' => 34u16,
        'h' => 35u16,
        'i' => 23u16,
        'j' => 36u16,
        'k' => 37u16,
        'l' => 38u16,
        'm' => 50u16,
        'n' => 49u16,
        'o' => 24u16,
        'p' => 25u16,
        'q' => 16u16,
        'r' => 19u16,
        's' => 31u16,
        't' => 20u16,
        'u' => 22u16,
        'v' => 47u16,
        'w' => 17u16,
        'x' => 45u16,
        'y' => 21u16,
        'z' => 44u16,
        '0' => 11u16,
        '1' => 2u16,
        '2' => 3u16,
        '3' => 4u16,
        '4' => 5u16,
        '5' => 6u16,
        '6' => 7u16,
        '7' => 8u16,
        '8' => 9u16,
        '9' => 10u16,
        _ => 0u16,
    }
}

/// The key that types `c` on a US keyboard, and whether Shift is held for it.
pub open spec fn key_of(c: char) -> Option<(KeyCode, bool)> {
    if crate::text::ascii_lower(c) || crate::text::ascii_digit(c) {
        Some((KeyCode(glyph_code(c)), false))
    } else if crate::text::ascii_upper(c) {
        Some((KeyCode(glyph_code(crate::text::lowered(c))), true))
    } else {
        match c {
            ' ' => Some((KeyCode(KEY_SPACE), false)),
            '\n' => Some((KeyCode(KEY_ENTER), false)),
            '\t' => Some((KeyCode(KEY_TAB), false)),
            '!' => Some((KeyCode(2u16), true)),
            '@' => Some((KeyCode(3u16), true)),
            '#' => Some((KeyCode(4u16), true)),
            '$' => Some((KeyCode(5u16), true)),
            '%' => Some((KeyCode(6u16), true)),
            '^' => Some((KeyCode(7u16), true)),
            '&' => Some((KeyCode(8u16), true)),
            '*' => Some((KeyCode(9u16), true)),
            '(' => Some((KeyCode(10u16), true)),
            ')' => Some((KeyCode(11u16), true)),
            '-' => Some((KeyCode(KEY_MINUS), false)),
            '_' => Some((KeyCode(KEY_MINUS), true)),
            '=' => Some((KeyCode(KEY_EQUAL), false)),
            '+' => Some((KeyCode(KEY_EQUAL), true)),
            '[' => Some((KeyCode(KEY_LEFTBRACE), false)),
            '{' => Some((KeyCode(KEY_LEFTBRACE), true)),
            ']' => Some((KeyCode(KEY_RIGHTBRACE), false)),
            '}' => Some((KeyCode(KEY_RIGHTBRACE), true)),
            '\\' => Some((KeyCode(KEY_BACKSLASH), false)),
            '|' => Some((KeyCode(KEY_BACKSLASH), true)),
            ';' => Some((KeyCode(KEY_SEMICOLON), false)),
            ':' => Some((KeyCode(KEY_SEMICOLON), true)),
            '\'' => Some((KeyCode(KEY_APOSTROPHE), false)),
            '"' => Some((KeyCode(KEY_APOSTROPHE), true)),
            ',' => Some((KeyCode(KEY_COMMA), false)),
            '<' => Some((KeyCode(KEY_COMMA), true)),
            '.' => Some((KeyCode(KEY_DOT), false)),
            '>' => Some((KeyCode(KEY_DOT), true)),
            '/' => Some((KeyCode(KEY_SLASH), false)),
            '?' => Some((KeyCode(KEY_SLASH), true)),
            '`' => Some((KeyCode(KEY_GRAVE), false)),
            '~' => Some((KeyCode(KEY_GRAVE), true)),
            _ => None,
        }
    }
}

/// What a US keyboard writes when the key is pressed without Ctrl.
pub open spec fn written(key: KeyCode, shift: bool) -> Option<char> {
    match (key.0, shift) {
        (2u16, false) => Some('1'),
        (2u16, true) => Some('!'),
        (3u16, false) => Some('2'),
        (3u16, true) => Some('@'),
        (4u16, false) => Some('3'),
        (4u16, true) => Some('#'),
        (5u16, false) => Some('4'),
        (5u16, true) => Some('$'),
        (6u16, false) => Some('5'),
        (6u16, true) => Some('%'),
        (7u16, false) => Some('6'),
        (7u16, true) => Some('^'),
        (8u16, false) => Some('7'),
        (8u16, true) => Some('&'),
        (9u16, false) => Some('8'),
        (9u16, true) => Some('*'),
        (10u16, false) => Some('9'),
        (10u16, true) => Some('('),
        (11u16, false) => Some('0'),
        (11u16, true) => Some(')'),
        (12u16, false) => Some('-'),
        (12u16, true) => Some('_'),
        (13u16, false) => Some('='),
        (13u16, true) => Some('+'),
        (15u16, false) => Some('\t'),
        (16u16, false) => Some('q'),
        (16u16, true) => Some('Q'),
        (17u16, false) => Some('w'),
        (17u16, true) => Some('W'),
        (18u16, false) => Some('e'),
        (18u16, true) => Some('E'),
        (19u16, false) => Some('r'),
        (19u16, true) => Some('R'),
        (20u16, false) => Some('t'),
        (20u16, true) => Some('T'),
        (21u16, false) => Some('y'),
        (21u16, true) => Some('Y'),
        (22u16, false) => Some('u'),
        (22u16, true) => Some('U'),
        (23u16, false) => Some('i'),
        (23u16, true) => Some('I'),
        (24u16, false) => Some('o'),
        (24u16, true) => Some('O'),
        (25u16, false) => Some('p'),
        (25u16, true) => Some('P'),
        (26u16, false) => Some('['),
        (26u16, true) => Some('{'),
        (27u16, false) => Some(']'),
        (27u16, true) => Some('}'),
        (28u16, false) => Some('\n'),
        (30u16, false) => Some('a'),
        (30u16, true) => Some('A'),
        (31u16, false) => Some('s'),
        (31u16, true) => Some('S'),
        (32u16, false) => Some('d'),
        (32u16, true) => Some('D'),
        (33u16, false) => Some('f'),
        (33u16, true) => Some('F'),
        (34u16, false) => Some('g'),
        (34u16, true) => Some('G'),
        (35u16, false) => Some('h'),
        (35u16, true) => Some('H'),
        (36u16, false) => Some('j'),
        (36u16, true) => Some('J'),
        (37u16, false) => Some('k'),
        (37u16, true) => Some('K'),
        (38u16, false) => Some('l'),
        (38u16, true) => Some('L'),
        (39u16, false) => Some(';'),
        (39u16, true) => Some(':'),
        (40u16, false) => Some('\''),
        (40u16, true) => Some('"'),
        (41u16, false) => Some('`'),
        (41u16, true) => Some('~'),
        (43u16, false) => Some('\\'),
        (43u16, true) => Some('|'),
        (44u16, false) => Some('z'),
        (44u16, true) => Some('Z'),
        (45u16, false) => Some('x'),
        (45u16, true) => Some('X'),
        (46u16, false) => Some('c'),
        (46u16, true) => Some('C'),
        (47u16, false) => Some('v'),
        (47u16, true) => Some('V'),
        (48u16, false) => Some('b'),
        (48u16, true) => Some('B'),
        (49u16, false) => Some('n'),
        (49u16, true) => Some('N'),
        (50u16, false) => Some('m'),
        (50u16, true) => Some('M'),
        (51u16, false) => Some(','),
        (51u16, true) => Some('<'),
        (52u16, false) => Some('.'),
        (52u16, true) => Some('>'),
        (53u16, false) => Some('/'),
        (53u16, true) => Some('?'),
        (57u16, false) => Some(' '),
        _ => None,
    }
}

fn glyph(c: char) -> (r: u16)
    ensures
        r == glyph_code(c),
{
    match c {
        'a' => 30u16,
        'b' => 48u16,
        'c' => 46u16,
        'd' => 32u16,
        'e' => 18u16,
        'f' => 33u16,
        'g' => 34u16,
        'h' => 35u16,
        'i' => 23u16,
        'j' => 36u16,
        'k' => 37u16,
        'l' => 38u16,
        'm' => 50u16,
        'n' => 49u16,
        'o' => 24u16,
        'p' => 25u16,
        'q' => 16u16,
        'r' => 19u16,
        's' => 31u16,
        't' => 20u16,
        'u' => 22u16,
        'v' => 47u16,
        'w' => 17u16,
        'x' => 45u16,
        'y' => 21u16,
        'z' => 44u16,
        '0' => 11u16,
        '1' => 2u16,
        '2' => 3u16,
        '3' => 4u16,
        '4' => 5u16,
        '5' => 6u16,
        '6' => 7u16,
        '7' => 8u16,
        '8' => 9u16,
        '9' => 10u16,
        _ => 0u16,
    }
}

/// US-layout key and whether Shift is needed.
pub fn key_for(c: char) -> (r: Option<(KeyCode, bool)>)
    ensures
        r == key_of(c),
{
    match c {
        'a'..='z' | '0'..='9' => Some((KeyCode(glyph(c)), false)),
        'A'..='Z' => Some((KeyCode(glyph(crate::text::to_ascii_lower(c))), true)),
        ' ' => Some((KeyCode(KEY_SPACE), false)),
        '\n' => Some((KeyCode(KEY_ENTER), false)),
        '\t' => Some((KeyCode(KEY_TAB), false)),
        '!' => Some((KeyCode(2), true)),
        '@' => Some((KeyCode(3), true)),
        '#' => Some((KeyCode(4), true)),
        '$' => Some((KeyCode(5), true)),
        '%' => Some((KeyCode(6), true)),
        '^' => Some((KeyCode(7), true)),
        '&' => Some((KeyCode(8), true)),
        '*' => Some((KeyCode(9), true)),
        '(' => Some((KeyCode(10), true)),
        ')' => Some((KeyCode(11), true)),
        '-' => Some((KeyCode(KEY_MINUS), false)),
        '_' => Some((KeyCode(KEY_MINUS), true)),
        '=' => Some((KeyCode(KEY_EQUAL), false)),
        '+' => Some((KeyCode(KEY_EQUAL), true)),
        '[' => Some((KeyCode(KEY_LEFTBRACE), false)),
        '{' => Some((KeyCode(KEY_LEFTBRACE), true)),
        ']' => Some((KeyCode(KEY_RIGHTBRACE), false)),
        '}' => Some((KeyCode(KEY_RIGHTBRACE), true)),
        '\\' => Some((KeyCode(KEY_BACKSLASH), false)),
        '|' => Some((KeyCode(KEY_BACKSLASH), true)),
        ';' => Some((KeyCode(KEY_SEMICOLON), false)),
        ':' => Some((KeyCode(KEY_SEMICOLON), true)),
        '\'' => Some((KeyCode(KEY_APOSTROPHE), false)),
        '"' => Some((KeyCode(KEY_APOSTROPHE), true)),
        ',' => Some((KeyCode(KEY_COMMA), false)),
        '<' => Some((KeyCode(KEY_COMMA), true)),
        '.' => Some((KeyCode(KEY_DOT), false)),
        '>' => Some((KeyCode(KEY_DOT), true)),
        '/' => Some((KeyCode(KEY_SLASH), false)),
        '?' => Some((KeyCode(KEY_SLASH), true)),
        '`' => Some((KeyCode(KEY_GRAVE), false)),
        '~' => Some((KeyCode(KEY_GRAVE), true)),
        _ => None,
    }
}

/// A key that is pressed for a character writes that character, so no two characters share one.
pub proof fn law_keys_write_their_character(c: char)
    ensures
        key_of(c) matches Some((key, shift)) ==> written(key, shift) == Some(c),
{
}

/// Every printable ASCII character, the line break and the tab have a key; nothing else has.
pub proof fn law_ascii_has_keys(c: char)
    ensures
        key_of(c) is Some <==> (' ' <= c <= '~' || c == '\n' || c == '\t'),
{
}

/// The characters stand on consecutive keys from `first` on, written with or without Shift.
pub open spec fn is_row(chars: Seq<char>, first: u16, shift: bool) -> bool {
    forall|i: int|
        0 <= i < chars.len() ==> key_of(#[trigger] chars[i]) == Some(
            (KeyCode((first + i) as u16), shift),
        )
}

/// The keys are those of a US keyboard, row by row.
pub proof fn law_keys_stand_as_on_a_us_keyboard()
    ensures
        is_row("1234567890-="@, 2, false),
        is_row("!@#$%^&*()_+"@, 2, true),
        is_row("qwertyuiop[]"@, 16, false),
        is_row("QWERTYUIOP{}"@, 16, true),
        is_row("asdfghjkl;'`"@, 30, false),
        is_row("ASDFGHJKL:\"~"@, 30, true),
        is_row("\\zxcvbnm,./"@, 43, false),
        is_row("|ZXCVBNM<>?"@, 43, true),
        is_row("\t"@, 15, false),
        is_row("\n"@, 28, false),
        is_row(" "@, 57, false),
{
    reveal_strlit("1234567890-=");
    reveal_strlit("!@#$%^&*()_+");
    reveal_strlit("qwertyuiop[]");
    reveal_strlit("QWERTYUIOP{}");
    reveal_strlit("asdfghjkl;'`");
    reveal_strlit("ASDFGHJKL:\"~");
    reveal_strlit("\\zxcvbnm,./");
    reveal_strlit("|ZXCVBNM<>?");
    reveal_strlit("\t");
    reveal_strlit("\n");
    reveal_strlit(" ");
}

} // verus!
