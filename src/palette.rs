use vstd::prelude::*;
use vstd::string::*;

use crate::cell::CellState;

verus! {

/// Relies on `String::push`: the character is appended at the end.
pub assume_specification[ String::push ](s: &mut String, ch: char)
    ensures
        final(s)@ == old(s)@.push(ch),
;

/// A pixel's color, one byte per channel.
#[derive(Copy, Clone, Debug, PartialEq, Eq, Structural)]
pub struct Rgb {
    pub r: u8,
    pub g: u8,
    pub b: u8,
}

impl Rgb {
    /// The color as one number, `0xRRGGBB`.
    pub open spec fn packed(self) -> int {
        self.r * 0x10000 + self.g * 0x100 + self.b
    }
}

/// Color that an external helper paints on the cell it wants opened first.
pub const ASSIST_COLOR: u32 = 0x66DD66;

/// The game's palette: the cell state and value that each color stands for.
pub open spec fn palette(color: int) -> Option<(CellState, u8)> {
    if color == 0x4C545C {
        Some((CellState::Closed, 0u8))
    } else if color == 0xD8E0E8 {
        Some((CellState::Flagged, 0u8))
    } else if color == 0x7B7B7B {
        Some((CellState::Mine, 0u8))
    } else if color == 0x384048 {
        Some((CellState::Open, 0u8))
    } else if color == 0x7CC7FF {
        Some((CellState::Open, 1u8))
    } else if color == 0x66C266 {
        Some((CellState::Open, 2u8))
    } else if color == 0xFF7788 {
        Some((CellState::Open, 3u8))
    } else if color == 0xEE88FF {
        Some((CellState::Open, 4u8))
    } else if color == 0xDDAA22 {
        Some((CellState::Open, 5u8))
    } else if color == 0x66CCCC {
        Some((CellState::Open, 6u8))
    } else if color == 0x888888 {
        Some((CellState::Open, 7u8))
    } else if color == 0xD0D8E0 {
        Some((CellState::Open, 8u8))
    } else {
        None
    }
}

/// Looks `color` (as `0xRRGGBB`) up in the palette.
pub fn decode_color(color: u32) -> (r: Option<(CellState, u8)>)
    ensures
        r == palette(color as int),
{
    match color {
        0x4C545C => Some((CellState::Closed, 0)),
        0xD8E0E8 => Some((CellState::Flagged, 0)),
        0x7B7B7B => Some((CellState::Mine, 0)),
        0x384048 => Some((CellState::Open, 0)),
        0x7CC7FF => Some((CellState::Open, 1)),
        0x66C266 => Some((CellState::Open, 2)),
        0xFF7788 => Some((CellState::Open, 3)),
        0xEE88FF => Some((CellState::Open, 4)),
        0xDDAA22 => Some((CellState::Open, 5)),
        0x66CCCC => Some((CellState::Open, 6)),
        0x888888 => Some((CellState::Open, 7)),
        0xD0D8E0 => Some((CellState::Open, 8)),
        _ => None,
    }
}

/// The packed form of a pixel.
pub fn pack_rgb(p: Rgb) -> (c: u32)
    ensures
        c as int == p.packed(),
{
    (p.r as u32) * 0x10000 + (p.g as u32) * 0x100 + (p.b as u32)
}

/// Decodes a pixel sampled at a cell's center.
pub fn decode_pixel(p: Rgb) -> (r: Option<(CellState, u8)>)
    ensures
        r == palette(p.packed()),
{
    decode_color(pack_rgb(p))
}

/// Upper-case hexadecimal digit for `d < 16`.
pub open spec fn hex_char(d: int) -> char {
    if d < 10 {
        (('0' as int) + d) as char
    } else {
        (('A' as int) + d - 10) as char
    }
}

/// Value of an upper-case hexadecimal digit.
pub open spec fn hex_value(c: char) -> int {
    if '0' <= c <= '9' {
        c as int - '0' as int
    } else {
        c as int - 'A' as int + 10
    }
}

pub open spec fn is_upper_hex(c: char) -> bool {
    ('0' <= c <= '9') || ('A' <= c <= 'F')
}

/// Two upper-case hexadecimal digits of a byte.
pub open spec fn hex_byte(b: u8) -> Seq<char> {
    seq![hex_char(b as int / 16), hex_char(b as int % 16)]
}

/// Six upper-case hexadecimal digits, `RRGGBB`.
pub open spec fn hex_rgb(r: u8, g: u8, b: u8) -> Seq<char> {
    hex_byte(r) + hex_byte(g) + hex_byte(b)
}

/// Whether `s` is exactly six upper-case hexadecimal digits.
pub open spec fn is_hex6(s: Seq<char>) -> bool {
    s.len() == 6 && forall|i: int| 0 <= i < 6 ==> #[trigger] is_upper_hex(s[i])
}

/// The number written by six hexadecimal digits.
pub open spec fn hex6_value(s: Seq<char>) -> int {
    hex_value(s[0]) * 0x100000 + hex_value(s[1]) * 0x10000 + hex_value(s[2]) * 0x1000
        + hex_value(s[3]) * 0x100 + hex_value(s[4]) * 0x10 + hex_value(s[5])
}

/// What a six-digit color string stands for, if anything.
pub open spec fn hex_color_state(s: Seq<char>) -> Option<(CellState, u8)> {
    if is_hex6(s) {
        palette(hex6_value(s))
    } else {
        None
    }
}

fn hex_digit(d: u8) -> (c: char)
    requires
        d < 16,
    ensures
        c == hex_char(d as int),
{
    if d < 10 {
        ((48u8 + d) as char)
    } else {
        ((55u8 + d) as char)
    }
}

fn push_hex_byte(s: &mut String, b: u8)
    ensures
        final(s)@ == old(s)@ + hex_byte(b),
{
    s.push(hex_digit(b / 16));
    s.push(hex_digit(b % 16));
    assert(final(s)@ =~= old(s)@ + hex_byte(b));
}

/// The color as six upper-case hexadecimal digits, `RRGGBB`.
pub fn rgb_to_hex(r: u8, g: u8, b: u8) -> (s: String)
    ensures
        s@ == hex_rgb(r, g, b),
{
    let mut s = String::new();
    push_hex_byte(&mut s, r);
    push_hex_byte(&mut s, g);
    push_hex_byte(&mut s, b);
    assert(s@ =~= hex_rgb(r, g, b));
    s
}

fn upper_hex_value(c: char) -> (r: Option<u32>)
    ensures
        r == (if is_upper_hex(c) { Some(hex_value(c) as u32) } else { None::<u32> }),
        r is Some ==> r->0 < 16,
{
    if '0' <= c && c <= '9' {
        Some((c as u32) - ('0' as u32))
    } else if 'A' <= c && c <= 'F' {
        Some((c as u32) - ('A' as u32) + 10)
    } else {
        None
    }
}

/// Decodes a color written as six upper-case hexadecimal digits.
pub fn color_to_state(color: &str) -> (r: Option<(CellState, u8)>)
    ensures
        r == hex_color_state(color@),
{
    if color.unicode_len() != 6 {
        return None;
    }
    let mut value: u32 = 0;
    let mut i: usize = 0;
    while i < 6
        invariant
            color@.len() == 6,
            i <= 6,
            forall|j: int| 0 <= j < i ==> #[trigger] is_upper_hex(color@[j]),
            value as int == partial_hex(color@, i as int),
            value < hex_bound(i as int),
        decreases 6 - i,
    {
        match upper_hex_value(color.get_char(i)) {
            Some(d) => {
                assert(hex_bound(i + 1) == hex_bound(i as int) * 16);
                value = value * 16 + d;
            },
            None => {
                return None;
            },
        }
        i = i + 1;
    }
    assert(is_hex6(color@));
    assert(partial_hex(color@, 6) == hex6_value(color@)) by {
        reveal_with_fuel(partial_hex, 7);
    }
    decode_color(value)
}

/// Value of the first `n` hexadecimal digits of `s`.
pub open spec fn partial_hex(s: Seq<char>, n: int) -> int
    decreases n,
{
    if n <= 0 {
        0
    } else {
        partial_hex(s, n - 1) * 16 + hex_value(s[n - 1])
    }
}

/// `16` to the power `n`, for the digit counts of a color.
pub open spec fn hex_bound(n: int) -> int {
    if n <= 0 {
        1
    } else if n == 1 {
        0x10
    } else if n == 2 {
        0x100
    } else if n == 3 {
        0x1000
    } else if n == 4 {
        0x10000
    } else if n == 5 {
        0x100000
    } else {
        0x1000000
    }
}

/// The color a cell is drawn in on the terminal.
pub open spec fn display_color(state: CellState, value: Option<u8>) -> Seq<char> {
    match state {
        CellState::Closed => "DCDCDC"@,
        CellState::Flagged => "F75656"@,
        CellState::Mine => "FF3333"@,
        CellState::Open => {
            let v = match value {
                Some(v) => v,
                None => 0u8,
            };
            if v == 1 {
                "7CC7FF"@
            } else if v == 2 {
                "66C266"@
            } else if v == 3 {
                "FF7788"@
            } else if v == 4 {
                "EE88FF"@
            } else if v == 5 {
                "DDAA22"@
            } else if v == 6 {
                "66CCCC"@
            } else if v == 7 {
                "888888"@
            } else if v == 8 {
                "D0D8E0"@
            } else {
                "384048"@
            }
        },
    }
}

/// The color, as `RRGGBB`, that a cell is drawn in on the terminal; an open
/// cell without value is drawn as an open zero.
pub fn state_to_color(state: CellState, value: Option<u8>) -> (r: String)
    ensures
        r@ == display_color(state, value),
{
    let s = match state {
        CellState::Closed => "DCDCDC",
        CellState::Flagged => "F75656",
        CellState::Mine => "FF3333",
        CellState::Open => {
            let v = match value {
                Some(v) => v,
                None => 0,
            };
            match v {
                1 => "7CC7FF",
                2 => "66C266",
                3 => "FF7788",
                4 => "EE88FF",
                5 => "DDAA22",
                6 => "66CCCC",
                7 => "888888",
                8 => "D0D8E0",
                _ => "384048",
            }
        },
    };
    String::from_str(s)
}

/// Writing a pixel's color in hexadecimal and decoding that text gives what
/// decoding the pixel gives.
pub proof fn lemma_hex_decoding_agrees(p: Rgb)
    ensures
        hex_color_state(hex_rgb(p.r, p.g, p.b)) == palette(p.packed()),
{
    let s = hex_rgb(p.r, p.g, p.b);
    assert(s.len() == 6);
    assert forall|i: int| 0 <= i < 6 implies #[trigger] is_upper_hex(s[i]) by {}
    assert(hex6_value(s) == p.packed()) by {
        assert(hex_value(s[0]) == p.r / 16 && hex_value(s[1]) == p.r % 16);
        assert(hex_value(s[2]) == p.g / 16 && hex_value(s[3]) == p.g % 16);
        assert(hex_value(s[4]) == p.b / 16 && hex_value(s[5]) == p.b % 16);
    }
}

} // verus!
