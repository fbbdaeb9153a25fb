//! RGBA colors with one byte per channel, and their hexadecimal
//! string form `#RRGGBB` / `#RRGGBBAA`.

use vstd::prelude::*;
use vstd::string::StrSliceExecFns;
use vstd::string::StringExecFns;

verus! {

/// A color in RGBA format.
#[derive(Debug, Clone, Copy, PartialEq, Eq, Structural)]
pub struct Color {
    /// Red component (0-255)
    pub r: u8,
    /// Green component (0-255)
    pub g: u8,
    /// Blue component (0-255)
    pub b: u8,
    /// Alpha component (0-255)
    pub a: u8,
}

/// True for the characters `0`-`9`, `a`-`f` and `A`-`F`.
pub open spec fn is_hex_digit(c: char) -> bool {
    ('0' <= c && c <= '9') || ('a' <= c && c <= 'f') || ('A' <= c && c <= 'F')
}

/// The numeric value of a hexadecimal digit character.
pub open spec fn hex_val(c: char) -> int {
    if '0' <= c && c <= '9' {
        c as int - '0' as int
    } else if 'a' <= c && c <= 'f' {
        10 + c as int - 'a' as int
    } else {
        10 + c as int - 'A' as int
    }
}

/// The body of a hex color string: the characters after one optional
/// leading `#`.
pub open spec fn hex_body(s: Seq<char>) -> Seq<char> {
    if s.len() >= 1 && s[0] == '#' {
        s.skip(1)
    } else {
        s
    }
}

/// Whether a string (with one optional leading `#`) is a well-formed
/// `RRGGBB` or `RRGGBBAA` hex color.
pub open spec fn is_valid_hex(s: Seq<char>) -> bool {
    let b = hex_body(s);
    (b.len() == 6 || b.len() == 8) && (forall|i: int| 0 <= i < b.len() ==> is_hex_digit(#[trigger] b[i]))
}

/// The byte encoded by the two hex digits at positions `i` and `i + 1`.
pub open spec fn hex_byte(b: Seq<char>, i: int) -> u8 {
    (hex_val(b[i]) * 16 + hex_val(b[i + 1])) as u8
}

/// The color denoted by a well-formed hex color string.
pub open spec fn hex_color(s: Seq<char>) -> Color {
    let b = hex_body(s);
    Color {
        r: hex_byte(b, 0),
        g: hex_byte(b, 2),
        b: hex_byte(b, 4),
        a: if b.len() == 8 {
            hex_byte(b, 6)
        } else {
            255
        },
    }
}

/// The uppercase hexadecimal digit character for a value below 16.
pub open spec fn hex_char_of(d: u8) -> char {
    if d == 0 {
        '0'
    } else if d == 1 {
        '1'
    } else if d == 2 {
        '2'
    } else if d == 3 {
        '3'
    } else if d == 4 {
        '4'
    } else if d == 5 {
        '5'
    } else if d == 6 {
        '6'
    } else if d == 7 {
        '7'
    } else if d == 8 {
        '8'
    } else if d == 9 {
        '9'
    } else if d == 10 {
        'A'
    } else if d == 11 {
        'B'
    } else if d == 12 {
        'C'
    } else if d == 13 {
        'D'
    } else if d == 14 {
        'E'
    } else {
        'F'
    }
}

/// The two uppercase hex digits of a byte.
pub open spec fn byte_hex(v: u8) -> Seq<char> {
    seq![hex_char_of(v / 16), hex_char_of(v % 16)]
}

/// The hex string form of a color, with or without the alpha channel.
pub open spec fn spec_to_hex(c: Color, include_alpha: bool) -> Seq<char> {
    seq!['#'] + byte_hex(c.r) + byte_hex(c.g) + byte_hex(c.b) + if include_alpha {
        byte_hex(c.a)
    } else {
        Seq::empty()
    }
}

/// The numeric value of one hex digit character, if it is one.
fn hex_digit(c: char) -> (r: Option<u8>)
    ensures
        r is Some <==> is_hex_digit(c),
        is_hex_digit(c) ==> r == Some((hex_val(c) as u8)) && hex_val(c) < 16,
{
    let n = c as u32;
    if n >= 48 && n <= 57 {
        Some((n - 48) as u8)
    } else if n >= 97 && n <= 102 {
        Some((n - 87) as u8)
    } else if n >= 65 && n <= 70 {
        Some((n - 55) as u8)
    } else {
        None
    }
}

/// Appends the uppercase hex digit for a value below 16 to a string.
fn push_hex_digit(s: &mut String, d: u8)
    requires
        d < 16,
    ensures
        final(s)@ == old(s)@.push(hex_char_of(d)),
{
    proof {
        reveal_strlit("0");
        reveal_strlit("1");
        reveal_strlit("2");
        reveal_strlit("3");
        reveal_strlit("4");
        reveal_strlit("5");
        reveal_strlit("6");
        reveal_strlit("7");
        reveal_strlit("8");
        reveal_strlit("9");
        reveal_strlit("A");
        reveal_strlit("B");
        reveal_strlit("C");
        reveal_strlit("D");
        reveal_strlit("E");
        reveal_strlit("F");
    }
    if d == 0 {
        s.append("0");
    } else if d == 1 {
        s.append("1");
    } else if d == 2 {
        s.append("2");
    } else if d == 3 {
        s.append("3");
    } else if d == 4 {
        s.append("4");
    } else if d == 5 {
        s.append("5");
    } else if d == 6 {
        s.append("6");
    } else if d == 7 {
        s.append("7");
    } else if d == 8 {
        s.append("8");
    } else if d == 9 {
        s.append("9");
    } else if d == 10 {
        s.append("A");
    } else if d == 11 {
        s.append("B");
    } else if d == 12 {
        s.append("C");
    } else if d == 13 {
        s.append("D");
    } else if d == 14 {
        s.append("E");
    } else {
        s.append("F");
    }
    proof {
        assert(final(s)@ =~= old(s)@.push(hex_char_of(d)));
    }
}

impl Color {
    /// Create a new Color with RGBA values.
    pub fn new(r: u8, g: u8, b: u8, a: u8) -> (c: Self)
        ensures
            c == (Color { r, g, b, a }),
    {
        Color { r, g, b, a }
    }

    /// Create a new Color with RGB values and full opacity.
    pub fn rgb(r: u8, g: u8, b: u8) -> (c: Self)
        ensures
            c == (Color { r, g, b, a: 255u8 }),
    {
        Color { r, g, b, a: 255 }
    }

    /// Create a black color.
    pub fn black() -> (c: Self)
        ensures
            c == (Color { r: 0u8, g: 0u8, b: 0u8, a: 255u8 }),
    {
        Color::rgb(0, 0, 0)
    }

    /// Create a white color.
    pub fn white() -> (c: Self)
        ensures
            c == (Color { r: 255u8, g: 255u8, b: 255u8, a: 255u8 }),
    {
        Color::rgb(255, 255, 255)
    }

    /// Create a red color.
    pub fn red() -> (c: Self)
        ensures
            c == (Color { r: 255u8, g: 0u8, b: 0u8, a: 255u8 }),
    {
        Color::rgb(255, 0, 0)
    }

    /// Create a green color.
    pub fn green() -> (c: Self)
        ensures
            c == (Color { r: 0u8, g: 255u8, b: 0u8, a: 255u8 }),
    {
        Color::rgb(0, 255, 0)
    }

    /// Create a blue color.
    pub fn blue() -> (c: Self)
        ensures
            c == (Color { r: 0u8, g: 0u8, b: 255u8, a: 255u8 }),
    {
        Color::rgb(0, 0, 255)
    }

    /// Create a yellow color.
    pub fn yellow() -> (c: Self)
        ensures
            c == (Color { r: 255u8, g: 255u8, b: 0u8, a: 255u8 }),
    {
        Color::rgb(255, 255, 0)
    }

    /// Create a cyan color.
    pub fn cyan() -> (c: Self)
        ensures
            c == (Color { r: 0u8, g: 255u8, b: 255u8, a: 255u8 }),
    {
        Color::rgb(0, 255, 255)
    }

    /// Create a magenta color.
    pub fn magenta() -> (c: Self)
        ensures
            c == (Color { r: 255u8, g: 0u8, b: 255u8, a: 255u8 }),
    {
        Color::rgb(255, 0, 255)
    }

    /// Create a transparent color.
    pub fn transparent() -> (c: Self)
        ensures
            c == (Color { r: 0u8, g: 0u8, b: 0u8, a: 0u8 }),
    {
        Color { r: 0, g: 0, b: 0, a: 0 }
    }

    /// Create a color from a hexadecimal string in the format
    /// `RRGGBB` or `RRGGBBAA`, with one optional leading `#`.
    ///
    /// Returns `None` exactly when the string is not of that shape;
    /// a six-digit string gets full opacity.
    pub fn from_hex(hex: &str) -> (c: Option<Self>)
        ensures
            c == if is_valid_hex(hex@) {
                Some(hex_color(hex@))
            } else {
                None::<Color>
            },
    {
        let len = hex.unicode_len();
        let start: usize = if len >= 1 && hex.get_char(0) == '#' {
            1
        } else {
            0
        };
        let blen = len - start;
        proof {
            assert(hex_body(hex@) =~= hex@.skip(start as int));
        }
        if blen != 6 && blen != 8 {
            return None;
        }
        let mut vals: Vec<u8> = Vec::new();
        let mut i: usize = 0;
        while i < blen
            invariant
                0 <= i <= blen,
                start + blen <= usize::MAX,
                start + blen == hex@.len(),
                hex_body(hex@) == hex@.skip(start as int),
                vals@.len() == i,
                forall|j: int| 0 <= j < i ==> is_hex_digit(#[trigger] hex_body(hex@)[j]),
                forall|j: int|
                    0 <= j < i ==> #[trigger] vals@[j] == hex_val(hex_body(hex@)[j]) && vals@[j] < 16,
            decreases blen - i,
        {
            let ch = hex.get_char(start + i);
            assert(ch == hex_body(hex@)[i as int]);
            match hex_digit(ch) {
                Some(v) => {
                    vals.push(v);
                },
                None => {
                    assert(!is_valid_hex(hex@));
                    return None;
                },
            }
            i += 1;
        }
        assert(is_valid_hex(hex@));
        let r = vals[0] * 16 + vals[1];
        let g = vals[2] * 16 + vals[3];
        let b = vals[4] * 16 + vals[5];
        let a = if blen == 8 {
            vals[6] * 16 + vals[7]
        } else {
            255
        };
        Some(Color { r, g, b, a })
    }

    /// Convert the color to its hexadecimal string form, `#RRGGBB`
    /// or, when `include_alpha` is set, `#RRGGBBAA`.
    pub fn to_hex(&self, include_alpha: bool) -> (s: String)
        ensures
            s@ == spec_to_hex(*self, include_alpha),
    {
        let mut s = String::new();
        proof {
            reveal_strlit("#");
        }
        s.append("#");
        push_hex_digit(&mut s, self.r / 16);
        push_hex_digit(&mut s, self.r % 16);
        push_hex_digit(&mut s, self.g / 16);
        push_hex_digit(&mut s, self.g % 16);
        push_hex_digit(&mut s, self.b / 16);
        push_hex_digit(&mut s, self.b % 16);
        if include_alpha {
            push_hex_digit(&mut s, self.a / 16);
            push_hex_digit(&mut s, self.a % 16);
        }
        proof {
            assert(s@ =~= spec_to_hex(*self, include_alpha));
        }
        s
    }
}

} // verus!
