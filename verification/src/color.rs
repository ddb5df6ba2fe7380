//! Colours in two models, red-green-blue and hue-saturation-value, with
//! their CSS notation.
use vstd::prelude::*;
use vstd::string::*;
use crate::number::{
    all_digits, decimal, is_digit, lemma_decimal_reads_back, number, push_decimal,
};
use crate::text::chars_of;

verus! {

/// A colour.
#[derive(Debug, Clone, Copy, PartialEq, Eq, Structural)]
pub enum Color {
    /// Red, green and blue, each from 0 to 255.
    RGB { red: u8, green: u8, blue: u8 },
    /// A hue in degrees, up to 360, with saturation and value in percent.
    HSV { hue: u16, saturation: u8, value: u8 },
}

/// The hexadecimal digit for `d`, in lower case.
pub open spec fn hex_digit(d: nat) -> char
    recommends
        d < 16,
{
    if d < 10 {
        (d + 48) as char
    } else {
        (d + 87) as char
    }
}

/// A byte as two hexadecimal digits.
pub open spec fn hex_pair(byte: u8) -> Seq<char> {
    seq![hex_digit(byte as nat / 16), hex_digit(byte as nat % 16)]
}

/// The value of a hexadecimal digit of either case, if `c` is one.
pub open spec fn hex_value(c: char) -> Option<nat> {
    if '0' <= c <= '9' {
        Some((c as u32 - 48) as nat)
    } else if 'a' <= c <= 'f' {
        Some((c as u32 - 87) as nat)
    } else if 'A' <= c <= 'F' {
        Some((c as u32 - 55) as nat)
    } else {
        None
    }
}

/// The byte that two hexadecimal digits write, if both are digits.
pub open spec fn byte_of(high: char, low: char) -> Option<u8> {
    match (hex_value(high), hex_value(low)) {
        (Some(h), Some(l)) => Some((h * 16 + l) as u8),
        _ => None,
    }
}

/// The first index at or after `i` that holds no decimal digit; `s.len()` if
/// there is none.
pub open spec fn digits_end(s: Seq<char>, i: int) -> int
    decreases s.len() - i,
{
    if 0 <= i < s.len() && is_digit(s[i]) {
        digits_end(s, i + 1)
    } else if 0 <= i < s.len() {
        i
    } else {
        s.len() as int
    }
}

/// The colour that `#rrggbb` writes.
pub open spec fn rgb_of(s: Seq<char>) -> Option<Color> {
    if s.len() == 7 && s[0] == '#' {
        match (byte_of(s[1], s[2]), byte_of(s[3], s[4]), byte_of(s[5], s[6])) {
            (Some(red), Some(green), Some(blue)) => Some(Color::RGB { red, green, blue }),
            _ => None,
        }
    } else {
        None
    }
}

/// The colour that `hsv(h,s%,v%)` writes, the three numbers in decimal.
pub open spec fn hsv_of(s: Seq<char>) -> Option<Color> {
    let a = digits_end(s, 4);
    let b = digits_end(s, a + 1);
    let c = digits_end(s, b + 2);
    let hue = number(s.subrange(4, a));
    let saturation = number(s.subrange(a + 1, b));
    let value = number(s.subrange(b + 2, c));
    if s.len() >= 12 && s.take(4) == seq!['h', 's', 'v', '('] && 4 < a && a + 1 < b && b + 2 < c
        && c + 2 == s.len() && s[a] == ',' && s[b] == '%' && s[b + 1] == ',' && s[c] == '%' && s[c
        + 1] == ')' && hue <= 360 && saturation <= 100 && value <= 100 {
        Some(Color::HSV { hue: hue as u16, saturation: saturation as u8, value: value as u8 })
    } else {
        None
    }
}

/// The colour that a text writes, if it writes one.
pub open spec fn color_of(s: Seq<char>) -> Option<Color> {
    if s.len() > 0 && s[0] == '#' {
        rgb_of(s)
    } else {
        hsv_of(s)
    }
}

impl Color {
    /// Whether the components are within their ranges.
    pub open spec fn valid(&self) -> bool {
        match self {
            Color::RGB { .. } => true,
            Color::HSV { hue, saturation, value } => *hue <= 360 && *saturation <= 100 && *value
                <= 100,
        }
    }

    /// The CSS notation of the colour: `#rrggbb` in lower-case hexadecimal,
    /// or `hsv(h,s%,v%)` in decimal.
    pub open spec fn text(&self) -> Seq<char> {
        match self {
            Color::RGB { red, green, blue } => seq!['#'] + hex_pair(*red) + hex_pair(*green)
                + hex_pair(*blue),
            Color::HSV { hue, saturation, value } => seq!['h', 's', 'v', '('] + decimal(
                *hue as nat,
            ) + seq![','] + decimal(*saturation as nat) + seq!['%', ','] + decimal(*value as nat)
                + seq!['%', ')'],
        }
    }

    /// The colour with each component taken from its maximum.
    pub open spec fn inverse(&self) -> Color {
        match self {
            Color::RGB { red, green, blue } => Color::RGB {
                red: (255 - *red) as u8,
                green: (255 - *green) as u8,
                blue: (255 - *blue) as u8,
            },
            Color::HSV { hue, saturation, value } => Color::HSV {
                hue: (360 - *hue) as u16,
                saturation: (100 - *saturation) as u8,
                value: (100 - *value) as u8,
            },
        }
    }

    /// A colour from its red, green and blue components.
    pub fn new_rgb(red: u8, green: u8, blue: u8) -> (color: Color)
        ensures
            color == (Color::RGB { red, green, blue }),
    {
        Color::RGB { red, green, blue }
    }

    /// A colour from its hue, saturation and value.
    pub fn new_hsv(hue: u16, saturation: u8, value: u8) -> (color: Color)
        requires
            hue <= 360,
            saturation <= 100,
            value <= 100,
        ensures
            color == (Color::HSV { hue, saturation, value }),
            color.valid(),
    {
        Color::HSV { hue, saturation, value }
    }

    /// The red, green and blue components of an `RGB` colour.
    pub fn unwrap_rgb(&self) -> (components: (u8, u8, u8))
        requires
            self is RGB,
        ensures
            *self == (Color::RGB {
                red: components.0,
                green: components.1,
                blue: components.2,
            }),
    {
        match self {
            Color::RGB { red, green, blue } => (*red, *green, *blue),
            Color::HSV { .. } => (0, 0, 0),
        }
    }

    /// The hue, saturation and value of an `HSV` colour.
    pub fn unwrap_hsv(&self) -> (components: (u16, u8, u8))
        requires
            self is HSV,
        ensures
            *self == (Color::HSV {
                hue: components.0,
                saturation: components.1,
                value: components.2,
            }),
    {
        match self {
            Color::RGB { .. } => (0, 0, 0),
            Color::HSV { hue, saturation, value } => (*hue, *saturation, *value),
        }
    }

    /// The CSS notation of the colour.
    pub fn to_string(&self) -> (out: String)
        ensures
            out@ == self.text(),
    {
        match self {
            Color::RGB { red, green, blue } => {
                let mut out = String::new();
                out.push('#');
                push_hex_pair(&mut out, *red);
                push_hex_pair(&mut out, *green);
                push_hex_pair(&mut out, *blue);
                assert(out@ =~= self.text());
                out
            },
            Color::HSV { hue, saturation, value } => {
                let mut out = String::new();
                out.push('h');
                out.push('s');
                out.push('v');
                out.push('(');
                push_decimal(&mut out, *hue as u32);
                out.push(',');
                push_decimal(&mut out, *saturation as u32);
                out.push('%');
                out.push(',');
                push_decimal(&mut out, *value as u32);
                out.push('%');
                out.push(')');
                assert(out@ =~= self.text());
                out
            },
        }
    }

    /// The colour with each component taken from its maximum.
    pub fn invert(&self) -> (inverted: Color)
        requires
            self.valid(),
        ensures
            inverted == self.inverse(),
            inverted.valid(),
    {
        match self {
            Color::RGB { red, green, blue } => Color::RGB {
                red: 255 - *red,
                green: 255 - *green,
                blue: 255 - *blue,
            },
            Color::HSV { hue, saturation, value } => Color::HSV {
                hue: 360 - *hue,
                saturation: 100 - *saturation,
                value: 100 - *value,
            },
        }
    }

    /// The colour that `input` writes, if it writes one: `#rrggbb` with
    /// hexadecimal digits of either case, or `hsv(h,s%,v%)` with decimal
    /// numbers within their ranges.
    pub fn parse(input: &str) -> (color: Option<Color>)
        ensures
            color == color_of(input@),
            color matches Some(c) ==> c.valid(),
    {
        let s = chars_of(input);
        if s.len() > 0 && s[0] == '#' {
            if s.len() != 7 {
                return None;
            }
            match (read_byte(s[1], s[2]), read_byte(s[3], s[4]), read_byte(s[5], s[6])) {
                (Some(red), Some(green), Some(blue)) => Some(Color::RGB { red, green, blue }),
                _ => None,
            }
        } else {
            if s.len() < 12 || s[0] != 'h' || s[1] != 's' || s[2] != 'v' || s[3] != '(' {
                assert(s@.len() >= 4 ==> s@.take(4)[0] == s@[0] && s@.take(4)[1] == s@[1]
                    && s@.take(4)[2] == s@[2] && s@.take(4)[3] == s@[3]);
                return None;
            }
            assert(s@.take(4) =~= seq!['h', 's', 'v', '(']);
            let (a, hue) = read_digits(&s, 4, 360);
            if a <= 4 || a >= s.len() - 1 || s[a] != ',' {
                return None;
            }
            let (b, saturation) = read_digits(&s, a + 1, 100);
            if b <= a + 1 || b >= s.len() - 2 || s[b] != '%' || s[b + 1] != ',' {
                return None;
            }
            let (c, value) = read_digits(&s, b + 2, 100);
            if c <= b + 2 || c != s.len() - 2 || s[c] != '%' || s[c + 1] != ')' {
                return None;
            }
            match (hue, saturation, value) {
                (Some(hue), Some(saturation), Some(value)) => Some(
                    Color::HSV { hue: hue as u16, saturation: saturation as u8, value: value as u8 },
                ),
                _ => None,
            }
        }
    }

    /// The colour that `input` writes.
    pub fn from_str(input: &str) -> (color: Color)
        requires
            color_of(input@) is Some,
        ensures
            Some(color) == color_of(input@),
            color.valid(),
    {
        match Color::parse(input) {
            Some(color) => color,
            None => Color::RGB { red: 0, green: 0, blue: 0 },
        }
    }
}

/// Appends a byte as two hexadecimal digits.
fn push_hex_pair(out: &mut String, byte: u8)
    ensures
        final(out)@ == old(out)@ + hex_pair(byte),
{
    out.push(hex_char(byte / 16));
    out.push(hex_char(byte % 16));
    assert(out@ =~= old(out)@ + hex_pair(byte));
}

/// The hexadecimal digit for `d`, in lower case.
fn hex_char(d: u8) -> (c: char)
    requires
        d < 16,
    ensures
        c == hex_digit(d as nat),
{
    if d < 10 {
        (d + 48) as char
    } else {
        (d + 87) as char
    }
}

/// The value of a hexadecimal digit.
fn read_hex(c: char) -> (value: Option<u8>)
    ensures
        match hex_value(c) {
            Some(v) => value == Some(v as u8) && v < 16,
            None => value is None,
        },
{
    if c >= '0' && c <= '9' {
        Some((c as u32 - 48) as u8)
    } else if c >= 'a' && c <= 'f' {
        Some((c as u32 - 87) as u8)
    } else if c >= 'A' && c <= 'F' {
        Some((c as u32 - 55) as u8)
    } else {
        None
    }
}

/// The byte that two hexadecimal digits write.
fn read_byte(high: char, low: char) -> (byte: Option<u8>)
    ensures
        byte == byte_of(high, low),
{
    match (read_hex(high), read_hex(low)) {
        (Some(h), Some(l)) => Some(h * 16 + l),
        _ => None,
    }
}

/// Reads the run of digits that starts at `from`: where it ends, and the
/// number it writes if that is no more than `max`.
fn read_digits(s: &Vec<char>, from: usize, max: u32) -> (r: (usize, Option<u32>))
    requires
        from <= s.len(),
        max <= 0x0fff_ffff,
    ensures
        r.0 == digits_end(s@, from as int),
        from <= r.0 <= s.len(),
        all_digits(s@.subrange(from as int, r.0 as int)),
        r.1 == if number(s@.subrange(from as int, r.0 as int)) <= max {
            Some(number(s@.subrange(from as int, r.0 as int)) as u32)
        } else {
            None
        },
{
    let mut i: usize = from;
    let mut acc: Option<u32> = Some(0);
    assert(s@.subrange(from as int, from as int) =~= Seq::<char>::empty());
    while i < s.len() && s[i] >= '0' && s[i] <= '9'
        invariant
            from <= i <= s.len(),
            max <= 0x0fff_ffff,
            digits_end(s@, from as int) == digits_end(s@, i as int),
            all_digits(s@.subrange(from as int, i as int)),
            acc == if number(s@.subrange(from as int, i as int)) <= max {
                Some(number(s@.subrange(from as int, i as int)) as u32)
            } else {
                None
            },
        decreases s.len() - i,
    {
        let ghost before = s@.subrange(from as int, i as int);
        let ghost after = s@.subrange(from as int, i + 1);
        assert(after.drop_last() =~= before);
        assert(after.last() == s@[i as int]);
        let v: u32 = s[i] as u32 - 48;
        acc = match acc {
            Some(n) => if n * 10 + v <= max {
                Some(n * 10 + v)
            } else {
                None
            },
            None => None,
        };
        i += 1;
    }
    (i, acc)
}

/// Inverting a colour twice gives the colour back.
pub proof fn lemma_invert_twice(color: Color)
    requires
        color.valid(),
    ensures
        color.inverse().valid(),
        color.inverse().inverse() == color,
{
}

/// A run of digits that ends at another character or at the end of the text
/// is where `digits_end` stops.
pub proof fn lemma_digits_end_of_run(s: Seq<char>, i: int, j: int)
    requires
        0 <= i <= j <= s.len(),
        forall|k: int| i <= k < j ==> is_digit(#[trigger] s[k]),
        j == s.len() || !is_digit(s[j]),
    ensures
        digits_end(s, i) == j,
    decreases j - i,
{
    if i < j {
        lemma_digits_end_of_run(s, i + 1, j);
    }
}

/// The two hexadecimal digits of a byte write that byte.
pub proof fn lemma_hex_pair_reads_back(byte: u8)
    ensures
        byte_of(hex_pair(byte)[0], hex_pair(byte)[1]) == Some(byte),
{
    let high = byte as nat / 16;
    let low = byte as nat % 16;
    assert(hex_value(hex_digit(high)) == Some(high));
    assert(hex_value(hex_digit(low)) == Some(low));
}

/// The notation of a colour reads back as that colour.
pub proof fn lemma_text_reads_back(color: Color)
    requires
        color.valid(),
    ensures
        color_of(color.text()) == Some(color),
{
    let s = color.text();
    match color {
        Color::RGB { red, green, blue } => {
            lemma_hex_pair_reads_back(red);
            lemma_hex_pair_reads_back(green);
            lemma_hex_pair_reads_back(blue);
            assert(s.len() == 7);
            assert(s[1] == hex_pair(red)[0] && s[2] == hex_pair(red)[1]);
            assert(s[3] == hex_pair(green)[0] && s[4] == hex_pair(green)[1]);
            assert(s[5] == hex_pair(blue)[0] && s[6] == hex_pair(blue)[1]);
        },
        Color::HSV { hue, saturation, value } => {
            let h = decimal(hue as nat);
            let t = decimal(saturation as nat);
            let v = decimal(value as nat);
            lemma_decimal_reads_back(hue as nat);
            lemma_decimal_reads_back(saturation as nat);
            lemma_decimal_reads_back(value as nat);
            let a: int = 4 + h.len() as int;
            let b: int = a + 1 + t.len() as int;
            let c: int = b + 2 + v.len() as int;
            assert(s.len() == c + 2);
            assert(s.take(4) =~= seq!['h', 's', 'v', '(']);
            assert(s[0] == 'h');
            assert forall|k: int| 4 <= k < a implies is_digit(#[trigger] s[k]) by {
                assert(s[k] == h[k - 4]);
            }
            assert forall|k: int| a + 1 <= k < b implies is_digit(#[trigger] s[k]) by {
                assert(s[k] == t[k - a - 1]);
            }
            assert forall|k: int| b + 2 <= k < c implies is_digit(#[trigger] s[k]) by {
                assert(s[k] == v[k - b - 2]);
            }
            assert(s[a] == ',' && s[b] == '%' && s[b + 1] == ',' && s[c]
                == '%' && s[c + 1] == ')');
            lemma_digits_end_of_run(s, 4, a);
            lemma_digits_end_of_run(s, a + 1, b);
            lemma_digits_end_of_run(s, b + 2, c);
            assert(s.subrange(4, a) =~= h);
            assert(s.subrange(a + 1, b) =~= t);
            assert(s.subrange(b + 2, c) =~= v);
        },
    }
}

} // verus!
