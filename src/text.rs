use vstd::prelude::*;
use vstd::string::*;

use crate::palette::hex_char;

verus! {

/// Characters that a file name should not hold.
pub open spec fn is_separator(c: char) -> bool {
    c == '|' || c == '\\' || c == ':' || c == '/'
}

/// `s` without its separator characters.
pub open spec fn strip_separators(s: Seq<char>) -> Seq<char>
    decreases s.len(),
{
    if s.len() == 0 {
        seq![]
    } else {
        let rest = strip_separators(s.drop_last());
        if is_separator(s.last()) {
            rest
        } else {
            rest.push(s.last())
        }
    }
}

/// The name with every `|`, `\`, `:` and `/` removed, fit to name a file.
pub fn normalized(filename: String) -> (r: String)
    ensures
        r@ == strip_separators(filename@),
{
    let s = filename.as_str();
    let n = s.unicode_len();
    let mut out = String::new();
    let mut i: usize = 0;
    while i < n
        invariant
            n == s@.len(),
            s@ == filename@,
            i <= n,
            out@ == strip_separators(s@.take(i as int)),
        decreases n - i,
    {
        let c = s.get_char(i);
        assert(s@.take(i + 1).drop_last() =~= s@.take(i as int));
        if !(c == '|' || c == '\\' || c == ':' || c == '/') {
            out.push(c);
        }
        i = i + 1;
    }
    assert(s@.take(n as int) =~= s@);
    out
}

/// Decimal digits of `n`.
pub open spec fn decimal(n: nat) -> Seq<char>
    decreases n,
{
    if n < 10 {
        seq![hex_char(n as int)]
    } else {
        decimal(n / 10).push(hex_char((n % 10) as int))
    }
}

pub(crate) fn digit(d: u8) -> (c: char)
    requires
        d < 10,
    ensures
        c == hex_char(d as int),
{
    (48u8 + d) as char
}

/// A hexadecimal digit in either case.
pub open spec fn is_hex_digit(c: char) -> bool {
    ('0' <= c <= '9') || ('a' <= c <= 'f') || ('A' <= c <= 'F')
}

pub open spec fn hex_digit_value(c: char) -> int {
    if '0' <= c <= '9' {
        c as int - '0' as int
    } else if 'a' <= c <= 'f' {
        c as int - 'a' as int + 10
    } else {
        c as int - 'A' as int + 10
    }
}

/// `s` without its leading `#` characters.
pub open spec fn trim_hashes(s: Seq<char>) -> Seq<char>
    decreases s.len(),
{
    if s.len() > 0 && s[0] == '#' {
        trim_hashes(s.drop_first())
    } else {
        s
    }
}

/// A color as `RRGGBB`, in either case, after any number of `#`; what
/// follows the six digits is not read.
pub open spec fn is_color_arg(color: Seq<char>) -> bool {
    let h = trim_hashes(color);
    h.len() >= 6 && forall|i: int| 0 <= i < 6 ==> #[trigger] is_hex_digit(h[i])
}

/// Channel `k` (red, green, blue) of such a color.
pub open spec fn channel(color: Seq<char>, k: int) -> nat {
    let h = trim_hashes(color);
    (hex_digit_value(h[2 * k]) * 16 + hex_digit_value(h[2 * k + 1])) as nat
}

/// `text` in a 24-bit color: `layer` is `38` for the text itself and `48`
/// for its background.
pub open spec fn painted(text: Seq<char>, color: Seq<char>, layer: Seq<char>) -> Seq<char> {
    "\x1b["@ + layer + ";2;"@ + decimal(channel(color, 0)) + ";"@ + decimal(channel(color, 1)) + ";"@
        + decimal(channel(color, 2)) + "m"@ + text + "\x1b[0m"@
}

proof fn lemma_trim_hashes(s: Seq<char>, i: int)
    requires
        0 <= i <= s.len(),
        forall|j: int| 0 <= j < i ==> s[j] == '#',
        i == s.len() || s[i] != '#',
    ensures
        trim_hashes(s) == s.subrange(i, s.len() as int),
    decreases i,
{
    if i > 0 {
        lemma_trim_hashes(s.drop_first(), i - 1);
        assert(s.drop_first().subrange(i - 1, s.len() - 1) =~= s.subrange(i, s.len() as int));
    } else {
        assert(s.subrange(0, s.len() as int) =~= s);
    }
}

fn hex_digit_of(c: char) -> (r: u8)
    requires
        is_hex_digit(c),
    ensures
        r as int == hex_digit_value(c),
        r < 16,
{
    if '0' <= c && c <= '9' {
        ((c as u32) - ('0' as u32)) as u8
    } else if 'a' <= c && c <= 'f' {
        ((c as u32) - ('a' as u32) + 10) as u8
    } else {
        ((c as u32) - ('A' as u32) + 10) as u8
    }
}

fn paint(text: &str, color: &str, layer: &str) -> (r: String)
    requires
        is_color_arg(color@),
    ensures
        r@ == painted(text@, color@, layer@),
{
    let n = color.unicode_len();
    let mut start: usize = 0;
    while start < n && color.get_char(start) == '#'
        invariant
            n == color@.len(),
            start <= n,
            forall|j: int| 0 <= j < start ==> color@[j] == '#',
        decreases n - start,
    {
        start = start + 1;
    }
    proof {
        lemma_trim_hashes(color@, start as int);
    }
    let ghost h = trim_hashes(color@);
    let mut channels: Vec<u8> = Vec::new();
    let mut k: usize = 0;
    while k < 3
        invariant
            h == trim_hashes(color@),
            h == color@.subrange(start as int, n as int),
            n == color@.len(),
            start + 6 <= n,
            is_color_arg(color@),
            k <= 3,
            channels@.len() == k,
            forall|j: int| 0 <= j < k ==> #[trigger] channels@[j] as nat == channel(color@, j),
        decreases 3 - k,
    {
        assert(is_hex_digit(h[2 * k as int]) && is_hex_digit(h[2 * k + 1]));
        let hi = hex_digit_of(color.get_char(start + 2 * k));
        let lo = hex_digit_of(color.get_char(start + 2 * k + 1));
        channels.push(hi * 16 + lo);
        k = k + 1;
    }
    let mut s = String::from_str("\x1b[");
    s.append(layer);
    s.append(";2;");
    s.append(decimal_string(channels[0] as u32).as_str());
    s.append(";");
    s.append(decimal_string(channels[1] as u32).as_str());
    s.append(";");
    s.append(decimal_string(channels[2] as u32).as_str());
    s.append("m");
    s.append(text);
    s.append("\x1b[0m");
    assert(s@ =~= painted(text@, color@, layer@));
    s
}

/// `text` in the given color (see `is_color_arg`), with ANSI escapes.
pub fn color_text(text: &str, color: &str) -> (r: String)
    requires
        is_color_arg(color@),
    ensures
        r@ == painted(text@, color@, "38"@),
{
    paint(text, color, "38")
}

/// `text` on a background of the given color (see `is_color_arg`), with
/// ANSI escapes.
pub fn color_background(text: &str, color: &str) -> (r: String)
    requires
        is_color_arg(color@),
    ensures
        r@ == painted(text@, color@, "48"@),
{
    paint(text, color, "48")
}

/// Decimal digits of `n`.
pub(crate) fn decimal_string(n: u32) -> (r: String)
    ensures
        r@ == decimal(n as nat),
    decreases n,
{
    if n < 10 {
        let mut s = String::new();
        s.push(digit(n as u8));
        assert(s@ =~= decimal(n as nat));
        s
    } else {
        let mut s = decimal_string(n / 10);
        s.push(digit((n % 10) as u8));
        s
    }
}

/// Decimal digits of `n`, with zeros in front up to three digits.
pub open spec fn zero_pad3(n: nat) -> Seq<char> {
    if n < 10 {
        "00"@ + decimal(n)
    } else if n < 100 {
        "0"@ + decimal(n)
    } else {
        decimal(n)
    }
}

/// Decimal digits of `n`, with zeros in front up to three digits.
pub(crate) fn zero_padded(n: u32) -> (r: String)
    ensures
        r@ == zero_pad3(n as nat),
{
    let digits = decimal_string(n);
    let mut s = if n < 10 {
        String::from_str("00")
    } else if n < 100 {
        String::from_str("0")
    } else {
        String::new()
    };
    s.append(digits.as_str());
    s
}

} // verus!
