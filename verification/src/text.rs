//! Text: bytes to strings, the text forms of numbers and byte strings, and
//! the escaping that XML asks for.
use vstd::prelude::*;
use vstd::string::StringExecFns;
use vstd::utf8::{decode_utf8, valid_utf8};

verus! {

/// The text that `String::from_utf8_lossy` makes of bytes that are not valid
/// UTF-8: every malformed part replaced by U+FFFD.
pub uninterp spec fn lossy_utf8(bytes: Seq<u8>) -> Seq<char>;

/// The text that a byte string stands for: its characters where it is valid
/// UTF-8, and the lossy reading where it is not.
pub open spec fn text_of(bytes: Seq<u8>) -> Seq<char> {
    if valid_utf8(bytes) {
        decode_utf8(bytes)
    } else {
        lossy_utf8(bytes)
    }
}

/// The bytes read as text.
///
/// Calls `String::from_utf8_lossy`. Believed of it: valid UTF-8 comes back as
/// the characters it encodes, and for anything else the result depends on the
/// bytes alone.
#[verifier::external_body]
pub(crate) fn bytes_to_text(bytes: &[u8]) -> (s: String)
    ensures
        valid_utf8(bytes@) ==> s@ == decode_utf8(bytes@),
        !valid_utf8(bytes@) ==> s@ == lossy_utf8(bytes@),
{
    String::from_utf8_lossy(bytes).into_owned()
}

/// `String::push` appends one character to the end of the string.
pub assume_specification[ std::string::String::push ](s: &mut std::string::String, c: char)
    ensures
        final(s)@ == old(s)@.push(c),
;

/// The characters of a string, one by one.
pub fn chars_of(s: &str) -> (chars: Vec<char>)
    ensures
        chars@ == s@,
{
    let mut chars: Vec<char> = Vec::new();
    for c in it: s.chars()
        invariant
            it.seq() == s@,
            chars@ == s@.take(it.index() as int),
    {
        chars.push(c);
    }
    chars
}

/// The character of the decimal or hexadecimal digit `d`, letters in lower case.
pub open spec fn digit_char(d: int) -> char {
    if d < 10 {
        (48 + d) as char
    } else {
        (87 + d) as char
    }
}

/// The character of a digit below sixteen.
fn digit(d: u8) -> (c: char)
    requires
        d < 16,
    ensures
        c == digit_char(d as int),
{
    if d < 10 {
        (48 + d) as char
    } else {
        (87 + d) as char
    }
}

/// The decimal digits of `n` without leading zeros: none for zero.
pub open spec fn digits(n: nat) -> Seq<char>
    decreases n,
{
    if n == 0 {
        Seq::empty()
    } else {
        digits(n / 10).push(digit_char((n % 10) as int))
    }
}

/// The decimal form of an integer: a minus sign where it is negative, then
/// its digits, `0` for zero.
pub open spec fn decimal(v: int) -> Seq<char> {
    if v < 0 {
        seq!['-'] + digits((-v) as nat)
    } else if v == 0 {
        seq!['0']
    } else {
        digits(v as nat)
    }
}

/// The `width` lowest hexadecimal digits of `v`, highest first.
pub open spec fn hex_digits(v: nat, width: nat) -> Seq<char>
    decreases width,
{
    if width == 0 {
        Seq::empty()
    } else {
        hex_digits(v / 16, (width - 1) as nat).push(digit_char((v % 16) as int))
    }
}

/// A bit pattern of `width` hexadecimal digits, written as `0x` and the digits.
pub open spec fn bits_text(v: nat, width: nat) -> Seq<char> {
    seq!['0', 'x'] + hex_digits(v, width)
}

/// The digits without the zeros at their end, but never without all of them.
pub open spec fn trimmed(digits: Seq<char>) -> Seq<char>
    decreases digits.len(),
{
    if digits.len() > 1 && digits.last() == '0' {
        trimmed(digits.drop_last())
    } else {
        digits
    }
}

/// The hexadecimal floating-point form of a binary floating-point number,
/// given by its sign, its biased exponent and its fraction as `width`
/// hexadecimal digits: `NaN`, `Infinity` or `-Infinity` where the exponent is
/// `top`; else a sign where negative, `0x1.` (or `0x0.` where the exponent
/// field is zero), the fraction without trailing zeros, `p`, and the binary
/// exponent in decimal. The value is written exactly.
pub open spec fn hex_float(
    negative: bool,
    exponent: int,
    fraction: nat,
    width: nat,
    bias: int,
    top: int,
) -> Seq<char> {
    if exponent == top {
        if fraction != 0 {
            "NaN"@
        } else if negative {
            "-Infinity"@
        } else {
            "Infinity"@
        }
    } else {
        (if negative {
            seq!['-']
        } else {
            Seq::empty()
        }) + (if exponent == 0 {
            "0x0."@
        } else {
            "0x1."@
        }) + trimmed(hex_digits(fraction, width)) + seq!['p'] + decimal(
            if exponent != 0 {
                exponent - bias
            } else if fraction != 0 {
                1 - bias
            } else {
                0
            },
        )
    }
}

/// The text of the IEEE-754 single with the bit pattern `bits`.
pub open spec fn single_text(bits: u32) -> Seq<char> {
    hex_float(
        bits >= 0x8000_0000,
        ((bits / 0x80_0000) % 0x100) as int,
        ((bits % 0x80_0000) * 2) as nat,
        6,
        127,
        255,
    )
}

/// The text of the IEEE-754 double with the bit pattern `bits`.
pub open spec fn double_text(bits: u64) -> Seq<char> {
    hex_float(
        bits >= 0x8000_0000_0000_0000,
        ((bits / 0x10_0000_0000_0000) % 0x800) as int,
        (bits % 0x10_0000_0000_0000) as nat,
        13,
        1023,
        2047,
    )
}

/// Two hexadecimal digits for each byte, in order.
pub open spec fn hex_text(bytes: Seq<u8>) -> Seq<char>
    decreases bytes.len(),
{
    if bytes.len() == 0 {
        Seq::empty()
    } else {
        hex_text(bytes.drop_last()) + hex_digits(bytes.last() as nat, 2)
    }
}

/// The strings of `items` with `separator` between each two.
pub open spec fn joined(items: Seq<Seq<char>>, separator: char) -> Seq<char>
    decreases items.len(),
{
    if items.len() == 0 {
        Seq::empty()
    } else if items.len() == 1 {
        items[0]
    } else {
        joined(items.drop_last(), separator).push(separator) + items.last()
    }
}

/// What stands for one character in XML text and attribute values: the five
/// characters of markup become entity references, every other stays.
pub open spec fn escaped_char(c: char) -> Seq<char> {
    if c == '&' {
        "&amp;"@
    } else if c == '<' {
        "&lt;"@
    } else if c == '>' {
        "&gt;"@
    } else if c == '"' {
        "&quot;"@
    } else if c == '\'' {
        "&apos;"@
    } else {
        seq![c]
    }
}

/// The text with each character escaped.
pub open spec fn escaped(text: Seq<char>) -> Seq<char>
    decreases text.len(),
{
    if text.len() == 0 {
        Seq::empty()
    } else {
        escaped(text.drop_last()) + escaped_char(text.last())
    }
}

/// Whether the end marker of a CDATA section, `]]>`, stands at the start of `text`.
pub open spec fn at_section_end(text: Seq<char>) -> bool {
    text.len() >= 3 && text[0] == ']' && text[1] == ']' && text[2] == '>'
}

/// The content of a CDATA section: as it is, but that each `]]>` in it is
/// split over two sections, so that the content never closes its own section.
pub open spec fn section_body(text: Seq<char>) -> Seq<char>
    decreases text.len(),
{
    if text.len() == 0 {
        Seq::empty()
    } else if at_section_end(text) {
        "]]]]><![CDATA[>"@ + section_body(text.skip(3))
    } else {
        seq![text[0]] + section_body(text.skip(1))
    }
}

fn push_digits(out: &mut String, n: u64)
    ensures
        final(out)@ == old(out)@ + digits(n as nat),
    decreases n,
{
    if n > 0 {
        push_digits(out, n / 10);
        out.push(digit((n % 10) as u8));
    }
}

/// Appends the decimal form of the unsigned `v`.
pub fn push_unsigned(out: &mut String, v: u64)
    ensures
        final(out)@ == old(out)@ + decimal(v as int),
{
    if v == 0 {
        out.push('0');
    } else {
        push_digits(out, v);
    }
}

/// Appends the decimal form of `v`.
pub fn push_decimal(out: &mut String, v: i64)
    ensures
        final(out)@ == old(out)@ + decimal(v as int),
{
    if v == 0 {
        out.push('0');
    } else if v > 0 {
        push_digits(out, v as u64);
    } else {
        out.push('-');
        let magnitude: u64 = if v == i64::MIN {
            0x8000_0000_0000_0000
        } else {
            (-v) as u64
        };
        push_digits(out, magnitude);
    }
}

/// The decimal form of `v`.
pub fn decimal_text(v: i64) -> (s: String)
    ensures
        s@ == decimal(v as int),
{
    let mut s = String::new();
    push_decimal(&mut s, v);
    s
}

fn push_hex_digits(out: &mut String, v: u64, width: u8)
    ensures
        final(out)@ == old(out)@ + hex_digits(v as nat, width as nat),
    decreases width,
{
    if width > 0 {
        push_hex_digits(out, v / 16, width - 1);
        out.push(digit((v % 16) as u8));
    }
}

/// Appends `0x` and the `width` lowest hexadecimal digits of `v`.
pub fn push_bits(out: &mut String, v: u64, width: u8)
    ensures
        final(out)@ == old(out)@ + bits_text(v as nat, width as nat),
{
    out.push('0');
    out.push('x');
    push_hex_digits(out, v, width);
}

proof fn lemma_hex_digits_len(v: nat, width: nat)
    ensures
        hex_digits(v, width).len() == width,
    decreases width,
{
    if width > 0 {
        lemma_hex_digits_len(v / 16, (width - 1) as nat);
    }
}

proof fn lemma_trimmed_step(v: nat, width: nat)
    requires
        width >= 1,
    ensures
        width > 1 && v % 16 == 0 ==> trimmed(hex_digits(v, width)) == trimmed(
            hex_digits(v / 16, (width - 1) as nat),
        ),
        width == 1 || v % 16 != 0 ==> trimmed(hex_digits(v, width)) == hex_digits(v, width),
{
    lemma_hex_digits_len(v, width);
    let shorter = hex_digits(v / 16, (width - 1) as nat);
    assert(shorter.push(digit_char((v % 16) as int)).drop_last() =~= shorter);
}

fn push_hex_float(
    out: &mut String,
    negative: bool,
    exponent: u32,
    fraction: u64,
    width: u8,
    bias: u32,
    top: u32,
)
    requires
        width >= 1,
        bias <= 0xffff,
        exponent <= 0xffff,
    ensures
        final(out)@ == old(out)@ + hex_float(
            negative,
            exponent as int,
            fraction as nat,
            width as nat,
            bias as int,
            top as int,
        ),
{
    if exponent == top {
        if fraction != 0 {
            out.append("NaN");
        } else if negative {
            out.append("-Infinity");
        } else {
            out.append("Infinity");
        }
        return ;
    }
    if negative {
        out.push('-');
    }
    if exponent == 0 {
        out.append("0x0.");
    } else {
        out.append("0x1.");
    }
    let ghost head = out@;
    let mut m: u64 = fraction;
    let mut w: u8 = width;
    while w > 1 && m % 16 == 0
        invariant
            1 <= w <= width,
            trimmed(hex_digits(m as nat, w as nat)) == trimmed(
                hex_digits(fraction as nat, width as nat),
            ),
            out@ == head,
        decreases w,
    {
        proof {
            lemma_trimmed_step(m as nat, w as nat);
        }
        m = m / 16;
        w = w - 1;
    }
    proof {
        lemma_trimmed_step(m as nat, w as nat);
    }
    push_hex_digits(out, m, w);
    out.push('p');
    let power: i64 = if exponent != 0 {
        exponent as i64 - bias as i64
    } else if fraction != 0 {
        1 - bias as i64
    } else {
        0
    };
    push_decimal(out, power);
}

/// Appends the text of the IEEE-754 single with the bit pattern `bits`.
pub fn push_single(out: &mut String, bits: u32)
    ensures
        final(out)@ == old(out)@ + single_text(bits),
{
    push_hex_float(
        out,
        bits >= 0x8000_0000,
        (bits / 0x80_0000) % 0x100,
        ((bits % 0x80_0000) as u64) * 2,
        6,
        127,
        255,
    );
}

/// Appends the text of the IEEE-754 double with the bit pattern `bits`.
pub fn push_double(out: &mut String, bits: u64)
    ensures
        final(out)@ == old(out)@ + double_text(bits),
{
    push_hex_float(
        out,
        bits >= 0x8000_0000_0000_0000,
        ((bits / 0x10_0000_0000_0000) % 0x800) as u32,
        bits % 0x10_0000_0000_0000,
        13,
        1023,
        2047,
    );
}

/// Appends two hexadecimal digits for each byte.
pub fn push_hex(out: &mut String, bytes: &[u8])
    ensures
        final(out)@ == old(out)@ + hex_text(bytes@),
{
    let mut i: usize = 0;
    while i < bytes.len()
        invariant
            i <= bytes.len(),
            out@ == old(out)@ + hex_text(bytes@.take(i as int)),
        decreases bytes.len() - i,
    {
        push_hex_digits(out, bytes[i] as u64, 2);
        assert(bytes@.take(i + 1).drop_last() =~= bytes@.take(i as int));
        i = i + 1;
    }
    assert(bytes@.take(bytes.len() as int) =~= bytes@);
}

/// Appends the strings of `items` with `separator` between each two.
pub fn push_joined(out: &mut String, items: &Vec<String>, separator: char)
    ensures
        final(out)@ == old(out)@ + joined(items.deep_view(), separator),
{
    let ghost all = items.deep_view();
    let mut i: usize = 0;
    while i < items.len()
        invariant
            i <= items.len(),
            all == items.deep_view(),
            all.len() == items.len(),
            out@ == old(out)@ + joined(all.take(i as int), separator),
        decreases items.len() - i,
    {
        if i > 0 {
            out.push(separator);
        }
        out.append(items[i].as_str());
        assert(all.take(i + 1).drop_last() =~= all.take(i as int));
        i = i + 1;
    }
    assert(all.take(items.len() as int) =~= all);
}

/// Appends what stands for the character `c` in XML text.
pub fn push_escaped_char(out: &mut String, c: char)
    ensures
        final(out)@ == old(out)@ + escaped_char(c),
{
    if c == '&' {
        out.append("&amp;");
    } else if c == '<' {
        out.append("&lt;");
    } else if c == '>' {
        out.append("&gt;");
    } else if c == '"' {
        out.append("&quot;");
    } else if c == '\'' {
        out.append("&apos;");
    } else {
        out.push(c);
    }
}

/// Appends `text` with each character escaped.
pub fn push_escaped(out: &mut String, text: &str)
    ensures
        final(out)@ == old(out)@ + escaped(text@),
{
    let chars = chars_of(text);
    let mut i: usize = 0;
    while i < chars.len()
        invariant
            i <= chars.len(),
            chars@ == text@,
            out@ == old(out)@ + escaped(chars@.take(i as int)),
        decreases chars.len() - i,
    {
        push_escaped_char(out, chars[i]);
        assert(chars@.take(i + 1).drop_last() =~= chars@.take(i as int));
        i = i + 1;
    }
    assert(chars@.take(chars.len() as int) =~= chars@);
}

/// The text with each character escaped.
pub fn escape(text: &str) -> (s: String)
    ensures
        s@ == escaped(text@),
{
    let mut s = String::new();
    push_escaped(&mut s, text);
    s
}

/// Appends the content of a CDATA section, each `]]>` in it split.
pub fn push_section_body(out: &mut String, text: &str)
    ensures
        final(out)@ == old(out)@ + section_body(text@),
{
    let chars = chars_of(text);
    let n = chars.len();
    let mut i: usize = 0;
    assert(chars@.skip(0) =~= chars@);
    while i < n
        invariant
            i <= n,
            n == chars.len(),
            chars@ == text@,
            out@ + section_body(chars@.skip(i as int)) == old(out)@ + section_body(text@),
        decreases n - i,
    {
        let ghost rest = chars@.skip(i as int);
        if n - i >= 3 && chars[i] == ']' && chars[i + 1] == ']' && chars[i + 2] == '>' {
            out.append("]]]]><![CDATA[>");
            assert(rest.skip(3) =~= chars@.skip(i + 3));
            i = i + 3;
        } else {
            out.push(chars[i]);
            assert(rest.skip(1) =~= chars@.skip(i + 1));
            i = i + 1;
        }
    }
}

} // verus!
