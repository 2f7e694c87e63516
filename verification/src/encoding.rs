//! Percent-encoding and its reverse, and hexadecimal notation.

use vstd::prelude::*;
use vstd::string::*;
use vstd::utf8::*;

verus! {

broadcast use vstd::string::group_string_axioms;

// ---- percent-encoding ----

/// The bytes that a form body carries as they are: letters, digits, `-`, `_`, `.` and `~`.
pub open spec fn is_unreserved(b: u8) -> bool {
    ||| 0x41 <= b <= 0x5a
    ||| 0x61 <= b <= 0x7a
    ||| 0x30 <= b <= 0x39
    ||| b == 0x2d
    ||| b == 0x5f
    ||| b == 0x2e
    ||| b == 0x7e
}

/// The upper-case hexadecimal digit of value `d`.
pub open spec fn hex_upper(d: nat) -> char
    recommends
        d < 16,
{
    if d < 10 {
        ('0' as u32 + d) as char
    } else {
        ('A' as u32 + d - 10) as char
    }
}

/// How one byte is written: as it is, or as `%` and two upper-case hexadecimal digits.
pub open spec fn escaped(b: u8) -> Seq<char> {
    if is_unreserved(b) {
        seq![b as char]
    } else {
        seq!['%', hex_upper((b / 16) as nat), hex_upper((b % 16) as nat)]
    }
}

/// The percent-encoding of `bytes`.
pub open spec fn url_encoded(bytes: Seq<u8>) -> Seq<char>
    decreases bytes.len(),
{
    if bytes.len() == 0 {
        seq![]
    } else {
        escaped(bytes[0]) + url_encoded(bytes.skip(1))
    }
}

fn hex_upper_digit(d: u8) -> (c: char)
    requires
        d < 16,
    ensures
        c == hex_upper(d as nat),
{
    if d < 10 {
        (48u8 + d) as char
    } else {
        (55u8 + d) as char
    }
}

/// Percent-encodes the UTF-8 bytes of `text`.
pub fn urlencoding(text: &str) -> (result: String)
    ensures
        result@ == url_encoded(encode_utf8(text@)),
{
    let bytes: Vec<u8> = text.as_bytes_vec();
    let mut result = String::new();
    let mut i: usize = 0;
    assert(bytes@.skip(0) =~= bytes@);
    while i < bytes.len()
        invariant
            i <= bytes.len(),
            url_encoded(bytes@) == result@ + url_encoded(bytes@.skip(i as int)),
        decreases bytes.len() - i,
    {
        let b: u8 = bytes[i];
        let ghost before = result@;
        let ghost rest = bytes@.skip(i as int);
        if (0x41 <= b && b <= 0x5a) || (0x61 <= b && b <= 0x7a) || (0x30 <= b && b <= 0x39) || b
            == 0x2d || b == 0x5f || b == 0x2e || b == 0x7e {
            result.push(b as char);
        } else {
            result.push('%');
            result.push(hex_upper_digit(b / 16));
            result.push(hex_upper_digit(b % 16));
        }
        assert(result@ =~= before + escaped(b));
        i = i + 1;
        assert(rest.skip(1) =~= bytes@.skip(i as int));
        assert(before + (escaped(b) + url_encoded(bytes@.skip(i as int))) =~= result@ + url_encoded(
            bytes@.skip(i as int),
        ));
    }
    assert(result@ + url_encoded(bytes@.skip(i as int)) =~= result@);
    result
}

// ---- percent-decoding ----

/// The value of a hexadecimal digit of either case.
pub open spec fn hex_value(b: u8) -> Option<u8> {
    if 0x30 <= b <= 0x39 {
        Some((b - 0x30) as u8)
    } else if 0x41 <= b <= 0x46 {
        Some((b - 0x41 + 10) as u8)
    } else if 0x61 <= b <= 0x66 {
        Some((b - 0x61 + 10) as u8)
    } else {
        None
    }
}

/// The value of two characters read as a hexadecimal number: two digits, or `+` and one digit.
pub open spec fn pair_value(high: u8, low: u8) -> Option<u8> {
    match (hex_value(high), hex_value(low)) {
        (Some(h), Some(l)) => Some((h * 16 + l) as u8),
        (None, Some(l)) => if high == 0x2b {
            Some(l)
        } else {
            None
        },
        _ => None,
    }
}

/// `bytes` with each `%` and hexadecimal pair put as the byte it stands for and each other `+` as a
/// space.
pub open spec fn percent_decoded(bytes: Seq<u8>) -> Seq<u8>
    decreases bytes.len(),
{
    if bytes.len() == 0 {
        seq![]
    } else if bytes[0] == 0x25 && bytes.len() > 2 && pair_value(bytes[1], bytes[2]) is Some {
        seq![pair_value(bytes[1], bytes[2])->0] + percent_decoded(bytes.skip(3))
    } else {
        seq![
            if bytes[0] == 0x2b {
                0x20u8
            } else {
                bytes[0]
            },
        ] + percent_decoded(bytes.skip(1))
    }
}

/// Whether the two bytes behind each `%` end where a character ends.
pub open spec fn decodable(bytes: Seq<u8>) -> bool {
    forall|i: int|
        0 <= i && i + 3 < bytes.len() && #[trigger] bytes[i] == 0x25 ==> !is_continuation_byte(
            bytes[i + 3],
        )
}

/// What `String::from_utf8_lossy` gives for bytes that are not UTF-8.
pub uninterp spec fn utf8_lossy(bytes: Seq<u8>) -> Seq<char>;

/// `bytes` as text: their UTF-8 decoding, or a text with replacement characters.
pub open spec fn lossy_text(bytes: Seq<u8>) -> Seq<char> {
    if valid_utf8(bytes) {
        decode_utf8(bytes)
    } else {
        utf8_lossy(bytes)
    }
}

/// `String::from_utf8_lossy`: the UTF-8 decoding of the bytes where they are UTF-8; of other bytes
/// only that the text depends on them alone.
#[verifier::external_body]
fn text_from_utf8_lossy(bytes: &Vec<u8>) -> (text: String)
    ensures
        valid_utf8(bytes@) ==> text@ == decode_utf8(bytes@),
        !valid_utf8(bytes@) ==> text@ == utf8_lossy(bytes@),
{
    String::from_utf8_lossy(bytes).into_owned()
}

fn hex_digit(b: u8) -> (value: Option<u8>)
    ensures
        value == hex_value(b),
        value matches Some(v) ==> v < 16,
{
    if 0x30 <= b && b <= 0x39 {
        Some(b - 0x30)
    } else if 0x41 <= b && b <= 0x46 {
        Some(b - 0x41 + 10)
    } else if 0x61 <= b && b <= 0x66 {
        Some(b - 0x61 + 10)
    } else {
        None
    }
}

fn hex_pair(high: u8, low: u8) -> (value: Option<u8>)
    ensures
        value == pair_value(high, low),
{
    match (hex_digit(high), hex_digit(low)) {
        (Some(h), Some(l)) => Some(h * 16 + l),
        (None, Some(l)) => if high == 0x2b {
            Some(l)
        } else {
            None
        },
        _ => None,
    }
}

/// Decodes percent-encoded bytes.
pub fn percent_decode_bytes(bytes: &Vec<u8>) -> (out: Vec<u8>)
    ensures
        out@ == percent_decoded(bytes@),
{
    let mut out: Vec<u8> = Vec::new();
    let mut i: usize = 0;
    assert(bytes@.skip(0) =~= bytes@);
    while i < bytes.len()
        invariant
            i <= bytes.len(),
            percent_decoded(bytes@) == out@ + percent_decoded(bytes@.skip(i as int)),
        decreases bytes.len() - i,
    {
        let ghost rest = bytes@.skip(i as int);
        let ghost before = out@;
        let pair: Option<u8> = if bytes[i] == 0x25 && bytes.len() - i > 2 {
            hex_pair(bytes[i + 1], bytes[i + 2])
        } else {
            None
        };
        match pair {
            Some(v) => {
                out.push(v);
                i = i + 3;
                assert(rest.skip(3) =~= bytes@.skip(i as int));
                assert(before + (seq![v] + percent_decoded(bytes@.skip(i as int))) =~= out@
                    + percent_decoded(bytes@.skip(i as int)));
            },
            None => {
                let b: u8 = if bytes[i] == 0x2b {
                    0x20
                } else {
                    bytes[i]
                };
                out.push(b);
                i = i + 1;
                assert(rest.skip(1) =~= bytes@.skip(i as int));
                assert(before + (seq![b] + percent_decoded(bytes@.skip(i as int))) =~= out@
                    + percent_decoded(bytes@.skip(i as int)));
            },
        }
    }
    assert(out@ + percent_decoded(bytes@.skip(i as int)) =~= out@);
    out
}

/// Whether `percent_decode_url` takes `input`.
pub fn is_decodable(input: &str) -> (yes: bool)
    ensures
        yes == decodable(encode_utf8(input@)),
{
    let bytes: Vec<u8> = input.as_bytes_vec();
    let mut i: usize = 0;
    while i < bytes.len()
        invariant
            i <= bytes.len(),
            bytes@ == encode_utf8(input@),
            forall|j: int|
                0 <= j < i && j + 3 < bytes.len() && #[trigger] bytes@[j] == 0x25
                    ==> !is_continuation_byte(bytes@[j + 3]),
        decreases bytes.len() - i,
    {
        if bytes[i] == 0x25 && bytes.len() - i > 3 && 0x80 <= bytes[i + 3] && bytes[i + 3] <= 0xbf {
            assert(encode_utf8(input@)[i as int] == 0x25);
            return false;
        }
        i = i + 1;
    }
    true
}

/// Decodes percent-encoded text.
pub fn percent_decode_url(input: &str) -> (text: String)
    requires
        decodable(encode_utf8(input@)),
    ensures
        text@ == lossy_text(percent_decoded(encode_utf8(input@))),
{
    let bytes: Vec<u8> = input.as_bytes_vec();
    let out: Vec<u8> = percent_decode_bytes(&bytes);
    text_from_utf8_lossy(&out)
}

// ---- hexadecimal ----

/// The lower-case hexadecimal digit of value `d`.
pub open spec fn hex_lower(d: nat) -> char
    recommends
        d < 16,
{
    if d < 10 {
        ('0' as u32 + d) as char
    } else {
        ('a' as u32 + d - 10) as char
    }
}

/// `bytes` in lower-case hexadecimal, two digits each.
pub open spec fn hex_text(bytes: Seq<u8>) -> Seq<char>
    decreases bytes.len(),
{
    if bytes.len() == 0 {
        seq![]
    } else {
        hex_text(bytes.drop_last()).push(hex_lower((bytes.last() / 16) as nat)).push(
            hex_lower((bytes.last() % 16) as nat),
        )
    }
}

/// Hexadecimal notation takes two characters for each byte.
pub proof fn hex_text_len(bytes: Seq<u8>)
    ensures
        hex_text(bytes).len() == 2 * bytes.len(),
    decreases bytes.len(),
{
    if bytes.len() > 0 {
        hex_text_len(bytes.drop_last());
    }
}

fn hex_lower_digit(d: u8) -> (c: char)
    requires
        d < 16,
    ensures
        c == hex_lower(d as nat),
{
    if d < 10 {
        (48u8 + d) as char
    } else {
        (87u8 + d) as char
    }
}

/// Writes `bytes` in lower-case hexadecimal.
pub fn to_hex(bytes: &Vec<u8>) -> (text: String)
    ensures
        text@ == hex_text(bytes@),
{
    let mut text = String::new();
    let mut i: usize = 0;
    while i < bytes.len()
        invariant
            i <= bytes.len(),
            text@ == hex_text(bytes@.take(i as int)),
        decreases bytes.len() - i,
    {
        let b: u8 = bytes[i];
        text.push(hex_lower_digit(b / 16));
        text.push(hex_lower_digit(b % 16));
        i = i + 1;
        assert(bytes@.take(i as int).drop_last() =~= bytes@.take(i - 1));
    }
    assert(bytes@.take(i as int) =~= bytes@);
    text
}

// ---- laws ----

/// A character that percent-encoding can produce.
pub open spec fn is_encoding_char(c: char) -> bool {
    ||| 'A' <= c <= 'Z'
    ||| 'a' <= c <= 'z'
    ||| '0' <= c <= '9'
    ||| c == '-'
    ||| c == '_'
    ||| c == '.'
    ||| c == '~'
    ||| c == '%'
}

/// Percent-encoded text holds only letters, digits, `-`, `_`, `.`, `~` and `%`: in particular none
/// of the characters that separate the fields of a form.
pub proof fn law_encoding_alphabet(bytes: Seq<u8>)
    ensures
        forall|i: int|
            0 <= i < url_encoded(bytes).len() ==> is_encoding_char(#[trigger] url_encoded(bytes)[i]),
    decreases bytes.len(),
{
    if bytes.len() > 0 {
        law_encoding_alphabet(bytes.skip(1));
        let first = escaped(bytes[0]);
        let rest = url_encoded(bytes.skip(1));
        assert forall|i: int| 0 <= i < url_encoded(bytes).len() implies is_encoding_char(
            #[trigger] url_encoded(bytes)[i],
        ) by {
            if i >= first.len() {
                assert(url_encoded(bytes)[i] == rest[i - first.len()]);
            } else {
                assert(url_encoded(bytes)[i] == first[i]);
            }
        }
    }
}

/// The bytes of a text of one-byte characters.
pub open spec fn narrow(chars: Seq<char>) -> Seq<u8> {
    Seq::new(chars.len(), |i: int| chars[i] as u8)
}

proof fn decode_narrow_encoded(bytes: Seq<u8>)
    ensures
        percent_decoded(narrow(url_encoded(bytes))) == bytes,
    decreases bytes.len(),
{
    let whole = narrow(url_encoded(bytes));
    if bytes.len() == 0 {
        assert(whole =~= seq![]);
    } else {
        let b = bytes[0];
        let rest = narrow(url_encoded(bytes.skip(1)));
        decode_narrow_encoded(bytes.skip(1));
        if is_unreserved(b) {
            assert(whole[0] == b);
            assert(whole.skip(1) =~= rest);
        } else {
            assert(whole[0] == 0x25);
            assert(pair_value(whole[1], whole[2]) == Some(b));
            assert(whole.skip(3) =~= rest);
        }
        assert(percent_decoded(whole) =~= seq![b] + bytes.skip(1));
        assert(seq![b] + bytes.skip(1) =~= bytes);
    }
}

/// Decoding what `urlencoding` wrote gives the text back.
pub proof fn law_percent_round_trip(text: Seq<char>)
    ensures
        decodable(encode_utf8(url_encoded(encode_utf8(text)))),
        lossy_text(percent_decoded(encode_utf8(url_encoded(encode_utf8(text))))) == text,
{
    let encoded = url_encoded(encode_utf8(text));
    law_encoding_alphabet(encode_utf8(text));
    assert(is_ascii_chars(encoded));
    is_ascii_chars_encode_utf8(encoded);
    assert(encode_utf8(encoded) =~= narrow(encoded));
    decode_narrow_encoded(encode_utf8(text));
    encode_utf8_valid_utf8(text);
    encode_utf8_decode_utf8(text);
    assert forall|i: int|
        0 <= i && i + 3 < encode_utf8(encoded).len() && #[trigger] encode_utf8(encoded)[i]
            == 0x25 implies !is_continuation_byte(encode_utf8(encoded)[i + 3]) by {
        assert(is_encoding_char(encoded[i + 3]));
    }
}

/// Two texts with the same percent-encoding are the same text.
pub proof fn law_percent_injective(left: Seq<char>, right: Seq<char>)
    requires
        url_encoded(encode_utf8(left)) == url_encoded(encode_utf8(right)),
    ensures
        left == right,
{
    law_percent_round_trip(left);
    law_percent_round_trip(right);
}

/// Encoding goes byte by byte.
pub proof fn law_encoding_by_bytes(left: Seq<u8>, right: Seq<u8>)
    ensures
        url_encoded(left + right) == url_encoded(left) + url_encoded(right),
    decreases left.len(),
{
    if left.len() == 0 {
        assert(left + right =~= right);
        assert(url_encoded(left) + url_encoded(right) =~= url_encoded(right));
    } else {
        law_encoding_by_bytes(left.skip(1), right);
        assert((left + right).skip(1) =~= left.skip(1) + right);
        assert(escaped(left[0]) + (url_encoded(left.skip(1)) + url_encoded(right)) =~= (escaped(
            left[0],
        ) + url_encoded(left.skip(1))) + url_encoded(right));
    }
}

/// A letter, a digit, a hyphen, an underscore, a dot or a tilde is written as it is, and each other
/// byte as a percent sign and two digits, capital where they are letters, that have its value.
pub proof fn law_encoded_byte(b: u8)
    ensures
        (0x41 <= b <= 0x5a || 0x61 <= b <= 0x7a || 0x30 <= b <= 0x39 || b == 0x2d || b == 0x5f || b
            == 0x2e || b == 0x7e) ==> url_encoded(seq![b]) == seq![b as char],
        !(0x41 <= b <= 0x5a || 0x61 <= b <= 0x7a || 0x30 <= b <= 0x39 || b == 0x2d || b == 0x5f || b
            == 0x2e || b == 0x7e) ==> {
            let text = url_encoded(seq![b]);
            &&& text.len() == 3
            &&& text[0] == '%'
            &&& is_capital_digit(text[1])
            &&& is_capital_digit(text[2])
            &&& capital_value(text[1]) * 16 + capital_value(text[2]) == b
        },
{
    assert(seq![b].skip(1) =~= seq![]);
    assert(url_encoded(seq![b].skip(1)) =~= seq![]);
    assert(url_encoded(seq![b]) =~= escaped(b));
}

/// Whether `c` is a hexadecimal digit, capital where it is a letter.
pub open spec fn is_capital_digit(c: char) -> bool {
    '0' <= c <= '9' || 'A' <= c <= 'F'
}

/// The value of a hexadecimal digit, capital where it is a letter.
pub open spec fn capital_value(c: char) -> int {
    if c <= '9' {
        c as int - '0' as int
    } else {
        c as int - 'A' as int + 10
    }
}

/// The bytes that are hexadecimal digits, capital or not, and their values.
pub proof fn law_hex_value(b: u8)
    ensures
        0x30 <= b <= 0x39 ==> hex_value(b) == Some((b - 0x30) as u8),
        0x41 <= b <= 0x46 ==> hex_value(b) == Some((b - 0x41 + 10) as u8),
        0x61 <= b <= 0x66 ==> hex_value(b) == Some((b - 0x61 + 10) as u8),
        !(0x30 <= b <= 0x39 || 0x41 <= b <= 0x46 || 0x61 <= b <= 0x66) ==> hex_value(b) is None,
{
}

/// A percent sign and two hexadecimal digits are decoded to the byte of their value.
pub proof fn law_decoded_pair(high: u8, low: u8, rest: Seq<u8>)
    requires
        hex_value(high) is Some,
        hex_value(low) is Some,
    ensures
        percent_decoded(seq![0x25u8, high, low] + rest) == seq![
            (hex_value(high)->0 * 16 + hex_value(low)->0) as u8,
        ] + percent_decoded(rest),
{
    let whole = seq![0x25u8, high, low] + rest;
    assert(whole.skip(3) =~= rest);
    assert(whole[1] == high && whole[2] == low);
}

/// Behind a percent sign, a plus sign and a hexadecimal digit count as that digit.
pub proof fn law_decoded_signed_digit(low: u8, rest: Seq<u8>)
    requires
        hex_value(low) is Some,
    ensures
        percent_decoded(seq![0x25u8, 0x2bu8, low] + rest) == seq![hex_value(low)->0]
            + percent_decoded(rest),
{
    let whole = seq![0x25u8, 0x2bu8, low] + rest;
    assert(whole.skip(3) =~= rest);
    assert(whole[1] == 0x2b && whole[2] == low);
}

/// A percent sign without two digits behind it stays.
pub proof fn law_lone_percent_stays(rest: Seq<u8>)
    requires
        rest.len() < 2 || hex_value(rest[1]) is None || (hex_value(rest[0]) is None && rest[0]
            != 0x2b),
    ensures
        percent_decoded(seq![0x25u8] + rest) == seq![0x25u8] + percent_decoded(rest),
{
    let whole = seq![0x25u8] + rest;
    assert(whole.skip(1) =~= rest);
    if rest.len() >= 2 {
        assert(whole[1] == rest[0] && whole[2] == rest[1]);
    }
}

/// A plus sign is decoded to a space, and each byte but it and the percent sign to itself.
pub proof fn law_decoded_byte(b: u8, rest: Seq<u8>)
    requires
        b != 0x25,
    ensures
        percent_decoded(seq![b] + rest) == seq![
            if b == 0x2b {
                0x20u8
            } else {
                b
            },
        ] + percent_decoded(rest),
        percent_decoded(Seq::empty()) == Seq::<u8>::empty(),
{
    assert((seq![b] + rest).skip(1) =~= rest);
}

/// Bytes without percent and plus signs are decoded to themselves.
pub proof fn law_nothing_to_decode(bytes: Seq<u8>)
    requires
        !bytes.contains(0x25),
        !bytes.contains(0x2b),
    ensures
        percent_decoded(bytes) == bytes,
    decreases bytes.len(),
{
    if bytes.len() > 0 {
        let rest = bytes.skip(1);
        assert(bytes.contains(bytes[0]));
        assert forall|b: u8| rest.contains(b) implies bytes.contains(b) by {
            let k = choose|k: int| 0 <= k < rest.len() && rest[k] == b;
            assert(bytes[k + 1] == b);
        }
        law_nothing_to_decode(rest);
        assert(seq![bytes[0]] + rest =~= bytes);
    }
}

/// Bytes of ASCII can always be decoded, and so can bytes without percent signs.
pub proof fn law_decodable(bytes: Seq<u8>)
    ensures
        (forall|i: int| 0 <= i < bytes.len() ==> #[trigger] bytes[i] < 0x80) ==> decodable(bytes),
        !bytes.contains(0x25) ==> decodable(bytes),
{
    if !bytes.contains(0x25) {
        assert forall|i: int|
            0 <= i && i + 3 < bytes.len() && #[trigger] bytes[i]
                == 0x25 implies !is_continuation_byte(bytes[i + 3]) by {
            assert(bytes.contains(bytes[i]));
        }
    }
}

/// The bytes of a text are read as that text.
pub proof fn law_text_of_bytes(text: Seq<char>)
    ensures
        lossy_text(encode_utf8(text)) == text,
{
    encode_utf8_valid_utf8(text);
    encode_utf8_decode_utf8(text);
}

/// Hexadecimal notation has two digits for each byte, small where they are letters, with its value.
pub proof fn law_hex_digits(bytes: Seq<u8>)
    ensures
        hex_text(bytes).len() == 2 * bytes.len(),
        forall|i: int|
            0 <= i < bytes.len() ==> shows_byte(hex_text(bytes), 2 * i, #[trigger] bytes[i]),
    decreases bytes.len(),
{
    hex_text_len(bytes);
    if bytes.len() > 0 {
        let front = bytes.drop_last();
        law_hex_digits(front);
        hex_text_len(front);
        assert forall|i: int| 0 <= i < bytes.len() implies shows_byte(
            hex_text(bytes),
            2 * i,
            #[trigger] bytes[i],
        ) by {
            if i < front.len() {
                assert(front[i] == bytes[i]);
                assert(hex_text(bytes)[2 * i] == hex_text(front)[2 * i]);
                assert(hex_text(bytes)[2 * i + 1] == hex_text(front)[2 * i + 1]);
            }
        }
    }
}

/// Whether the two characters of `text` from `at` on are digits, small where they are letters, with
/// the value `b`.
pub open spec fn shows_byte(text: Seq<char>, at: int, b: u8) -> bool {
    &&& is_small_digit(text[at])
    &&& is_small_digit(text[at + 1])
    &&& small_value(text[at]) * 16 + small_value(text[at + 1]) == b
}

/// Whether `c` is a hexadecimal digit, small where it is a letter.
pub open spec fn is_small_digit(c: char) -> bool {
    '0' <= c <= '9' || 'a' <= c <= 'f'
}

/// The value of a hexadecimal digit, small where it is a letter.
pub open spec fn small_value(c: char) -> int {
    if c <= '9' {
        c as int - '0' as int
    } else {
        c as int - 'a' as int + 10
    }
}

} // verus!
