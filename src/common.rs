use vstd::prelude::*;

verus! {

/// The bytes that percent-encoding leaves as they are: ASCII letters and
/// digits, `-`, `.`, `_` and `~`.
pub open spec fn unreserved(b: u8) -> bool {
    (48 <= b && b <= 57) || (65 <= b && b <= 90) || (97 <= b && b <= 122) || b == 45 || b == 46
        || b == 95 || b == 126
}

/// An upper-case hexadecimal digit.
pub open spec fn hex_digit(d: u8) -> char {
    if d < 10 {
        ((48 + d) as u8) as char
    } else {
        ((55 + d) as u8) as char
    }
}

pub open spec fn percent_byte(b: u8) -> Seq<char> {
    if unreserved(b) {
        seq![b as char]
    } else {
        seq!['%', hex_digit(b / 16), hex_digit(b % 16)]
    }
}

pub open spec fn percent_encoded(bytes: Seq<u8>) -> Seq<char>
    decreases bytes.len(),
{
    if bytes.len() == 0 {
        Seq::empty()
    } else {
        percent_byte(bytes[0]) + percent_encoded(bytes.subrange(1, bytes.len() as int))
    }
}

/// The percent-encoding of a text: each byte of its UTF-8 form that is not
/// unreserved becomes `%` and two upper-case hexadecimal digits.
pub open spec fn url_encoded(s: Seq<char>) -> Seq<char> {
    percent_encoded(vstd::utf8::encode_utf8(s))
}

/// Relies on `urlencoding::encode`: it percent-encodes every byte of the
/// UTF-8 text except ASCII letters, digits and `-`, `.`, `_`, `~`, with
/// upper-case hexadecimal digits.
#[verifier::external_body]
pub(crate) fn url_encode(s: &str) -> (r: String)
    ensures
        r@ == url_encoded(s@),
{
    urlencoding::encode(s).into_owned()
}

/// Relies on `String::push`: appends one character.
#[verifier::external_body]
pub(crate) fn push_char(s: &mut String, c: char)
    ensures
        final(s)@ == old(s)@.push(c),
{
    s.push(c)
}

pub open spec fn is_ascii_alphanumeric(c: char) -> bool {
    ('a' <= c && c <= 'z') || ('A' <= c && c <= 'Z') || ('0' <= c && c <= '9')
}

/// Every character but an ASCII letter or digit becomes `_`.
pub open spec fn underscored(s: Seq<char>) -> Seq<char> {
    s.map_values(|c: char| if is_ascii_alphanumeric(c) { c } else { '_' })
}

/// The text percent-encoded, with every character that is not an ASCII
/// letter or digit then replaced by `_`.
pub open spec fn filtered(s: Seq<char>) -> Seq<char> {
    underscored(url_encoded(s))
}

/// Replaces each character of `encoded` that is not an ASCII letter or
/// digit by `_`.
pub fn underscore(encoded: &str) -> (r: String)
    ensures
        r@ == underscored(encoded@),
{
    let len = encoded.unicode_len();
    let mut out = String::new();
    let mut i: usize = 0;
    while i < len
        invariant
            len == encoded@.len(),
            i <= len,
            out@ == underscored(encoded@.subrange(0, i as int)),
        decreases len - i,
    {
        let c = encoded.get_char(i);
        if ('a' <= c && c <= 'z') || ('A' <= c && c <= 'Z') || ('0' <= c && c <= '9') {
            push_char(&mut out, c);
        } else {
            push_char(&mut out, '_');
        }
        proof {
            assert(encoded@.subrange(0, i + 1) =~= encoded@.subrange(0, i as int).push(c));
        }
        i = i + 1;
        proof {
            assert(out@ =~= underscored(encoded@.subrange(0, i as int)));
        }
    }
    proof {
        assert(encoded@.subrange(0, len as int) =~= encoded@);
    }
    out
}

/// Percent-encodes `source`, then replaces each character that is not an
/// ASCII letter or digit by `_`.
pub fn filter_string(source: &str) -> (r: String)
    ensures
        r@ == filtered(source@),
{
    let encoded = url_encode(source);
    underscore(encoded.as_str())
}

/// A character that stands for itself in a directory-safe text: a lower-case
/// ASCII letter or a digit.
pub open spec fn is_plain(c: char) -> bool {
    ('a' <= c && c <= 'z') || ('0' <= c && c <= '9')
}

/// A lower-case hexadecimal digit.
pub open spec fn lower_hex(d: u32) -> char {
    if d < 10 {
        ((48 + d) as u8) as char
    } else {
        ((87 + d) as u8) as char
    }
}

/// Six hexadecimal digits, most significant first, of a code point.
pub open spec fn hex6(n: u32) -> Seq<char> {
    seq![
        lower_hex((n >> 20u32) & 15u32),
        lower_hex((n >> 16u32) & 15u32),
        lower_hex((n >> 12u32) & 15u32),
        lower_hex((n >> 8u32) & 15u32),
        lower_hex((n >> 4u32) & 15u32),
        lower_hex(n & 15u32),
    ]
}

/// A character as it stands in a directory-safe text: itself if plain, else
/// `_` and the six hexadecimal digits of its code point.
pub open spec fn safe_chunk(c: char) -> Seq<char> {
    if is_plain(c) {
        seq![c]
    } else {
        seq!['_'] + hex6(c as u32)
    }
}

/// A text made of lower-case letters, digits and `_` only, from which the
/// text it was made from can be read back (`lemma_safe_encoded_injective`).
pub open spec fn safe_encoded(s: Seq<char>) -> Seq<char>
    decreases s.len(),
{
    if s.len() == 0 {
        Seq::empty()
    } else {
        safe_chunk(s[0]) + safe_encoded(s.subrange(1, s.len() as int))
    }
}

proof fn lemma_safe_encoded_push(s: Seq<char>, c: char)
    ensures
        safe_encoded(s.push(c)) == safe_encoded(s) + safe_chunk(c),
    decreases s.len(),
{
    if s.len() == 0 {
        assert(s.push(c).subrange(1, 1) =~= Seq::<char>::empty());
        assert(safe_encoded(Seq::<char>::empty()) == Seq::<char>::empty());
        assert(s.push(c)[0] == c);
        assert(safe_encoded(s) == Seq::<char>::empty());
        assert(safe_encoded(s.push(c)) =~= safe_chunk(c));
    } else {
        let t = s.subrange(1, s.len() as int);
        lemma_safe_encoded_push(t, c);
        assert(s.push(c).subrange(1, s.len() as int + 1) =~= t.push(c));
        assert(safe_encoded(s.push(c)) =~= safe_encoded(s) + safe_chunk(c));
    }
}

proof fn lemma_lower_hex_injective(a: u32, b: u32)
    requires
        a < 16,
        b < 16,
        lower_hex(a) == lower_hex(b),
    ensures
        a == b,
{
    assert(lower_hex(a) as u32 == lower_hex(b) as u32);
}

proof fn lemma_hex6_injective(a: u32, b: u32)
    requires
        a < 0x1000000,
        b < 0x1000000,
        hex6(a) == hex6(b),
    ensures
        a == b,
{
    assert(((a >> 20u32) & 15u32) < 16 && ((b >> 20u32) & 15u32) < 16) by (bit_vector);
    assert(((a >> 16u32) & 15u32) < 16 && ((b >> 16u32) & 15u32) < 16) by (bit_vector);
    assert(((a >> 12u32) & 15u32) < 16 && ((b >> 12u32) & 15u32) < 16) by (bit_vector);
    assert(((a >> 8u32) & 15u32) < 16 && ((b >> 8u32) & 15u32) < 16) by (bit_vector);
    assert(((a >> 4u32) & 15u32) < 16 && ((b >> 4u32) & 15u32) < 16) by (bit_vector);
    assert((a & 15u32) < 16 && (b & 15u32) < 16) by (bit_vector);
    assert(hex6(a)[0] == hex6(b)[0]);
    assert(hex6(a)[1] == hex6(b)[1]);
    assert(hex6(a)[2] == hex6(b)[2]);
    assert(hex6(a)[3] == hex6(b)[3]);
    assert(hex6(a)[4] == hex6(b)[4]);
    assert(hex6(a)[5] == hex6(b)[5]);
    lemma_lower_hex_injective((a >> 20u32) & 15u32, (b >> 20u32) & 15u32);
    lemma_lower_hex_injective((a >> 16u32) & 15u32, (b >> 16u32) & 15u32);
    lemma_lower_hex_injective((a >> 12u32) & 15u32, (b >> 12u32) & 15u32);
    lemma_lower_hex_injective((a >> 8u32) & 15u32, (b >> 8u32) & 15u32);
    lemma_lower_hex_injective((a >> 4u32) & 15u32, (b >> 4u32) & 15u32);
    lemma_lower_hex_injective(a & 15u32, b & 15u32);
    assert(a == b) by (bit_vector)
        requires
            a < 0x1000000,
            b < 0x1000000,
            (a >> 20u32) & 15u32 == (b >> 20u32) & 15u32,
            (a >> 16u32) & 15u32 == (b >> 16u32) & 15u32,
            (a >> 12u32) & 15u32 == (b >> 12u32) & 15u32,
            (a >> 8u32) & 15u32 == (b >> 8u32) & 15u32,
            (a >> 4u32) & 15u32 == (b >> 4u32) & 15u32,
            a & 15u32 == b & 15u32,
    ;
}

proof fn lemma_code_point(c: char, d: char)
    ensures
        (c as u32) < 0x1000000,
        (d as u32) < 0x1000000,
        (c as u32) == (d as u32) ==> c == d,
{
    assert(0 <= (c as int) <= 0x10FFFF && (c as int) == (c as u32) as int);
    assert(0 <= (d as int) <= 0x10FFFF && (d as int) == (d as u32) as int);
}

/// Distinct texts have distinct directory-safe forms.
pub proof fn lemma_safe_encoded_injective(a: Seq<char>, b: Seq<char>)
    requires
        safe_encoded(a) == safe_encoded(b),
    ensures
        a == b,
    decreases a.len(),
{
    let k = safe_encoded(a);
    if a.len() == 0 {
        if b.len() > 0 {
            assert(safe_encoded(b).len() > 0);
        }
        assert(b =~= a);
    } else {
        let ca = safe_chunk(a[0]);
        assert(k[0] == ca[0]);
        if b.len() == 0 {
            assert(k.len() == 0);
            assert(false);
        } else {
            let cb = safe_chunk(b[0]);
            assert(k[0] == cb[0]);
            assert(is_plain(a[0]) == is_plain(b[0]));
            if is_plain(a[0]) {
                assert(a[0] == b[0]);
            } else {
                assert(hex6(a[0] as u32) =~= ca.subrange(1, 7));
                assert(hex6(b[0] as u32) =~= cb.subrange(1, 7));
                assert(ca.subrange(1, 7) =~= k.subrange(1, 7));
                assert(cb.subrange(1, 7) =~= k.subrange(1, 7));
                lemma_code_point(a[0], b[0]);
                lemma_hex6_injective(a[0] as u32, b[0] as u32);
            }
            let n = ca.len() as int;
            let a1 = a.subrange(1, a.len() as int);
            let b1 = b.subrange(1, b.len() as int);
            assert(k.subrange(n, k.len() as int) =~= safe_encoded(a1));
            assert(k.subrange(n, k.len() as int) =~= safe_encoded(b1));
            lemma_safe_encoded_injective(a1, b1);
            assert(a =~= seq![a[0]] + a1);
            assert(b =~= seq![b[0]] + b1);
        }
    }
}

fn push_hex_digit(out: &mut String, d: u32)
    requires
        d < 16,
    ensures
        final(out)@ == old(out)@.push(lower_hex(d)),
{
    if d < 10 {
        push_char(out, ((48 + d) as u8) as char);
    } else {
        push_char(out, ((87 + d) as u8) as char);
    }
}

/// The directory-safe form of `s`: lower-case letters and digits stay, every
/// other character becomes `_` and six hexadecimal digits of its code point.
pub fn safe_encode(s: &str) -> (r: String)
    ensures
        r@ == safe_encoded(s@),
{
    let len = s.unicode_len();
    let mut out = String::new();
    let mut i: usize = 0;
    while i < len
        invariant
            len == s@.len(),
            i <= len,
            out@ == safe_encoded(s@.subrange(0, i as int)),
        decreases len - i,
    {
        let c = s.get_char(i);
        let ghost before = out@;
        if ('a' <= c && c <= 'z') || ('0' <= c && c <= '9') {
            push_char(&mut out, c);
        } else {
            let n = c as u32;
            push_char(&mut out, '_');
            assert(((n >> 20u32) & 15u32) < 16) by (bit_vector);
            assert(((n >> 16u32) & 15u32) < 16) by (bit_vector);
            assert(((n >> 12u32) & 15u32) < 16) by (bit_vector);
            assert(((n >> 8u32) & 15u32) < 16) by (bit_vector);
            assert(((n >> 4u32) & 15u32) < 16) by (bit_vector);
            assert((n & 15u32) < 16) by (bit_vector);
            push_hex_digit(&mut out, (n >> 20u32) & 15u32);
            push_hex_digit(&mut out, (n >> 16u32) & 15u32);
            push_hex_digit(&mut out, (n >> 12u32) & 15u32);
            push_hex_digit(&mut out, (n >> 8u32) & 15u32);
            push_hex_digit(&mut out, (n >> 4u32) & 15u32);
            push_hex_digit(&mut out, n & 15u32);
        }
        proof {
            assert(out@ =~= before + safe_chunk(c));
            lemma_safe_encoded_push(s@.subrange(0, i as int), c);
            assert(s@.subrange(0, i + 1) =~= s@.subrange(0, i as int).push(c));
        }
        i = i + 1;
    }
    proof {
        assert(s@.subrange(0, len as int) =~= s@);
    }
    out
}

} // verus!
