//! Base64 in the standard alphabet, with padding.

use base64::Engine;
use vstd::prelude::*;
use vstd::string::*;
use vstd::utf8::{
    decode_utf8, encode_utf8, encode_utf8_decode_utf8, encode_utf8_valid_utf8, valid_utf8,
};
use crate::text::byte_len;

verus! {

/// The character that stands for six bits in the standard alphabet.
pub open spec fn base64_char(n: int) -> char {
    if n < 26 {
        ('A' as u32 + n) as char
    } else if n < 52 {
        ('a' as u32 + (n - 26)) as char
    } else if n < 62 {
        ('0' as u32 + (n - 52)) as char
    } else if n == 62 {
        '+'
    } else {
        '/'
    }
}

/// The standard Base64 text of some bytes: four characters for each group of
/// three bytes, the last group filled up with `=`.
pub open spec fn base64_of(bytes: Seq<u8>) -> Seq<char>
    decreases bytes.len(),
{
    if bytes.len() == 0 {
        Seq::empty()
    } else if bytes.len() == 1 {
        let a = bytes[0] as int;
        seq![base64_char(a / 4), base64_char(a % 4 * 16), '=', '=']
    } else if bytes.len() == 2 {
        let a = bytes[0] as int;
        let b = bytes[1] as int;
        seq![base64_char(a / 4), base64_char(a % 4 * 16 + b / 16), base64_char(b % 16 * 4), '=']
    } else {
        let a = bytes[0] as int;
        let b = bytes[1] as int;
        let c = bytes[2] as int;
        seq![
            base64_char(a / 4),
            base64_char(a % 4 * 16 + b / 16),
            base64_char(b % 16 * 4 + c / 64),
            base64_char(c % 64),
        ] + base64_of(bytes.skip(3))
    }
}

/// Whether the Base64 text of so many bytes fits into memory.
pub open spec fn encodable(n: nat) -> bool {
    (n + 2) / 3 * 4 <= isize::MAX
}

/// `base64::engine::general_purpose::STANDARD.encode`: the text is the
/// Base64 of the bytes in the standard alphabet, with padding.
#[verifier::external_body]
fn base64_standard(bytes: &[u8]) -> (text: String)
    requires
        encodable(bytes@.len()),
    ensures
        text@ == base64_of(bytes@),
{
    base64::engine::general_purpose::STANDARD.encode(bytes)
}

/// Whether the Base64 text of a record fits into memory.
pub fn can_encode(json: &str) -> (res: bool)
    ensures
        res == encodable(byte_len(json@)),
{
    let n: usize = json.as_bytes().len();
    let groups: usize = n / 3 + if n % 3 > 0 {
        1
    } else {
        0
    };
    groups <= isize::MAX as usize / 4
}

/// The Base64 text of a record in JSON.
pub open spec fn record_text(json: Seq<char>) -> Seq<char> {
    base64_of(encode_utf8(json))
}

/// The Base64 text of a record that was written as JSON.
pub fn jbase64(json: &str) -> (text: String)
    requires
        encodable(byte_len(json@)),
    ensures
        text@ == record_text(json@),
{
    base64_standard(json.as_bytes())
}

/// The six bits that a character of the standard alphabet stands for.
pub open spec fn base64_value(c: char) -> int {
    let n = c as int;
    if 'A' as int <= n <= 'Z' as int {
        n - 'A' as int
    } else if 'a' as int <= n <= 'z' as int {
        n - 'a' as int + 26
    } else if '0' as int <= n <= '9' as int {
        n - '0' as int + 52
    } else if c == '+' {
        62
    } else {
        63
    }
}

/// The bytes behind a Base64 text.
pub open spec fn base64_bytes(text: Seq<char>) -> Seq<u8>
    decreases text.len(),
{
    if text.len() < 4 {
        Seq::empty()
    } else {
        let p = base64_value(text[0]);
        let q = base64_value(text[1]);
        let r = base64_value(text[2]);
        let s = base64_value(text[3]);
        let a = (p * 4 + q / 16) as u8;
        let b = (q % 16 * 16 + r / 4) as u8;
        let c = (r % 4 * 64 + s) as u8;
        if text[2] == '=' {
            seq![a]
        } else if text[3] == '=' {
            seq![a, b]
        } else {
            seq![a, b, c] + base64_bytes(text.skip(4))
        }
    }
}

proof fn lemma_base64_char(n: int)
    requires
        0 <= n < 64,
    ensures
        base64_value(base64_char(n)) == n,
        base64_char(n) != '=',
        is_base64_char(base64_char(n)),
{
}

/// The characters of which Base64 text is made.
pub open spec fn is_base64_char(c: char) -> bool {
    let n = c as int;
    ||| 'A' as int <= n <= 'Z' as int
    ||| 'a' as int <= n <= 'z' as int
    ||| '0' as int <= n <= '9' as int
    ||| c == '+'
    ||| c == '/'
    ||| c == '='
}

/// Decoding gives back the bytes that were encoded.
pub proof fn base64_decodes(bytes: Seq<u8>)
    ensures
        base64_bytes(base64_of(bytes)) == bytes,
    decreases bytes.len(),
{
    if bytes.len() == 0 {
        assert(base64_bytes(base64_of(bytes)) =~= bytes);
    } else {
        let a = bytes[0] as int;
        lemma_base64_char(a / 4);
        lemma_base64_char(a % 4 * 16);
        if bytes.len() == 1 {
            assert(base64_bytes(base64_of(bytes)) =~= bytes);
        } else {
            let b = bytes[1] as int;
            lemma_base64_char(a % 4 * 16 + b / 16);
            lemma_base64_char(b % 16 * 4);
            if bytes.len() == 2 {
                assert(base64_bytes(base64_of(bytes)) =~= bytes);
            } else {
                let c = bytes[2] as int;
                lemma_base64_char(b % 16 * 4 + c / 64);
                lemma_base64_char(c % 64);
                base64_decodes(bytes.skip(3));
                let text = base64_of(bytes);
                assert(text.skip(4) =~= base64_of(bytes.skip(3)));
                assert(bytes =~= seq![bytes[0], bytes[1], bytes[2]] + bytes.skip(3));
                assert(base64_bytes(text) =~= bytes);
            }
        }
    }
}

/// Base64 text holds letters, digits, `+`, `/` and `=` only, so it cannot end
/// the comment that it stands in.
pub proof fn base64_alphabet(bytes: Seq<u8>)
    ensures
        forall|i: int|
            0 <= i < base64_of(bytes).len() ==> is_base64_char(#[trigger] base64_of(bytes)[i]),
    decreases bytes.len(),
{
    if bytes.len() > 0 {
        let a = bytes[0] as int;
        lemma_base64_char(a / 4);
        lemma_base64_char(a % 4 * 16);
        if bytes.len() > 1 {
            let b = bytes[1] as int;
            lemma_base64_char(a % 4 * 16 + b / 16);
            lemma_base64_char(b % 16 * 4);
            if bytes.len() > 2 {
                let c = bytes[2] as int;
                lemma_base64_char(b % 16 * 4 + c / 64);
                lemma_base64_char(c % 64);
                base64_alphabet(bytes.skip(3));
                let rest = base64_of(bytes.skip(3));
                assert forall|i: int| 0 <= i < base64_of(bytes).len() implies is_base64_char(
                    #[trigger] base64_of(bytes)[i],
                ) by {
                    if i >= 4 {
                        assert(base64_of(bytes)[i] == rest[i - 4]);
                    }
                }
            }
        }
    }
}

proof fn lemma_base64_len(bytes: Seq<u8>)
    ensures
        base64_of(bytes).len() == (bytes.len() + 2) / 3 * 4,
    decreases bytes.len(),
{
    if bytes.len() > 2 {
        lemma_base64_len(bytes.skip(3));
    }
}

/// Bytes can be encoded exactly if a text can be as long as their Base64 text,
/// which takes four characters for every three bytes begun.
pub proof fn base64_text_fits(bytes: Seq<u8>)
    ensures
        encodable(bytes.len()) <==> base64_of(bytes).len() <= isize::MAX,
        3 * base64_of(bytes).len() >= 4 * bytes.len(),
        3 * base64_of(bytes).len() < 4 * bytes.len() + 12,
        base64_of(bytes).len() % 4 == 0,
{
    lemma_base64_len(bytes);
}

/// The text of a record gives back the JSON that it was made from.
pub proof fn records_decode(json: Seq<char>)
    ensures
        valid_utf8(base64_bytes(record_text(json))),
        decode_utf8(base64_bytes(record_text(json))) == json,
{
    base64_decodes(encode_utf8(json));
    encode_utf8_valid_utf8(json);
    encode_utf8_decode_utf8(json);
}

} // verus!
