//! The encoding that a DNS message has in a URL: base64 with the alphabet for
//! URLs, without padding.
use vstd::prelude::*;
use base64::engine::general_purpose::URL_SAFE_NO_PAD;
use base64::Engine;

verus! {

/// The six bits that a character stands for.
pub open spec fn sextet(c: char) -> Option<int> {
    if 'A' <= c <= 'Z' {
        Some(c as int - 'A' as int)
    } else if 'a' <= c <= 'z' {
        Some(c as int - 'a' as int + 26)
    } else if '0' <= c <= '9' {
        Some(c as int - '0' as int + 52)
    } else if c == '-' {
        Some(62)
    } else if c == '_' {
        Some(63)
    } else {
        None
    }
}

/// The character that stands for six bits.
pub open spec fn digit(bits: int) -> char {
    if bits < 26 {
        ('A' as int + bits) as char
    } else if bits < 52 {
        ('a' as int + bits - 26) as char
    } else if bits < 62 {
        ('0' as int + bits - 52) as char
    } else if bits == 62 {
        '-'
    } else {
        '_'
    }
}

/// The bytes that a text is the encoding of, if it is one: four characters are
/// three bytes, and of two or three characters at the end the bits that make
/// no whole byte are zero.
pub open spec fn decoded(s: Seq<char>) -> Option<Seq<u8>>
    decreases s.len(),
{
    if s.len() == 0 {
        Some(Seq::empty())
    } else if s.len() == 1 {
        None
    } else {
        match (sextet(s[0]), sextet(s[1])) {
            (Some(a), Some(b)) => {
                let first = (a * 4 + b / 16) as u8;
                if s.len() == 2 {
                    if b % 16 == 0 {
                        Some(seq![first])
                    } else {
                        None
                    }
                } else {
                    match sextet(s[2]) {
                        None => None,
                        Some(c) => {
                            let second = (b % 16 * 16 + c / 4) as u8;
                            if s.len() == 3 {
                                if c % 4 == 0 {
                                    Some(seq![first, second])
                                } else {
                                    None
                                }
                            } else {
                                match (sextet(s[3]), decoded(s.skip(4))) {
                                    (Some(d), Some(rest)) => Some(
                                        seq![first, second, (c % 4 * 64 + d) as u8] + rest,
                                    ),
                                    _ => None,
                                }
                            }
                        },
                    }
                }
            },
            _ => None,
        }
    }
}

/// The encoding of bytes.
pub open spec fn encoded(bytes: Seq<u8>) -> Seq<char>
    decreases bytes.len(),
{
    if bytes.len() == 0 {
        Seq::empty()
    } else if bytes.len() == 1 {
        seq![digit(bytes[0] as int / 4), digit(bytes[0] as int % 4 * 16)]
    } else if bytes.len() == 2 {
        seq![
            digit(bytes[0] as int / 4),
            digit(bytes[0] as int % 4 * 16 + bytes[1] as int / 16),
            digit(bytes[1] as int % 16 * 4),
        ]
    } else {
        seq![
            digit(bytes[0] as int / 4),
            digit(bytes[0] as int % 4 * 16 + bytes[1] as int / 16),
            digit(bytes[1] as int % 16 * 4 + bytes[2] as int / 64),
            digit(bytes[2] as int % 64),
        ] + encoded(bytes.skip(3))
    }
}

/// `decode` of `base64`'s engine `URL_SAFE_NO_PAD`: the bytes that the text is
/// the encoding of; any character outside the alphabet, padding, a single
/// character at the end and bits that are left over are errors.
#[verifier::external_body]
pub(crate) fn decode(text: &str) -> (bytes: Option<Vec<u8>>)
    ensures
        match bytes {
            Some(b) => decoded(text@) == Some(b@),
            None => decoded(text@) is None,
        },
{
    URL_SAFE_NO_PAD.decode(text).ok()
}

proof fn lemma_digit(bits: int)
    requires
        0 <= bits < 64,
    ensures
        sextet(digit(bits)) == Some(bits),
        digit(bits) != '&',
{
}

/// The encoding of bytes is decoded to them.
pub proof fn law_what_is_encoded_is_decoded(bytes: Seq<u8>)
    ensures
        decoded(encoded(bytes)) == Some(bytes),
        !encoded(bytes).contains('&'),
    decreases bytes.len(),
{
    let s = encoded(bytes);
    if bytes.len() == 0 {
        assert(decoded(s) == Some(Seq::<u8>::empty()));
        assert(bytes =~= Seq::<u8>::empty());
    } else if bytes.len() == 1 {
        lemma_digit(bytes[0] as int / 4);
        lemma_digit(bytes[0] as int % 4 * 16);
        assert(decoded(s) == Some(seq![bytes[0]]));
        assert(bytes =~= seq![bytes[0]]);
    } else if bytes.len() == 2 {
        lemma_digit(bytes[0] as int / 4);
        lemma_digit(bytes[0] as int % 4 * 16 + bytes[1] as int / 16);
        lemma_digit(bytes[1] as int % 16 * 4);
        assert(decoded(s) == Some(seq![bytes[0], bytes[1]]));
        assert(bytes =~= seq![bytes[0], bytes[1]]);
    } else {
        lemma_digit(bytes[0] as int / 4);
        lemma_digit(bytes[0] as int % 4 * 16 + bytes[1] as int / 16);
        lemma_digit(bytes[1] as int % 16 * 4 + bytes[2] as int / 64);
        lemma_digit(bytes[2] as int % 64);
        let rest = encoded(bytes.skip(3));
        law_what_is_encoded_is_decoded(bytes.skip(3));
        assert(s.skip(4) =~= rest);
        assert(decoded(s) == Some(seq![bytes[0], bytes[1], bytes[2]] + bytes.skip(3)));
        assert(bytes =~= seq![bytes[0], bytes[1], bytes[2]] + bytes.skip(3));
        assert forall|i: int| 0 <= i < s.len() implies s[i] != '&' by {
            if i >= 4 {
                assert(s[i] == rest[i - 4]);
                assert(rest.contains(rest[i - 4]));
            }
        }
    }
}

/// The alphabet: each six bits have a character of their own, and no other
/// character stands for any.
pub proof fn law_the_alphabet(c: char, bits: int)
    requires
        0 <= bits < 64,
    ensures
        sextet(c) == Some(bits) <==> c
            == "ABCDEFGHIJKLMNOPQRSTUVWXYZabcdefghijklmnopqrstuvwxyz0123456789-_"@[bits],
        digit(bits) == "ABCDEFGHIJKLMNOPQRSTUVWXYZabcdefghijklmnopqrstuvwxyz0123456789-_"@[bits],
        sextet(c) matches Some(n) ==> 0 <= n < 64,
{
    reveal_strlit("ABCDEFGHIJKLMNOPQRSTUVWXYZabcdefghijklmnopqrstuvwxyz0123456789-_");
}

/// A text is decoded to bytes if and only if it is their encoding.
pub proof fn law_only_encodings_are_decoded(s: Seq<char>, bytes: Seq<u8>)
    ensures
        decoded(s) == Some(bytes) <==> s == encoded(bytes),
    decreases s.len(),
{
    if decoded(s) == Some(bytes) {
        if s.len() == 0 {
            assert(encoded(bytes) =~= s);
        } else if s.len() == 2 {
            assert(encoded(bytes) =~= s);
        } else if s.len() == 3 {
            assert(encoded(bytes) =~= s);
        } else {
            let rest = decoded(s.skip(4))->0;
            law_only_encodings_are_decoded(s.skip(4), rest);
            assert(bytes.skip(3) =~= rest);
            let a = sextet(s[0])->0;
            let b = sextet(s[1])->0;
            let c = sextet(s[2])->0;
            let d = sextet(s[3])->0;
            assert(bytes[0] as int / 4 == a && bytes[0] as int % 4 == b / 16);
            assert(bytes[1] as int / 16 == b % 16 && bytes[1] as int % 16 == c / 4);
            assert(bytes[2] as int / 64 == c % 4 && bytes[2] as int % 64 == d);
            assert(b / 16 * 16 + b % 16 == b);
            assert(c / 4 * 4 + c % 4 == c);
            assert(digit(a) == s[0] && digit(b) == s[1] && digit(c) == s[2] && digit(d) == s[3]);
            assert(encoded(bytes) =~= s);
        }
    }
    law_what_is_encoded_is_decoded(bytes);
}

/// Three bytes are four characters of the same bits, the first byte's in front.
pub proof fn law_three_bytes_are_four_characters(a: u8, b: u8, c: u8, rest: Seq<u8>)
    ensures
        ({
            let s = encoded(seq![a, b, c] + rest);
            &&& s.len() >= 4
            &&& s.skip(4) == encoded(rest)
            &&& sextet(s[0]) is Some && sextet(s[1]) is Some && sextet(s[2]) is Some && sextet(
                s[3],
            ) is Some
            &&& (a * 256 + b) * 256 + c == ((sextet(s[0])->0 * 64 + sextet(s[1])->0) * 64 + sextet(
                s[2],
            )->0) * 64 + sextet(s[3])->0
        }),
{
    let bytes = seq![a, b, c] + rest;
    let s = encoded(bytes);
    assert(bytes.skip(3) =~= rest);
    assert(s.skip(4) =~= encoded(rest));
    lemma_digit(a as int / 4);
    lemma_digit(a as int % 4 * 16 + b as int / 16);
    lemma_digit(b as int % 16 * 4 + c as int / 64);
    lemma_digit(c as int % 64);
}

} // verus!
