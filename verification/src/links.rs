//! Link paths: a path from the root written so that it can stand in a URL.
//! Every name is written as the bytes of its UTF-8 form; a byte that is not
//! a letter, a digit, `-`, `.`, `_` or `~` is written as `%` and two
//! hexadecimal digits.

use vstd::prelude::*;
use vstd::utf8::encode_utf8;
use crate::paths::{texts, Segments};

verus! {

/// The bytes that stand for themselves in a link: letters, digits, `-`, `.`,
/// `_` and `~`.
pub open spec fn is_unreserved(b: u8) -> bool {
    ||| 0x41 <= b <= 0x5a
    ||| 0x61 <= b <= 0x7a
    ||| 0x30 <= b <= 0x39
    ||| b == 0x2d
    ||| b == 0x2e
    ||| b == 0x5f
    ||| b == 0x7e
}

/// The hexadecimal digit for a number below 16, in upper case.
pub open spec fn hex_digit(n: int) -> char {
    if n < 10 {
        (0x30 + n) as char
    } else {
        (0x37 + n) as char
    }
}

/// One byte as it is written in a link.
pub open spec fn encoded_byte(b: u8) -> Seq<char> {
    if is_unreserved(b) {
        seq![b as char]
    } else {
        seq!['%', hex_digit(b as int / 16), hex_digit(b as int % 16)]
    }
}

/// Bytes as they are written in a link.
pub open spec fn percent_encoded(bytes: Seq<u8>) -> Seq<char>
    decreases bytes.len(),
{
    if bytes.len() == 0 {
        Seq::empty()
    } else {
        percent_encoded(bytes.drop_last()) + encoded_byte(bytes.last())
    }
}

/// A name as it is written in a link.
pub open spec fn encoded_name(name: Seq<char>) -> Seq<char> {
    percent_encoded(encode_utf8(name))
}

/// The names as they are written in a link, each behind a separator.
pub open spec fn linked(path: Segments) -> Seq<char>
    decreases path.len(),
{
    if path.len() == 0 {
        Seq::empty()
    } else {
        linked(path.drop_last()) + seq!['/'] + encoded_name(path.last())
    }
}

/// The link path of a path from the root: rooted at a separator, every name
/// behind one; the root itself is a lone separator.
pub open spec fn link_path(path: Segments) -> Seq<char> {
    if path.len() == 0 {
        seq!['/']
    } else {
        linked(path)
    }
}

/// The characters of which a link path is made: what stands for itself, the
/// separator, and the sign `%`.
pub open spec fn is_url_safe(c: char) -> bool {
    ||| 'A' <= c <= 'Z'
    ||| 'a' <= c <= 'z'
    ||| '0' <= c <= '9'
    ||| c == '-'
    ||| c == '.'
    ||| c == '_'
    ||| c == '~'
    ||| c == '/'
    ||| c == '%'
}

/// Every character of the text is safe in a URL.
pub open spec fn all_url_safe(text: Seq<char>) -> bool {
    forall|i: int| 0 <= i < text.len() ==> is_url_safe(#[trigger] text[i])
}

/// Encoded bytes are safe in a URL.
pub proof fn lemma_percent_encoded_is_url_safe(bytes: Seq<u8>)
    ensures
        all_url_safe(percent_encoded(bytes)),
    decreases bytes.len(),
{
    if bytes.len() > 0 {
        lemma_percent_encoded_is_url_safe(bytes.drop_last());
        let b = bytes.last();
        let piece = encoded_byte(b);
        assert(all_url_safe(piece)) by {
            if is_unreserved(b) {
                assert(is_url_safe(b as char));
            } else {
                assert(is_url_safe(hex_digit(b as int / 16)));
                assert(is_url_safe(hex_digit(b as int % 16)));
            }
        }
    }
}

/// A link path holds only characters that are safe in a URL, and begins with
/// a separator.
pub proof fn lemma_link_path_is_url_safe(path: Segments)
    ensures
        all_url_safe(link_path(path)),
        link_path(path).len() > 0,
        link_path(path)[0] == '/',
    decreases path.len(),
{
    if path.len() > 0 {
        let before = path.drop_last();
        lemma_link_path_is_url_safe(before);
        lemma_percent_encoded_is_url_safe(encode_utf8(path.last()));
        if before.len() == 0 {
            assert(linked(before) == Seq::<char>::empty());
        }
    }
}

/// `String::push`: the character is added at the end of the text.
#[verifier::external_body]
fn push_char(text: &mut String, c: char)
    ensures
        final(text)@ == old(text)@.push(c),
{
    text.push(c)
}

/// The character of an unreserved byte.
fn plain_char(b: u8) -> (c: char)
    requires
        is_unreserved(b),
    ensures
        c == b as char,
{
    b as char
}

/// The hexadecimal digit for a number below 16.
fn hex_char(n: u8) -> (c: char)
    requires
        n < 16,
    ensures
        c == hex_digit(n as int),
{
    if n < 10 {
        (0x30 + n) as char
    } else {
        (0x37 + n) as char
    }
}

/// Whether the byte stands for itself in a link.
fn unreserved(b: u8) -> (r: bool)
    ensures
        r == is_unreserved(b),
{
    (0x41 <= b && b <= 0x5a) || (0x61 <= b && b <= 0x7a) || (0x30 <= b && b <= 0x39) || b == 0x2d
        || b == 0x2e || b == 0x5f || b == 0x7e
}

/// Adds a name to a link, as it is written there.
pub fn append_encoded(link: &mut String, name: &str)
    ensures
        final(link)@ == old(link)@ + encoded_name(name@),
{
    let bytes = name.as_bytes();
    let n: usize = bytes.len();
    let mut i: usize = 0;
    proof {
        assert(bytes@.take(0) == Seq::<u8>::empty());
        assert(link@ + Seq::<char>::empty() == link@);
    }
    while i < n
        invariant
            n == bytes@.len(),
            bytes@ == encode_utf8(name@),
            i <= n,
            link@ == old(link)@ + percent_encoded(bytes@.take(i as int)),
        decreases n - i,
    {
        let b: u8 = bytes[i];
        proof {
            let upto = bytes@.take(i + 1);
            assert(upto.drop_last() == bytes@.take(i as int));
            assert(upto.last() == b);
        }
        let ghost before = link@;
        if unreserved(b) {
            push_char(link, plain_char(b));
            proof {
                assert(link@ == before + encoded_byte(b));
            }
        } else {
            push_char(link, '%');
            push_char(link, hex_char(b / 16));
            push_char(link, hex_char(b % 16));
            proof {
                assert(link@ == before + encoded_byte(b));
            }
        }
        proof {
            assert(link@ == old(link)@ + percent_encoded(bytes@.take(i + 1)));
        }
        i = i + 1;
    }
    proof {
        assert(bytes@.take(n as int) == bytes@);
    }
}

/// Writes a path from the root as a link path.
pub fn to_link(path: &Vec<String>) -> (out: String)
    ensures
        out@ == link_path(texts(path@)),
{
    let n: usize = path.len();
    let mut out = String::new();
    if n == 0 {
        push_char(&mut out, '/');
        proof {
            assert(out@ == seq!['/']);
        }
        return out;
    }
    let mut i: usize = 0;
    proof {
        assert(texts(path@).take(0) == Segments::empty());
    }
    while i < n
        invariant
            n == path.len(),
            i <= n,
            out@ == linked(texts(path@).take(i as int)),
        decreases n - i,
    {
        proof {
            let upto = texts(path@).take(i + 1);
            assert(upto.drop_last() == texts(path@).take(i as int));
            assert(upto.last() == path@[i as int]@);
        }
        push_char(&mut out, '/');
        append_encoded(&mut out, path[i].as_str());
        i = i + 1;
    }
    proof {
        assert(texts(path@).take(n as int) == texts(path@));
    }
    out
}

} // verus!
