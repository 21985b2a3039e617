//! Digests and base64 text, computed by the `sha1`, `sha2` and `base64` crates,
//! and JSON string literals written as `serde_json` writes them.
use vstd::prelude::*;

use base64::engine::general_purpose::STANDARD;
use base64::Engine;
use sha1::{Digest, Sha1};
use sha2::Sha512;

use crate::inspector::endpoint::{hex_char, hex_digit};
use crate::text::{str_chars, string_from_chars};

verus! {

/// The SHA-1 digest of a byte string.
pub uninterp spec fn sha1_digest(data: Seq<u8>) -> Seq<u8>;

/// The SHA-512 digest of a byte string.
pub uninterp spec fn sha512_digest(data: Seq<u8>) -> Seq<u8>;

/// Base64 text of a byte string in the standard alphabet, with padding.
pub uninterp spec fn base64_text(data: Seq<u8>) -> Seq<char>;

/// A lowercase hexadecimal digit.
pub open spec fn lower_hex_digit(d: int) -> char {
    hex_digit(d as nat)
}

/// How one character is written inside a JSON string: `"` and `\` escaped
/// with a backslash; backspace, tab, line feed, form feed and carriage return
/// by their short escapes; any other character below U+0020 as `\u00` and two
/// lowercase hex digits; anything else as it is.
pub open spec fn json_char_escape(c: char) -> Seq<char> {
    if c == '"' {
        seq!['\\', '"']
    } else if c == '\\' {
        seq!['\\', '\\']
    } else if c == '\u{8}' {
        seq!['\\', 'b']
    } else if c == '\t' {
        seq!['\\', 't']
    } else if c == '\n' {
        seq!['\\', 'n']
    } else if c == '\u{c}' {
        seq!['\\', 'f']
    } else if c == '\r' {
        seq!['\\', 'r']
    } else if (c as int) < 0x20 {
        seq!['\\', 'u', '0', '0', lower_hex_digit((c as int) / 16), lower_hex_digit((c as int) % 16)]
    } else {
        seq![c]
    }
}

/// The characters of a string, each written as inside a JSON string.
pub open spec fn json_escaped(s: Seq<char>) -> Seq<char>
    decreases s.len(),
{
    if s.len() == 0 {
        Seq::empty()
    } else {
        json_escaped(s.drop_last()) + json_char_escape(s.last())
    }
}

/// A string written as a JSON string literal: its escaped characters between
/// double quotes.
pub open spec fn json_quoted(s: Seq<char>) -> Seq<char> {
    seq!['"'] + json_escaped(s) + seq!['"']
}

/// Calls `sha1::Sha1::digest` on `data`. Trusted: the digest depends on the
/// bytes alone, which the name `sha1_digest` records; nothing more is claimed.
#[verifier::external_body]
pub(crate) fn sha1(data: &[u8]) -> (digest: Vec<u8>)
    ensures
        digest@ == sha1_digest(data@),
{
    Sha1::digest(data).to_vec()
}

/// Calls `sha2::Sha512::digest` on `data`. Trusted: the digest depends on the
/// bytes alone, which the name `sha512_digest` records; nothing more is claimed.
#[verifier::external_body]
pub(crate) fn sha512(data: &[u8]) -> (digest: Vec<u8>)
    ensures
        digest@ == sha512_digest(data@),
{
    Sha512::digest(data).to_vec()
}

/// Calls `base64::Engine::encode` on the `STANDARD` engine. Trusted: the text
/// depends on the bytes alone, which the name `base64_text` records.
#[verifier::external_body]
pub(crate) fn base64_encode(data: &[u8]) -> (text: String)
    ensures
        text@ == base64_text(data@),
{
    STANDARD.encode(data)
}

/// Writes `s` as a JSON string literal: between double quotes, each character
/// escaped as `serde_json` escapes it (its `ESCAPE` table and `CharEscape`).
pub(crate) fn json_quote(s: &str) -> (text: String)
    ensures
        text@ == json_quoted(s@),
{
    let cs = str_chars(s);
    let mut out: Vec<char> = Vec::new();
    out.push('"');
    let mut i: usize = 0;
    proof {
        assert(cs@.take(0) =~= Seq::<char>::empty());
        assert(out@ =~= seq!['"'] + json_escaped(cs@.take(0)));
    }
    while i < cs.len()
        invariant
            i <= cs@.len(),
            out@ == seq!['"'] + json_escaped(cs@.take(i as int)),
        decreases cs@.len() - i,
    {
        let c = cs[i];
        let ghost before = out@;
        if c == '"' {
            out.push('\\');
            out.push('"');
        } else if c == '\\' {
            out.push('\\');
            out.push('\\');
        } else if c == '\u{8}' {
            out.push('\\');
            out.push('b');
        } else if c == '\t' {
            out.push('\\');
            out.push('t');
        } else if c == '\n' {
            out.push('\\');
            out.push('n');
        } else if c == '\u{c}' {
            out.push('\\');
            out.push('f');
        } else if c == '\r' {
            out.push('\\');
            out.push('r');
        } else if ' ' > c {
            let n: u32 = c as u32;
            proof {
                vstd::utf8::char_is_scalar(c);
                vstd::utf8::char_u32_cast(c, n);
                assert((n as char) as int == n as int);
                assert(n as int == c as int);
            }
            out.push('\\');
            out.push('u');
            out.push('0');
            out.push('0');
            out.push(hex_char((n / 16) as u8));
            out.push(hex_char((n % 16) as u8));
        } else {
            out.push(c);
        }
        proof {
            assert(cs@.take(i + 1).drop_last() =~= cs@.take(i as int));
            assert(cs@.take(i + 1).last() == c);
            assert(out@ =~= before + json_char_escape(c));
            assert(out@ =~= seq!['"'] + json_escaped(cs@.take(i + 1)));
        }
        i = i + 1;
    }
    out.push('"');
    proof {
        assert(cs@.take(cs@.len() as int) =~= cs@);
        assert(out@ =~= json_quoted(s@));
    }
    string_from_chars(out.as_slice())
}

} // verus!
