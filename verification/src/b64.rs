//! Base64 (RFC 4648, standard alphabet, padded) encoding and decoding of
//! file contents, and the names of the files written.

use vstd::prelude::*;
use base64::Engine;
use crate::text::{append_str, owned};

verus! {

/// The character for a 6-bit value in the standard alphabet.
pub open spec fn b64_char(x: int) -> char {
    if x < 26 {
        (65 + x) as char
    } else if x < 52 {
        (97 + x - 26) as char
    } else if x < 62 {
        (48 + x - 52) as char
    } else if x == 62 {
        '+'
    } else {
        '/'
    }
}

/// The padded standard Base64 text of some bytes: each group of three
/// bytes becomes four characters; a last group of one or two bytes is
/// padded with `=`.
pub open spec fn b64_text(d: Seq<u8>) -> Seq<char>
    decreases d.len(),
{
    if d.len() == 0 {
        Seq::empty()
    } else if d.len() == 1 {
        let a = d[0] as int;
        seq![b64_char(a / 4), b64_char((a % 4) * 16), '=', '=']
    } else if d.len() == 2 {
        let a = d[0] as int;
        let b = d[1] as int;
        seq![b64_char(a / 4), b64_char((a % 4) * 16 + b / 16), b64_char((b % 16) * 4), '=']
    } else {
        let a = d[0] as int;
        let b = d[1] as int;
        let c = d[2] as int;
        seq![b64_char(a / 4), b64_char((a % 4) * 16 + b / 16), b64_char((b % 16) * 4 + c / 64), b64_char(c % 64)]
            + b64_text(d.skip(3))
    }
}

/// The bytes that decoding the given input with the padded standard
/// engine yields: the bytes whose canonical encoding the input is, or
/// `None` when it is the canonical encoding of no bytes.
pub open spec fn b64_decoded(input: Seq<u8>) -> Option<Seq<u8>> {
    if exists|e: Seq<u8>| input == vstd::utf8::encode_utf8(#[trigger] b64_text(e)) {
        Some(choose|e: Seq<u8>| input == vstd::utf8::encode_utf8(#[trigger] b64_text(e)))
    } else {
        None
    }
}

/// The length of an encoding: four characters per started group of three.
pub open spec fn b64_len(n: int) -> int {
    n / 3 * 4 + if n % 3 > 0 { 4int } else { 0int }
}

/// Why a text is no Base64: a byte outside the alphabet (its offset and
/// value), a length that no encoding has, a last symbol with bits left
/// over (its offset and value), or padding that is not canonical.
#[derive(Clone, Copy, Debug, PartialEq, Eq, Structural)]
pub enum B64Error {
    InvalidByte(usize, u8),
    InvalidLength(usize),
    InvalidLastSymbol(usize, u8),
    InvalidPadding,
}

/// `STANDARD.encode` of the `base64` crate (padded RFC 4648 standard
/// alphabet); it panics when the length of the result overflows `usize`.
#[verifier::external_body]
fn standard_encode(data: &[u8]) -> (s: String)
    requires
        b64_len(data@.len() as int) <= usize::MAX,
    ensures
        s@ == b64_text(data@),
{
    base64::engine::general_purpose::STANDARD.encode(data)
}

/// `STANDARD.decode` of the `base64` crate: the decoded bytes, or its
/// error, variant for variant. The engine accepts exactly the canonical
/// padded encodings (see `b64_decoded`), and the canonical encoding of any
/// bytes decodes back to them. Which error comes for which input is not
/// stated.
#[verifier::external_body]
fn standard_decode(input: &[u8]) -> (r: Result<Vec<u8>, B64Error>)
    ensures
        match r {
            Ok(d) => b64_decoded(input@) == Some(d@)
                && forall|e: Seq<u8>| input@ == vstd::utf8::encode_utf8(#[trigger] b64_text(e)) ==> d@ == e,
            Err(_) => b64_decoded(input@) is None
                && forall|e: Seq<u8>| input@ != vstd::utf8::encode_utf8(#[trigger] b64_text(e)),
        },
{
    match base64::engine::general_purpose::STANDARD.decode(input) {
        Ok(d) => Ok(d),
        Err(base64::DecodeError::InvalidByte(i, b)) => Err(B64Error::InvalidByte(i, b)),
        Err(base64::DecodeError::InvalidLength(n)) => Err(B64Error::InvalidLength(n)),
        Err(base64::DecodeError::InvalidLastSymbol(i, b)) => Err(B64Error::InvalidLastSymbol(i, b)),
        Err(base64::DecodeError::InvalidPadding) => Err(B64Error::InvalidPadding),
    }
}

/// The Base64 text of a file's contents.
pub fn encode_contents(data: &[u8]) -> (s: String)
    requires
        b64_len(data@.len() as int) <= usize::MAX,
    ensures
        s@ == b64_text(data@),
{
    standard_encode(data)
}

/// The bytes of a Base64 text, white space around it ignored. Decoding
/// what `encode_contents` gives returns the original bytes.
pub fn decode_text(text: &str) -> (r: Result<Vec<u8>, B64Error>)
    ensures
        match r {
            Ok(d) => b64_decoded(vstd::utf8::encode_utf8(crate::text::trim(text@))) == Some(d@),
            Err(_) => b64_decoded(vstd::utf8::encode_utf8(crate::text::trim(text@))) is None,
        },
        forall|d: Seq<u8>| crate::text::trim(text@) == #[trigger] b64_text(d) ==> (r matches Ok(x) && x@ == d),
{
    let t = crate::text::trim_str(text);
    let bytes = t.as_str().as_bytes();
    let r = standard_decode(bytes);
    assert forall|d: Seq<u8>| crate::text::trim(text@) == #[trigger] b64_text(d) implies (r matches Ok(x) && x@ == d) by {
        assert(bytes@ == vstd::utf8::encode_utf8(b64_text(d)));
        match r {
            Ok(x) => {},
            Err(_) => {
                assert(bytes@ != vstd::utf8::encode_utf8(b64_text(d)));
            },
        }
    }
    r
}

/// The file the encoding of `path` is written to: its extension gets
/// `.b64` appended (`Path::with_extension`).
pub open spec fn encoded_path_of(path: Seq<char>) -> Seq<char> {
    let ext = match crate::paths::extension(path) {
        Some(e) => e,
        None => Seq::empty(),
    };
    crate::paths::with_extension(path, ext + ".b64"@)
}

/// The file the decoding of `path` is written to: without a `.b64`
/// ending, or with the extension `decoded`.
pub open spec fn decoded_path_of(path: Seq<char>) -> Seq<char> {
    if path.len() >= 4 && path.skip(path.len() - 4) == ".b64"@ {
        path.take(path.len() - 4)
    } else {
        crate::paths::with_extension(path, "decoded"@)
    }
}

/// Where the encoding of the file at `path` goes.
pub fn encoded_path(path: &str) -> (r: String)
    ensures
        r@ == encoded_path_of(path@),
{
    let mut ext = match crate::paths::extension_of(path) {
        Some(e) => e,
        None => String::new(),
    };
    append_str(&mut ext, ".b64");
    crate::paths::with_extension_of(path, ext.as_str())
}

/// Where the decoding of the file at `path` goes.
pub fn decoded_path(path: &str) -> (r: String)
    ensures
        r@ == decoded_path_of(path@),
{
    proof {
        reveal_strlit(".b64");
    }
    let v = crate::text::chars_of(path);
    let n = v.len();
    if n >= 4 && v[n - 4] == '.' && v[n - 3] == 'b' && v[n - 2] == '6' && v[n - 1] == '4' {
        assert(v@.skip(n - 4) =~= ".b64"@);
        crate::text::string_of(v.as_slice(), 0, n - 4)
    } else {
        proof {
            if n >= 4 && v@.skip(n - 4) == ".b64"@ {
                assert(v@.skip(n - 4)[0] == v@[n - 4]);
                assert(v@.skip(n - 4)[1] == v@[n - 3]);
                assert(v@.skip(n - 4)[2] == v@[n - 2]);
                assert(v@.skip(n - 4)[3] == v@[n - 1]);
            }
        }
        crate::paths::with_extension_of(path, "decoded")
    }
}

/// `Base64 encoded <n> file(s)`.
pub open spec fn encoded_message(n: nat) -> Seq<char> {
    "Base64 encoded "@ + crate::numfmt::decimal(n) + " file(s)"@
}

/// `Base64 decoded <n> file(s)`, or `Decoded <n>, <e> error(s)` when some
/// failed.
pub open spec fn decoded_message(n: nat, errors: nat) -> Seq<char> {
    if errors > 0 {
        "Decoded "@ + crate::numfmt::decimal(n) + ", "@ + crate::numfmt::decimal(errors) + " error(s)"@
    } else {
        "Base64 decoded "@ + crate::numfmt::decimal(n) + " file(s)"@
    }
}

/// The status after encoding `n` files.
pub fn encoded_status(n: usize) -> (s: String)
    ensures
        s@ == encoded_message(n as nat),
{
    let mut s = owned("Base64 encoded ");
    append_str(&mut s, crate::numfmt::u64_to_decimal(n as u64).as_str());
    append_str(&mut s, " file(s)");
    s
}

/// The status after decoding `n` files with `errors` failures.
pub fn decoded_status(n: usize, errors: usize) -> (s: String)
    ensures
        s@ == decoded_message(n as nat, errors as nat),
{
    if errors > 0 {
        let mut s = owned("Decoded ");
        append_str(&mut s, crate::numfmt::u64_to_decimal(n as u64).as_str());
        append_str(&mut s, ", ");
        append_str(&mut s, crate::numfmt::u64_to_decimal(errors as u64).as_str());
        append_str(&mut s, " error(s)");
        s
    } else {
        let mut s = owned("Base64 decoded ");
        append_str(&mut s, crate::numfmt::u64_to_decimal(n as u64).as_str());
        append_str(&mut s, " file(s)");
        s
    }
}

} // verus!
