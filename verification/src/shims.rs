//! Trusted wrappers around outside-crate and standard-library calls
//! that the verified core relies on.  Each wrapper's contract states
//! what the wrapped function's documentation or source promises, and
//! nothing more; everything downstream of these contracts is proved.

use vstd::prelude::*;
use base64::Engine;
use rustc_apfloat::Float;
use std::io::Write;

verus! {

/// The standard (RFC 4648, padded) base64 text of a byte sequence.
pub uninterp spec fn base64_of(b: Seq<u8>) -> Seq<char>;

/// The decimal text that the software-float library prints for the IEEE
/// 754 double-precision value with bit pattern `bits`.  It depends on
/// the bits alone.
pub uninterp spec fn double_text(bits: u64) -> Seq<char>;

/// Relies on base64's `Engine::encode` with the standard padded
/// alphabet: the result is a pure function of the input bytes.  The
/// call panics only when the encoded length overflows `usize`, which
/// the precondition rules out.
#[verifier::external_body]
pub fn base64_encode(b: &Vec<u8>) -> (r: String)
    requires
        b@.len() <= (usize::MAX - 4) as int / 4 * 3,
    ensures
        r@ == base64_of(b@),
{
    base64::engine::general_purpose::STANDARD.encode(b)
}

/// Relies on rustc_apfloat: `ieee::Double::from_bits` followed by its
/// `Display` implementation, a deterministic function of the bits.
#[verifier::external_body]
pub fn render_double(bits: u64) -> (r: String)
    ensures
        r@ == double_text(bits),
{
    let value = rustc_apfloat::ieee::Double::from_bits(bits as u128);
    format!("{}", value)
}

/// Relies on `String::push`: appends one character.
#[verifier::external_body]
pub fn push_char(s: &mut String, c: char)
    ensures
        final(s)@ == old(s)@.push(c),
{
    s.push(c);
}

/// Relies on `core::str::from_utf8`: returns the decoded string exactly
/// when the bytes are valid UTF-8 (the encoding of the returned text is
/// the input), and an error otherwise.
#[verifier::external_body]
pub fn bytes_to_string(v: &Vec<u8>) -> (r: Option<String>)
    ensures
        match r {
            Some(s) => vstd::utf8::valid_utf8(v@) && vstd::utf8::encode_utf8(s@) == v@,
            None => !vstd::utf8::valid_utf8(v@),
        },
{
    match core::str::from_utf8(v.as_slice()) {
        Ok(s) => Some(s.to_owned()),
        Err(_) => None,
    }
}

/// Relies on std's `println!`-style output through `Stdout`: writes one
/// line to standard output.
#[verifier::external_body]
pub fn print_line(s: &str) {
    let mut out = std::io::stdout();
    let _ = writeln!(out, "{}", s);
}

} // verus!
