//! Trusted declarations: the few points where the library relies on an
//! outside crate or on a std function that vstd gives no specification.
//! Everything else in the crate is verified against these contracts.

use std::io::Read;
use std::io::Write;
use vstd::prelude::*;
use vstd::utf8::{decode_utf8, valid_utf8};

verus! {

/// Relies on `String::from_utf8`: it succeeds exactly on well-formed UTF-8
/// and returns the string whose bytes are the input.
#[verifier::external_body]
pub(crate) fn bytes_to_string(v: Vec<u8>) -> (r: Option<String>)
    ensures
        r is Some <==> valid_utf8(v@),
        r is Some ==> r->0@ == decode_utf8(v@),
{
    String::from_utf8(v).ok()
}

/// What gzip decompression yields on a byte sequence: `None` where the bytes
/// are not a well-formed gzip stream. Decompression is a function of the
/// bytes alone.
pub uninterp spec fn gunzip_of(b: Seq<u8>) -> Option<Seq<u8>>;

/// Relies on flate2's `GzEncoder` writing into a `Vec`: such a sink never
/// fails, so a stream is always produced, and it decompresses back to the
/// input.
#[verifier::external_body]
pub(crate) fn gzip_compress(data: &Vec<u8>) -> (r: Option<Vec<u8>>)
    ensures
        r is Some,
        r is Some ==> gunzip_of(r->0@) == Some(data@),
{
    let mut enc = flate2::write::GzEncoder::new(
        Vec::with_capacity(data.len() / 2 + 16),
        flate2::Compression::fast(),
    );
    match enc.write_all(data.as_slice()).and_then(|_| enc.finish()) {
        Ok(v) => Some(v),
        Err(_) => None,
    }
}

/// Relies on flate2's `GzDecoder`: it computes exactly gzip decompression,
/// failing on streams that are not well-formed gzip.
#[verifier::external_body]
pub(crate) fn gzip_decompress(data: &Vec<u8>) -> (r: Option<Vec<u8>>)
    ensures
        r is Some <==> gunzip_of(data@) is Some,
        r is Some ==> Some(r->0@) == gunzip_of(data@),
{
    let mut out = Vec::new();
    let mut dec = flate2::read::GzDecoder::new(data.as_slice());
    match dec.read_to_end(&mut out) {
        Ok(_) => Some(out),
        Err(_) => None,
    }
}

/// The terminal styling value of the tui crate; opaque here, carried for
/// the drawing layer.
#[verifier::external_type_specification]
#[verifier::external_body]
pub struct ExStyle(tui::style::Style);

/// A bordered box of the tui crate; opaque here, carried for the drawing
/// layer.
#[verifier::external_type_specification]
#[verifier::external_body]
pub struct ExBlock<'a>(tui::widgets::Block<'a>);

/// Relies on tui's `Style::default` for an unstyled value; nothing is
/// assumed of it.
#[verifier::external_body]
pub(crate) fn default_style() -> tui::style::Style {
    tui::style::Style::default()
}

/// Relies on tui's `Style::default` and `Modifier::BOLD` for a bold header
/// style; nothing is assumed of it.
#[verifier::external_body]
pub(crate) fn bold_style() -> tui::style::Style {
    tui::style::Style::default().add_modifier(tui::style::Modifier::BOLD)
}

} // verus!
