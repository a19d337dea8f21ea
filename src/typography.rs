//! The packets exchanged with the TeX renderer. Every number is a
//! little-endian `u32`; requests begin with their packet id, and each string is
//! sent as its length followed by its bytes.
use vstd::prelude::*;
use vstd::string::StringSliceAdditionalSpecFns;

use crate::misc::{push_str, u32_le};

verus! {

/// Asks for a TeX string to be rendered to SVG.
pub const CONVERSION_REQUEST: u32 = 0;

/// Asks for the stylesheet that the rendered SVG fragments rely on.
pub const STYLESHEET_REQUEST: u32 = 1;

/// Asks the renderer to exit.
pub const SHUTDOWN_REQUEST: u32 = 2;

/// The four little-endian bytes of `n`.
pub open spec fn le_bytes(n: u32) -> Seq<u8> {
    seq![(n % 256) as u8, ((n / 256) % 256) as u8, ((n / 65536) % 256) as u8, (n / 16777216) as u8]
}

/// Appends the four little-endian bytes of `n`.
pub fn push_u32_le(out: &mut Vec<u8>, n: u32)
    ensures
        final(out)@ == old(out)@ + le_bytes(n),
{
    out.push((n % 256) as u8);
    out.push(((n / 256) % 256) as u8);
    out.push(((n / 65536) % 256) as u8);
    out.push((n / 16777216) as u8);
    assert(out@ =~= old(out)@ + le_bytes(n));
}

/// Reading back the bytes written for `n` gives `n`.
pub proof fn lemma_le_bytes_round_trip(n: u32)
    ensures
        u32_le(le_bytes(n)[0], le_bytes(n)[1], le_bytes(n)[2], le_bytes(n)[3]) == n,
{
}

/// A string as the renderer reads it: its length, then its bytes.
pub open spec fn framed(bytes: Seq<u8>) -> Seq<u8> {
    le_bytes(bytes.len() as u32) + bytes
}

/// The packet that asks for `tex` to be rendered, with the
/// `preserveAspectRatio` hint when there is one (an absent hint is sent as the
/// empty string).
pub open spec fn conversion_request_spec(preserve_aspect_ratio: Option<&str>, tex: &str) -> Seq<u8> {
    let par = match preserve_aspect_ratio {
        Some(p) => p.spec_bytes(),
        None => Seq::empty(),
    };
    le_bytes(CONVERSION_REQUEST) + framed(par) + framed(tex.spec_bytes())
}

fn push_framed(out: &mut Vec<u8>, s: &str)
    requires
        s.spec_bytes().len() <= u32::MAX,
    ensures
        final(out)@ == old(out)@ + framed(s.spec_bytes()),
{
    let len = s.len() as u32;
    push_u32_le(out, len);
    push_str(out, s);
    assert(out@ =~= old(out)@ + framed(s.spec_bytes()));
}

/// The conversion request for `tex`; each string must be shorter than 2^32
/// bytes.
pub fn conversion_request(preserve_aspect_ratio: Option<&str>, tex: &str) -> (r: Vec<u8>)
    requires
        preserve_aspect_ratio matches Some(p) ==> p.spec_bytes().len() <= u32::MAX,
        tex.spec_bytes().len() <= u32::MAX,
    ensures
        r@ == conversion_request_spec(preserve_aspect_ratio, tex),
{
    let mut out: Vec<u8> = Vec::new();
    push_u32_le(&mut out, CONVERSION_REQUEST);
    match preserve_aspect_ratio {
        Some(p) => push_framed(&mut out, p),
        None => push_u32_le(&mut out, 0),
    }
    let ghost mid = out@;
    push_framed(&mut out, tex);
    proof {
        let par = match preserve_aspect_ratio {
            Some(p) => p.spec_bytes(),
            None => Seq::empty(),
        };
        assert(mid =~= le_bytes(CONVERSION_REQUEST) + framed(par));
        assert(out@ =~= conversion_request_spec(preserve_aspect_ratio, tex));
    }
    out
}

/// The request for the renderer's stylesheet.
pub fn stylesheet_request() -> (r: Vec<u8>)
    ensures
        r@ == le_bytes(STYLESHEET_REQUEST),
{
    let mut out: Vec<u8> = Vec::new();
    push_u32_le(&mut out, STYLESHEET_REQUEST);
    assert(out@ =~= le_bytes(STYLESHEET_REQUEST));
    out
}

/// The request that ends the renderer.
pub fn shutdown_request() -> (r: Vec<u8>)
    ensures
        r@ == le_bytes(SHUTDOWN_REQUEST),
{
    let mut out: Vec<u8> = Vec::new();
    push_u32_le(&mut out, SHUTDOWN_REQUEST);
    assert(out@ =~= le_bytes(SHUTDOWN_REQUEST));
    out
}

} // verus!
