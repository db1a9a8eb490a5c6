//! QR codes of URLs: the code a URL is shown as, built by the `qrcode` crate at error
//! correction level M.
use vstd::prelude::*;
use vstd::utf8::*;
use vstd::string::*;
use crate::sanitize::SanitizedUrl;

verus! {

broadcast use vstd::string::group_string_axioms;

/// The QR code that `qrcode` builds for the bytes `data` at error correction level M: its
/// width in modules, and its modules row by row, `true` for dark. None when the data does not
/// fit in any QR code.
pub uninterp spec fn qr_code(data: Seq<u8>) -> Option<(nat, Seq<bool>)>;

/// `qrcode::QrCode::with_error_correction_level(data, EcLevel::M)`, then its width and its
/// modules as booleans, dark `true` (`into_vec`). The contract names the result `qr_code` of
/// the bytes and says no more of it: which modules are dark takes the QR standard to state.
#[verifier::external_body]
fn qr_encode(data: &[u8]) -> (r: Option<(usize, Vec<bool>)>)
    ensures
        match qr_code(data@) {
            Some((w, m)) => r matches Some((rw, rm)) && rw == w && rm@ == m,
            None => r is None,
        },
{
    match qrcode::QrCode::with_error_correction_level(data, qrcode::EcLevel::M) {
        Ok(code) => {
            let width = code.width();
            #[allow(deprecated)]
            let modules = code.into_vec();
            Some((width, modules))
        },
        Err(_) => None,
    }
}

/// The QR code a checked URL is shown as: that of its UTF-8 bytes, which a scan gives back
/// byte for byte.
pub fn url_qr(url: &SanitizedUrl) -> (r: Option<(usize, Vec<bool>)>)
    ensures
        match qr_code(encode_utf8(url@)) {
            Some((w, m)) => r matches Some((rw, rm)) && rw == w && rm@ == m,
            None => r is None,
        },
{
    let s = url.as_str();
    qr_encode(s.as_bytes())
}

} // verus!
