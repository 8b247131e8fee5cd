//! QR code rendering as an inline SVG string that the popup can drop straight
//! into the page.
use vstd::prelude::*;

use qrcode::render::svg;
use qrcode::{EcLevel, QrCode};

use crate::text::starts_with;

verus! {

/// How much of a QR code may be damaged and still be read back.
#[derive(Debug, Clone, Copy, PartialEq, Eq, Structural)]
pub enum QrLevel {
    /// About 7% of the blocks.
    Low,
    /// About 15% of the blocks.
    Medium,
    /// About 25% of the blocks.
    Quartile,
    /// About 30% of the blocks.
    High,
}

/// The SVG image that the `qrcode` crate renders for `data`, or `None` where
/// the data does not fit in any QR code of that level.
pub uninterp spec fn qr_svg_image(
    data: Seq<u8>,
    level: QrLevel,
    min_size: u32,
    quiet_zone: bool,
    dark: Seq<char>,
    light: Seq<char>,
) -> Option<Seq<char>>;

/// How every SVG image of the `qrcode` crate begins.
pub open spec fn svg_header() -> Seq<char> {
    "<?xml version=\"1.0\" standalone=\"yes\"?><svg"@
}

/// `qrcode::QrCode::with_error_correction_level`, then the SVG renderer with
/// the given minimum size, quiet zone and colours. The result depends on the
/// arguments alone, and a rendered image starts with the XML declaration and
/// the `<svg` tag that the crate's SVG canvas writes first. At medium error
/// correction, data of at most 72 bytes always fits: `encode_auto` first tries
/// the versions up to 9, where any split into segments costs at most 20 bits a
/// byte (mode and length header included), and version 9 holds 1456 data bits
/// at that level. Which longer data fits, and the image itself, are left to
/// the name `qr_svg_image`.
#[verifier::external_body]
fn render_qr_svg(data: &[u8], level: QrLevel, min_size: u32, quiet_zone: bool, dark: &str, light: &str) -> (r: Option<String>)
    requires
        min_size <= 10000,
    ensures
        match r {
            Some(s) => qr_svg_image(data@, level, min_size, quiet_zone, dark@, light@) == Some(s@)
                && starts_with(s@, svg_header()),
            None => qr_svg_image(data@, level, min_size, quiet_zone, dark@, light@) is None,
        },
        level == QrLevel::Medium && data@.len() <= 72 ==> r is Some,
{
    let ec = match level {
        QrLevel::Low => EcLevel::L,
        QrLevel::Medium => EcLevel::M,
        QrLevel::Quartile => EcLevel::Q,
        QrLevel::High => EcLevel::H,
    };
    match QrCode::with_error_correction_level(data, ec) {
        Ok(code) => Some(code.render::<svg::Color>().min_dimensions(min_size, min_size).quiet_zone(quiet_zone).dark_color(svg::Color(dark)).light_color(svg::Color(light)).build()),
        Err(_) => None,
    }
}

/// The QR image that the popup shows for `url`.
pub open spec fn url_qr_image(url: Seq<char>) -> Option<Seq<char>> {
    qr_svg_image(
        vstd::utf8::encode_utf8(url),
        QrLevel::Medium,
        220,
        true,
        "#000000"@,
        "#ffffff"@,
    )
}

/// The QR code for `url` as SVG text: medium error correction, at least
/// 220 pixels square, with a quiet zone, black on white. Empty when the URL
/// does not fit in a QR code, which never happens to a URL of at most 72 bytes.
pub fn svg_for(url: &str) -> (r: String)
    ensures
        match url_qr_image(url@) {
            Some(image) => r@ == image && starts_with(r@, svg_header()),
            None => r@ == Seq::<char>::empty(),
        },
        vstd::utf8::encode_utf8(url@).len() <= 72 ==> url_qr_image(url@) is Some,
{
    match render_qr_svg(url.as_bytes(), QrLevel::Medium, 220, true, "#000000", "#ffffff") {
        Some(image) => image,
        None => String::new(),
    }
}

} // verus!
