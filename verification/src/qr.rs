//! QR codes as SVG images.

use vstd::prelude::*;

verus! {

/// The SVG text of the QR code for `data`, at least `width` by `height` pixels large; `None` where
/// no QR code holds that much data.
pub uninterp spec fn qr_image(data: Seq<u8>, width: u32, height: u32) -> Option<Seq<char>>;

/// Calls `qrcode::QrCode::new` and renders the code with `qrcode::render::svg`. The image depends
/// on the data and the least dimensions alone.
#[verifier::external_body]
pub(crate) fn render_qr(data: &[u8], width: u32, height: u32) -> (res: Option<String>)
    requires
        width <= 65536,
        height <= 65536,
    ensures
        res is Some <==> qr_image(data@, width, height) is Some,
        res matches Some(svg) ==> qr_image(data@, width, height) == Some(svg@),
{
    let code = qrcode::QrCode::new(data).ok()?;
    let mut renderer = code.render::<qrcode::render::svg::Color>();
    Some(renderer.min_dimensions(width, height).build())
}

} // verus!
