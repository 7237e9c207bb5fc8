//! Loading a font for PDF output.

use vstd::prelude::*;

verus! {

#[verifier::external_type_specification]
#[verifier::external_body]
pub struct ExKrillaFont(krilla::text::Font);

/// The font that krilla reads from the bytes `data` at the collection index
/// `index`, or `None` when the font tables there cannot be read.
pub uninterp spec fn krilla_font(data: Seq<u8>, index: u32) -> Option<krilla::text::Font>;

/// Whether krilla can read a font from the bytes `data` at the collection
/// index `index`.
pub open spec fn font_is_readable(data: Seq<u8>, index: u32) -> bool {
    krilla_font(data, index) is Some
}

/// Calls `krilla::text::Font::new` on `data` and `index`. Its source reads
/// the face at `index` from the bytes (`None` when its tables cannot be read)
/// and keeps the bytes and that index; the result is a function of the bytes
/// and the index alone (fonts compare and hash by their contents, not by
/// address). What the font holds is not stated beyond that.
#[verifier::external_body]
fn read_font(data: Vec<u8>, index: u32) -> (font: Option<krilla::text::Font>)
    ensures
        font == krilla_font(data@, index),
{
    krilla::text::Font::new(krilla::Data::from(data), index)
}

/// Why a font could not be prepared for PDF output.
#[derive(Debug, PartialEq, Eq)]
pub enum FontError {
    /// krilla failed to process the font.
    Unprocessable,
}

/// The outcome of building a font from what krilla read: the font, or the
/// error that it could not be processed.
pub fn font_result(font: Option<krilla::text::Font>) -> (res: Result<krilla::text::Font, FontError>)
    ensures
        match font {
            Some(f) => res == Ok::<krilla::text::Font, FontError>(f),
            None => res == Err::<krilla::text::Font, FontError>(FontError::Unprocessable),
        },
{
    match font {
        Some(f) => Ok(f),
        None => Err(FontError::Unprocessable),
    }
}

/// Build the PDF font for the font in `data` at collection index `index`.
pub fn build_font(data: Vec<u8>, index: u32) -> (res: Result<krilla::text::Font, FontError>)
    ensures
        res is Ok <==> font_is_readable(data@, index),
        res is Err ==> res == Err::<krilla::text::Font, FontError>(FontError::Unprocessable),
        res == match krilla_font(data@, index) {
            Some(f) => Ok::<krilla::text::Font, FontError>(f),
            None => Err::<krilla::text::Font, FontError>(FontError::Unprocessable),
        },
{
    font_result(read_font(data, index))
}

} // verus!
