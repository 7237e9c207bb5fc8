use embolden::{build_font, font_result, FontError};

#[test]
fn empty_data_is_unprocessable() {
    assert!(matches!(build_font(Vec::new(), 0), Err(FontError::Unprocessable)));
}

#[test]
fn garbage_data_is_unprocessable() {
    assert!(matches!(build_font(vec![0u8; 64], 0), Err(FontError::Unprocessable)));
    assert!(matches!(build_font(vec![0, 1, 0, 0, 0, 0, 0, 0], 3), Err(FontError::Unprocessable)));
}

#[test]
fn missing_font_maps_to_error() {
    assert!(matches!(font_result(None), Err(FontError::Unprocessable)));
}

/// A small TrueType font with a handful of glyphs.
fn demo_font() -> Vec<u8> {
    vec![
        0x00, 0x01, 0x00, 0x00, 0x00, 0x07, 0x00, 0x40, 0x00, 0x02, 0x00, 0x30, 0x63, 0x6d, 0x61, 0x70,
        0x00, 0x09, 0x00, 0x76, 0x00, 0x00, 0x01, 0x00, 0x00, 0x00, 0x00, 0x2c, 0x67, 0x6c, 0x79, 0x66,
        0xf1, 0xcb, 0x66, 0x98, 0x00, 0x00, 0x01, 0x34, 0x00, 0x00, 0x00, 0x5c, 0x68, 0x65, 0x61, 0x64,
        0xf2, 0x35, 0xdd, 0xf8, 0x00, 0x00, 0x00, 0x7c, 0x00, 0x00, 0x00, 0x36, 0x68, 0x68, 0x65, 0x61,
        0x06, 0x61, 0x00, 0xca, 0x00, 0x00, 0x00, 0xb4, 0x00, 0x00, 0x00, 0x24, 0x68, 0x6d, 0x74, 0x78,
        0x04, 0x74, 0x00, 0x6a, 0x00, 0x00, 0x00, 0xf8, 0x00, 0x00, 0x00, 0x08, 0x6c, 0x6f, 0x63, 0x61,
        0x00, 0x2e, 0x00, 0x14, 0x00, 0x00, 0x01, 0x2c, 0x00, 0x00, 0x00, 0x06, 0x6d, 0x61, 0x78, 0x70,
        0x00, 0x05, 0x00, 0x0b, 0x00, 0x00, 0x00, 0xd8, 0x00, 0x00, 0x00, 0x20, 0x00, 0x01, 0x00, 0x00,
        0x00, 0x01, 0x00, 0x00, 0xf5, 0x9c, 0x29, 0x44, 0x5f, 0x0f, 0x3c, 0xf5, 0x00, 0x02, 0x03, 0xe8,
        0x00, 0x00, 0x00, 0x00, 0xb4, 0x92, 0xf4, 0x00, 0x00, 0x00, 0x00, 0x00, 0xdc, 0x2f, 0xa6, 0x5c,
        0x00, 0x06, 0x00, 0x00, 0x02, 0x58, 0x02, 0xbc, 0x00, 0x00, 0x00, 0x03, 0x00, 0x02, 0x00, 0x00,
        0x00, 0x00, 0x00, 0x00, 0x00, 0x01, 0x00, 0x00, 0x04, 0x00, 0xfe, 0x70, 0x00, 0x00, 0x02, 0x58,
        0x00, 0x06, 0xff, 0xff, 0x02, 0x58, 0x00, 0x01, 0x00, 0x00, 0x00, 0x00, 0x00, 0x00, 0x00, 0x00,
        0x00, 0x00, 0x00, 0x00, 0x00, 0x00, 0x00, 0x02, 0x00, 0x01, 0x00, 0x00, 0x00, 0x02, 0x00, 0x0b,
        0x00, 0x02, 0x00, 0x00, 0x00, 0x00, 0x00, 0x00, 0x00, 0x00, 0x00, 0x00, 0x00, 0x00, 0x00, 0x00,
        0x00, 0x00, 0x00, 0x00, 0x00, 0x00, 0x00, 0x00, 0x02, 0x58, 0x00, 0x64, 0x02, 0x1c, 0x00, 0x06,
        0x00, 0x00, 0x00, 0x01, 0x00, 0x00, 0x00, 0x03, 0x00, 0x00, 0x00, 0x0c, 0x00, 0x04, 0x00, 0x20,
        0x00, 0x00, 0x00, 0x04, 0x00, 0x04, 0x00, 0x01, 0x00, 0x00, 0x00, 0x41, 0xff, 0xff, 0x00, 0x00,
        0x00, 0x41, 0xff, 0xff, 0xff, 0xc0, 0x00, 0x01, 0x00, 0x00, 0x00, 0x00, 0x00, 0x00, 0x00, 0x14,
        0x00, 0x2e, 0x00, 0x00, 0x00, 0x02, 0x00, 0x64, 0x00, 0x00, 0x02, 0x58, 0x02, 0xbc, 0x00, 0x03,
        0x00, 0x07, 0x00, 0x00, 0x33, 0x11, 0x21, 0x11, 0x25, 0x21, 0x11, 0x21, 0x64, 0x01, 0xf4, 0xfe,
        0x34, 0x01, 0xa4, 0xfe, 0x5c, 0x02, 0xbc, 0xfd, 0x44, 0x28, 0x02, 0x6c, 0x00, 0x02, 0x00, 0x06,
        0x00, 0x00, 0x02, 0x1d, 0x02, 0x90, 0x00, 0x02, 0x00, 0x0a, 0x00, 0x00, 0x13, 0x33, 0x03, 0x01,
        0x13, 0x33, 0x13, 0x23, 0x27, 0x23, 0x07, 0xad, 0xc4, 0x63, 0xfe, 0xf8, 0xda, 0x60, 0xdd, 0x59,
        0x3e, 0xef, 0x42, 0x01, 0x0b, 0x01, 0x40, 0xfd, 0xb5, 0x02, 0x90, 0xfd, 0x70, 0xc8, 0xc8, 0x00,
    ]
}

#[test]
fn readable_font_is_built() {
    assert!(build_font(demo_font(), 0).is_ok());
}

#[test]
fn missing_collection_index_is_unprocessable() {
    assert!(matches!(build_font(demo_font(), 5), Err(FontError::Unprocessable)));
}
