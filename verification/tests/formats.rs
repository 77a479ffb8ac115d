use image_compressor::utils::{
    classify_extension, determine_output_format, is_eligible_file, is_eligible_input,
    is_supported_format, ImageFormat,
};

#[test]
fn the_ten_extensions_are_supported() {
    for ext in ["jpg", "jpeg", "png", "gif", "webp", "tiff", "tga", "bmp", "ico", "hdr"] {
        assert!(is_supported_format(ext), "{}", ext);
    }
}

#[test]
fn case_of_the_extension_does_not_matter() {
    for ext in ["JPG", "Jpeg", "pNg", "GIF", "WebP", "TIFF", "Tga", "BMP", "iCo", "HDR"] {
        assert!(is_supported_format(ext), "{}", ext);
    }
}

#[test]
fn other_extensions_are_not_supported() {
    for ext in ["", "txt", "jp", "jpgg", "tif", "svg", "pdf", "png ", ".png", "jpe", "heic", "j\u{00e9}g"] {
        assert!(!is_supported_format(ext), "{:?}", ext);
    }
}

#[test]
fn letters_outside_ascii_are_not_folded() {
    // U+212A, the Kelvin sign, lower-cases to `k` in Unicode; full-width
    // letters look like ASCII ones.
    assert!(!is_supported_format("\u{ff50}\u{ff4e}\u{ff47}"));
    assert!(!is_supported_format("\u{212a}pg"));
}

#[test]
fn each_extension_has_its_format() {
    assert_eq!(classify_extension("jpg"), ImageFormat::Jpeg);
    assert_eq!(classify_extension("jpeg"), ImageFormat::Jpeg);
    assert_eq!(classify_extension("png"), ImageFormat::Png);
    assert_eq!(classify_extension("gif"), ImageFormat::Gif);
    assert_eq!(classify_extension("webp"), ImageFormat::WebP);
    assert_eq!(classify_extension("tiff"), ImageFormat::Tiff);
    assert_eq!(classify_extension("tga"), ImageFormat::Tga);
    assert_eq!(classify_extension("bmp"), ImageFormat::Bmp);
    assert_eq!(classify_extension("ico"), ImageFormat::Ico);
    assert_eq!(classify_extension("hdr"), ImageFormat::Hdr);
    assert_eq!(classify_extension("JPEG"), ImageFormat::Jpeg);
    assert_eq!(classify_extension("doc"), ImageFormat::Unsupported);
    assert_eq!(classify_extension(""), ImageFormat::Unsupported);
    assert_eq!(classify_extension("jpegs"), ImageFormat::Unsupported);
}

#[test]
fn output_format_follows_the_extension() {
    assert_eq!(determine_output_format("out/photo.jpg"), ImageFormat::Jpeg);
    assert_eq!(determine_output_format("out/photo.jpeg"), ImageFormat::Jpeg);
    assert_eq!(determine_output_format("out/icon.png"), ImageFormat::Png);
    assert_eq!(determine_output_format("out/a.gif"), ImageFormat::Gif);
    assert_eq!(determine_output_format("out/a.webp"), ImageFormat::WebP);
    assert_eq!(determine_output_format("out/a.tiff"), ImageFormat::Tiff);
    assert_eq!(determine_output_format("out/a.tga"), ImageFormat::Tga);
    assert_eq!(determine_output_format("out/a.bmp"), ImageFormat::Bmp);
    assert_eq!(determine_output_format("out/a.ico"), ImageFormat::Ico);
    assert_eq!(determine_output_format("out/a.hdr"), ImageFormat::Hdr);
}

#[test]
fn output_format_ignores_case() {
    assert_eq!(determine_output_format("out/ICON.PNG"), ImageFormat::Png);
    assert_eq!(determine_output_format("out/scan.TiFf"), ImageFormat::Tiff);
}

#[test]
fn output_format_defaults_to_jpeg() {
    assert_eq!(determine_output_format("out/readme"), ImageFormat::Jpeg);
    assert_eq!(determine_output_format("out/notes.txt"), ImageFormat::Jpeg);
    assert_eq!(determine_output_format(""), ImageFormat::Jpeg);
    assert_eq!(determine_output_format("out/.png"), ImageFormat::Jpeg);
    assert_eq!(determine_output_format("out.png/file"), ImageFormat::Jpeg);
    assert_eq!(determine_output_format("out/file."), ImageFormat::Jpeg);
}

#[test]
fn output_format_is_that_of_the_last_component() {
    assert_eq!(determine_output_format("x.png/"), ImageFormat::Png);
    assert_eq!(determine_output_format("x.png/."), ImageFormat::Png);
    assert_eq!(determine_output_format("out/x.GIF//"), ImageFormat::Gif);
    assert_eq!(determine_output_format("out/x.bmp/./"), ImageFormat::Bmp);
    assert_eq!(determine_output_format("out/x.png/.."), ImageFormat::Jpeg);
    assert!(is_eligible_file("in/x.png/"));
    assert!(is_eligible_file("in/x.tiff/."));
    assert!(!is_eligible_file("in/x.png/.."));
}

#[test]
fn only_the_last_extension_counts() {
    assert_eq!(determine_output_format("out/archive.png.gif"), ImageFormat::Gif);
    assert_eq!(determine_output_format("out/photo.jpg.txt"), ImageFormat::Jpeg);
    assert!(!is_eligible_file("in/photo.jpg.txt"));
    assert!(is_eligible_file("in/photo.txt.jpg"));
}

#[test]
fn files_without_extension_are_not_eligible() {
    assert!(!is_eligible_file("in/Makefile"));
    assert!(!is_eligible_file("in/.jpg"));
    assert!(!is_eligible_file("in.jpg/readme"));
    assert!(!is_eligible_file(""));
    assert!(!is_eligible_file("in/photo."));
}

#[test]
fn files_with_known_extension_are_eligible() {
    assert!(is_eligible_file("photo.jpg"));
    assert!(is_eligible_file("in/a/b/photo.JPEG"));
    assert!(is_eligible_file("./icon.png"));
    assert!(is_eligible_file("in/.hidden.bmp"));
    assert!(is_eligible_file("in/\u{00fc}ber.gif"));
}

#[test]
fn missing_extension_is_not_eligible() {
    assert!(!is_eligible_input(None));
    assert!(!is_eligible_input(Some("")));
    assert!(!is_eligible_input(Some("txt")));
    assert!(is_eligible_input(Some("jpg")));
    assert!(is_eligible_input(Some("WEBP")));
}
