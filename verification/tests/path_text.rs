use image_viewer::path_text::{file_name, is_supported_image, str_le, strings_equal};

#[test]
fn supported_extensions_lower_case() {
    assert!(is_supported_image("photo.jpg"));
    assert!(is_supported_image("photo.jpeg"));
    assert!(is_supported_image("photo.png"));
    assert!(is_supported_image("photo.gif"));
    assert!(is_supported_image("photo.webp"));
    assert!(is_supported_image("photo.bmp"));
    assert!(is_supported_image("photo.ico"));
    assert!(is_supported_image("photo.tiff"));
    assert!(is_supported_image("photo.avif"));
}

#[test]
fn supported_extensions_ignore_ascii_case() {
    assert!(is_supported_image("PHOTO.JPG"));
    assert!(is_supported_image("shot.PnG"));
    assert!(is_supported_image("pics/animation.GIF"));
    assert!(is_supported_image("a/b/c.WeBp"));
}

#[test]
fn unsupported_extensions_are_rejected() {
    assert!(!is_supported_image("notes.txt"));
    assert!(!is_supported_image("archive.tar.gz"));
    assert!(!is_supported_image("binary.exe"));
    assert!(!is_supported_image("image.jpg.bak"));
    assert!(!is_supported_image("tif.not"));
}

#[test]
fn names_without_a_usable_extension_are_rejected() {
    assert!(!is_supported_image("noextension"));
    assert!(!is_supported_image(".gitignore"));
    assert!(!is_supported_image("trailingdot."));
    assert!(!is_supported_image(""));
    assert!(!is_supported_image("dir.png/file"));
}

#[test]
fn dotfile_with_second_dot_uses_the_last() {
    assert!(is_supported_image(".hidden.png"));
    assert!(!is_supported_image(".png"));
}

#[test]
fn file_name_takes_the_last_component() {
    assert_eq!(file_name("a/b/c.png"), "c.png");
    assert_eq!(file_name("c.png"), "c.png");
    assert_eq!(file_name("a/"), "");
    assert_eq!(file_name(""), "");
}

#[test]
fn lexicographic_order_on_strings() {
    assert!(str_le("a", "b"));
    assert!(!str_le("b", "a"));
    assert!(str_le("abc", "abc"));
    assert!(str_le("ab", "abc"));
    assert!(!str_le("abc", "ab"));
    assert!(str_le("", "a"));
    // Upper-case letters sort before lower-case ones, by code point.
    assert!(str_le("B.png", "a.png"));
}

#[test]
fn string_equality_by_characters() {
    assert!(strings_equal("same", "same"));
    assert!(!strings_equal("same", "Same"));
    assert!(!strings_equal("same", "same "));
    assert!(strings_equal("", ""));
}
