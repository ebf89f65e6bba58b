use panolution::util::{extension, is_supported_extension, is_supported_format, valid_image_file};

#[test]
fn supported_formats_by_extension() {
    for p in ["a.jpg", "a.jpeg", "a.gif", "a.png", "a.tif", "a.tiff", "dir/x.y/photo.png"] {
        assert!(is_supported_format(p), "{}", p);
    }
    for p in ["a.txt", "a.bmp", "archive.png.gz", "noext", "a.", "dir.png/readme"] {
        assert!(!is_supported_format(p), "{}", p);
    }
    assert!(is_supported_format("png"));
}

#[test]
fn extension_case_is_ignored() {
    assert!(is_supported_format("IMG_0001.JPG"));
    assert!(is_supported_format("shot.TiFf"));
    assert!(valid_image_file("Scan.PNG"));
    assert!(!valid_image_file("notes.TXT"));
}

#[test]
fn extension_after_last_dot() {
    assert_eq!(extension("a.b.c"), "c");
    assert_eq!(extension("abc"), "abc");
    assert_eq!(extension("abc."), "");
    assert_eq!(extension(""), "");
    assert!(is_supported_extension("jpeg"));
    assert!(!is_supported_extension("JPEG"));
    assert!(!is_supported_extension("jp"));
}
