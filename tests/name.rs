use zxmit::{filename_to_short, short_name_field, split_at_last_dot, FileUploader, UploadError};

#[test]
fn short_name_of_report() {
    assert_eq!(filename_to_short("My Report v2.TXT"), "My_Repor.TXT");
}

#[test]
fn short_name_without_dot() {
    assert_eq!(filename_to_short("README"), "README.");
}

#[test]
fn short_name_truncates_extension() {
    assert_eq!(filename_to_short("archive.tar.gzip"), "archive_.gzi");
}

#[test]
fn short_name_replaces_forbidden() {
    assert_eq!(filename_to_short("a\tb\\c/d.e f"), "a_b_c_d.e_f");
}

#[test]
fn short_name_leading_dot() {
    assert_eq!(filename_to_short(".profile"), ".pro");
}

#[test]
fn split_keeps_inner_dots_as_spaces() {
    let (stem, ext) = split_at_last_dot("a.b.c");
    assert_eq!(stem, "a.b");
    assert_eq!(ext, "c");
    let (stem, ext) = FileUploader::split_at_last_dot("plain");
    assert_eq!(stem, "plain");
    assert_eq!(ext, "");
}

#[test]
fn uploader_short_name() {
    assert_eq!(FileUploader::filename_to_short("game.tap"), "game.tap");
}

#[test]
fn name_field_bytes() {
    assert_eq!(short_name_field("My Report v2.TXT"), Ok(b"My_Repor.TXT".to_vec()));
}

#[test]
fn name_field_too_long() {
    assert_eq!(short_name_field("ÄÖÜÄÖÜÄÖ.txt"), Err(UploadError::NameTooLong));
}

#[test]
fn name_field_short_enough_non_ascii() {
    assert_eq!(short_name_field("Ä.b"), Ok("Ä.b".as_bytes().to_vec()));
}

#[test]
fn short_name_is_bounded() {
    for n in ["", ".", "..", "x.y.z.w", "very long name with spaces.extension", "a/b\\c"] {
        let s = filename_to_short(n);
        let (stem, ext) = s.rsplit_once('.').unwrap();
        assert!(stem.chars().count() <= 8);
        assert!(ext.chars().count() <= 3);
        assert!(!stem.contains([' ', '\t', '.', '\\', '/']));
        assert!(!ext.contains([' ', '\t', '.', '\\', '/']));
        assert!(s.len() <= 12);
    }
}

#[test]
fn split_keeps_stem_dots() {
    let (stem, ext) = split_at_last_dot("archive.tar.gz");
    assert_eq!(stem, "archive.tar");
    assert_eq!(ext, "gz");
    assert_eq!(format!("{}.{}", stem, ext), "archive.tar.gz");
}
