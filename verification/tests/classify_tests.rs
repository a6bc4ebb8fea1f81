use mediaplan::classify::{classify, is_avi, is_jpeg, normalize_extension, Kind};

#[test]
fn classify_photo_extensions() {
    assert_eq!(classify("shot.jpg"), Kind::Photo);
    assert_eq!(classify("shot.jpeg"), Kind::Photo);
    assert_eq!(classify("shot.png"), Kind::Photo);
}

#[test]
fn classify_video_extensions() {
    assert_eq!(classify("clip.mp4"), Kind::Video);
    assert_eq!(classify("clip.avi"), Kind::Video);
    assert_eq!(classify("clip.mov"), Kind::Video);
    assert_eq!(classify("clip.m4v"), Kind::Video);
}

#[test]
fn classify_dvd_extensions() {
    assert_eq!(classify("VTS_01_1.VOB"), Kind::Dvd);
    assert_eq!(classify("VIDEO_TS.IFO"), Kind::Dvd);
    assert_eq!(classify("VIDEO_TS.BUP"), Kind::Dvd);
}

#[test]
fn classify_unknown_is_ignore() {
    assert_eq!(classify("notes.txt"), Kind::Ignore);
    assert_eq!(classify("no_extension"), Kind::Ignore);
    assert_eq!(classify(".hidden"), Kind::Ignore);
    assert_eq!(classify("dir.with.dot/"), Kind::Ignore);
}

#[test]
fn classify_is_case_insensitive() {
    assert_eq!(classify("a.JPG"), classify("a.jpg"));
    assert_eq!(classify("a.JpG"), Kind::Photo);
    assert_eq!(classify("b.AVI"), Kind::Video);
    assert_eq!(classify("c.VoB"), Kind::Dvd);
}

#[test]
fn normalize_extension_lower_cases() {
    assert_eq!(normalize_extension("A.TXT"), Some("txt".to_string()));
    assert_eq!(normalize_extension("dir.d/file"), None);
    assert_eq!(normalize_extension(".hidden"), None);
    assert_eq!(normalize_extension("x.tar.GZ"), Some("gz".to_string()));
}

#[test]
fn jpeg_predicate() {
    assert!(is_jpeg("x.jpg"));
    assert!(is_jpeg("x.JPEG"));
    assert!(!is_jpeg("x.png"));
    assert!(!is_jpeg("x.mp4"));
}

#[test]
fn avi_predicate() {
    assert!(is_avi("x.avi"));
    assert!(is_avi("x.AVI"));
    assert!(!is_avi("x.mp4"));
}

#[test]
fn file_name_and_stem() {
    assert_eq!(mediaplan::paths::file_name("a/b/c.txt"), "c.txt");
    assert_eq!(mediaplan::paths::file_name("c.txt"), "c.txt");
    assert_eq!(mediaplan::paths::parent_dir("a/b/c.txt"), "a/b");
    assert_eq!(mediaplan::paths::parent_dir("c.txt"), "");
    assert_eq!(mediaplan::paths::stem("a/b/c.tar.gz"), "c.tar");
    assert_eq!(mediaplan::paths::stem("a/.hidden"), ".hidden");
    assert_eq!(mediaplan::paths::extension("a/b/c.tar.gz"), Some("gz"));
    assert_eq!(mediaplan::paths::extension("a/b/noext"), None);
}
