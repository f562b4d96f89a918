use media_cleanup::cache::{
    decode_catalog_frame, decode_catalog_text, encode_catalog_frame, encode_catalog_text,
    split_lines,
};
use media_cleanup::catalog::Catalog;
use media_cleanup::media::{is_video_file, is_video_mime};

#[test]
fn video_files_by_extension() {
    assert!(is_video_file("/lib/movie.mkv"));
    assert!(is_video_file("movie.mp4"));
    assert!(!is_video_file("/lib/movie.nfo"));
    assert!(!is_video_file("notes.txt"));
    assert!(!is_video_file("noextension"));
}

#[test]
fn video_mime_prefix() {
    assert!(is_video_mime("video/x-matroska"));
    assert!(is_video_mime("video/mp4"));
    assert!(!is_video_mime("text/plain"));
    assert!(!is_video_mime("audio/mpeg"));
    assert!(!is_video_mime("video"));
}

#[test]
fn split_lines_like_a_line_reader() {
    let lines = split_lines("a: b\nc: d\n");
    assert_eq!(lines.len(), 2);
    assert_eq!(lines[0].as_str(), "a: b");
    assert_eq!(lines[1].as_str(), "c: d");
    let no_trailing = split_lines("a\nb");
    assert_eq!(no_trailing.len(), 2);
    assert_eq!(no_trailing[1].as_str(), "b");
    assert_eq!(split_lines("").len(), 0);
    let with_empty = split_lines("a\n\nb");
    assert_eq!(with_empty.len(), 3);
    assert_eq!(with_empty[1].as_str(), "");
}

#[test]
fn decode_simple_cache_text() {
    let cat = decode_catalog_text("movie.mkv: /lib/movie.mkv\n").unwrap();
    assert_eq!(cat.len(), 1);
    let name = "movie.mkv".to_string();
    assert_eq!(cat.get(&name).unwrap().as_str(), "/lib/movie.mkv");
}

#[test]
fn decode_rejects_garbage_text() {
    assert!(decode_catalog_text("][ not yaml\n").is_none());
}

#[test]
fn catalog_text_round_trip() {
    let mut cat = Catalog::new();
    cat.insert("movie.mkv".to_string(), "/lib/movie.mkv".to_string());
    cat.insert("other.mkv".to_string(), "/lib/other.mkv".to_string());
    let text = encode_catalog_text(&cat);
    let back = decode_catalog_text(text.as_str()).unwrap();
    assert_eq!(back.len(), 2);
    let a = "movie.mkv".to_string();
    let b = "other.mkv".to_string();
    assert_eq!(back.get(&a).unwrap().as_str(), "/lib/movie.mkv");
    assert_eq!(back.get(&b).unwrap().as_str(), "/lib/other.mkv");
}

#[test]
fn catalog_frame_round_trip() {
    let mut cat = Catalog::new();
    cat.insert("movie.mkv".to_string(), "/lib/movie.mkv".to_string());
    cat.insert("show.s01e01.mkv".to_string(), "/tv/show.s01e01.mkv".to_string());
    let frame = encode_catalog_frame(&cat);
    // a compressed frame, not the bare text
    assert_ne!(frame.as_slice(), b"movie.mkv: /lib/movie.mkv\n".as_slice());
    let back = decode_catalog_frame(&frame).unwrap();
    assert_eq!(back.len(), 2);
    let a = "movie.mkv".to_string();
    assert_eq!(back.get(&a).unwrap().as_str(), "/lib/movie.mkv");
}

#[test]
fn decode_rejects_corrupt_frame() {
    let garbage: Vec<u8> = vec![1, 2, 3, 4, 5];
    assert!(decode_catalog_frame(&garbage).is_none());
}
