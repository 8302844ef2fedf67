//! Images: references in texts, the store, the clipboard.

use carter::media::attach::{attachment_paths, inline_user_attachments};
use carter::media::clipboard::{clipboard_png, encoded_image, paste_image};
use carter::media::segment::{parse_segments, ImageRef, Segment};
use carter::media::store::{
    extension_of, images_dir, is_image_path, mime_from_ext, put_bytes, put_path, ref_from_digest, sniff_ext,
};

#[test]
fn parse_pure_text() {
    let segs = parse_segments("hello world");
    assert_eq!(segs, vec![Segment::Text("hello world".into())]);
}

#[test]
fn parse_single_image_ref() {
    let segs = parse_segments("看下这个 [img:abc123.png] 图片");
    assert_eq!(segs.len(), 3);
    assert_eq!(segs[0], Segment::Text("看下这个 ".into()));
    assert!(matches!(&segs[1], Segment::Image(r) if r.hash == "abc123" && r.ext == "png"));
    assert_eq!(segs[2], Segment::Text(" 图片".into()));
}

#[test]
fn parse_image_only() {
    let segs = parse_segments("[img:deadbeef.jpg]");
    assert_eq!(segs.len(), 1);
    assert!(matches!(&segs[0], Segment::Image(r) if r.ext == "jpg"));
}

#[test]
fn parse_multiple() {
    let segs = parse_segments("a[img:11.png]b[img:22.gif]");
    assert_eq!(segs.len(), 4);
}

fn join_text(segs: Vec<Segment>) -> String {
    segs.into_iter()
        .map(|s| match s {
            Segment::Text(t) => t,
            Segment::Image(r) => r.token(),
        })
        .collect()
}

#[test]
fn parse_invalid_token_kept_as_text() {
    assert_eq!(join_text(parse_segments("[img:nope]")), "[img:nope]");
    assert_eq!(join_text(parse_segments("[img:zz.png]")), "[img:zz.png]");
}

#[test]
fn text_without_a_reference_is_one_piece() {
    for t in ["", "a", "[img:nope]", "x [img:zz.png] y [img:"] {
        assert_eq!(parse_segments(t), vec![Segment::Text(t.to_string())]);
    }
}

#[test]
fn extensions_are_put_together_in_lower_case() {
    assert_eq!(join_text(parse_segments("A[img:AB.PNG]B")), "A[img:AB.png]B");
}

#[test]
fn text_is_put_together_again() {
    for t in ["", "a [img:ab.png] b [img: [img:cd.gif]]", "[img:", "x[img:12.jpg"] {
        assert_eq!(join_text(parse_segments(t)), t);
    }
}

#[test]
fn token_roundtrip() {
    let r = ImageRef { hash: "abc".into(), ext: "png".into() };
    let segs = parse_segments(&r.token());
    assert_eq!(segs.len(), 1);
    assert!(matches!(&segs[0], Segment::Image(x) if x == &r));
}

#[test]
fn sniff_png_jpg_gif_webp() {
    assert_eq!(sniff_ext(b"\x89PNG\r\n\x1a\n..."), Some("png"));
    assert_eq!(sniff_ext(b"\xFF\xD8\xFF\xE0..."), Some("jpg"));
    assert_eq!(sniff_ext(b"GIF89a..."), Some("gif"));
    let mut webp = Vec::from(b"RIFF\0\0\0\0WEBP" as &[u8]);
    webp.extend_from_slice(b"...");
    assert_eq!(sniff_ext(&webp), Some("webp"));
    assert_eq!(sniff_ext(b"not an image"), None);
}

#[test]
fn mime_lookup() {
    assert_eq!(mime_from_ext("png"), "image/png");
    assert_eq!(mime_from_ext("JPG"), "image/jpeg");
    assert_eq!(mime_from_ext("unknown"), "application/octet-stream");
}

#[test]
fn is_image_path_matches_common_exts() {
    assert!(is_image_path("a/b.png"));
    assert!(is_image_path("c.JPEG"));
    assert!(!is_image_path("c.rs"));
    assert_eq!(extension_of("a/b.tar.gz").as_deref(), Some("gz"));
    assert_eq!(extension_of("a/b"), None);
}

#[test]
fn put_bytes_is_content_addressed_and_idempotent() {
    let bytes = b"\x89PNG\r\n\x1a\nfake";
    let a = put_bytes(bytes, None);
    let b = put_bytes(bytes, None);
    assert_eq!(a, b);
    assert_eq!(a.ext, "png");
    assert!(a.path("/r").starts_with(&images_dir("/r")));
    assert_ne!(put_bytes(b"\x89PNG\r\n\x1a\nother", None).hash, a.hash);
}

#[test]
fn digest_is_sha256() {
    let r = put_bytes(b"abc", Some("png".to_string()));
    assert!("ba7816bf8f01cfea414140de5dae2223b00361a396177a9cb410ff61f20015ad".starts_with(&r.hash));
    assert!(r.hash.len() >= 16);
    assert_eq!(r.mime(), "image/png");
}

#[test]
fn extension_falls_back_to_the_hint() {
    assert_eq!(ref_from_digest(&[0xAB; 32], b"plain", Some("gif".to_string())).ext, "gif");
    assert_eq!(put_path("x/pic.jpeg", b"plain").ext, "jpeg");
    assert_eq!(put_path("x/pic.jpeg", b"GIF89a").ext, "jpeg");
    assert_eq!(put_path("x/pic", b"GIF89a").ext, "gif");
    assert_eq!(put_path("x/pic", b"plain").ext, "bin");
}

#[test]
fn inline_attachments_replaces_image_paths_only() {
    let token = put_bytes(b"\x89PNG\r\n\x1a\nbytes", None).token();
    assert_eq!(attachment_paths("看下 @pic.png 这张图", "/ws"), vec!["/ws/pic.png"]);
    let out = inline_user_attachments("看下 @pic.png 这张图", &vec![Some(token)]);
    assert!(out.contains("[img:"));
    assert!(!out.contains("@pic.png"));

    assert!(attachment_paths("引用 @notes.txt 看看", "/ws").is_empty());
    let out = inline_user_attachments("引用 @notes.txt 看看", &vec![]);
    assert!(out.contains("@notes.txt"));

    let out = inline_user_attachments("contact a@b.com", &vec![]);
    assert_eq!(out, "contact a@b.com");

    let out = inline_user_attachments("@missing.png ok", &vec![None]);
    assert!(out.starts_with("@missing.png"));
}

#[test]
fn clipboard_pixels_become_a_png() {
    let png = clipboard_png(2, 1, vec![255, 0, 0, 255, 0, 255, 0, 255]).unwrap();
    assert_eq!(sniff_ext(&png), Some("png"));
    let (r, bytes) = paste_image(2, 1, vec![255, 0, 0, 255, 0, 255, 0, 255]).unwrap();
    assert_eq!(bytes, png);
    assert_eq!(r.ext, "png");
}

#[test]
fn clipboard_pixels_must_fill_the_image() {
    assert!(clipboard_png(2, 2, vec![0; 4]).is_err());
    assert!(matches!(encoded_image(Err("broken".into())), Err(e) if e.contains("broken")));
}
