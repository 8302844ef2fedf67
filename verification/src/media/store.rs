//! The image store: files named by the hash of their bytes.

use crate::config::paths::{file_name, file_name_of, join_path, joined};
use crate::media::segment::{
    all_alnum, all_hex, is_hex_digit, law_token_roundtrip, segments, token_of, ImageRef, RefView, SegmentView,
};
use crate::number::{hex_bytes, hex_digit, hex_of_bytes};
use crate::split::{last_pos, last_pos_before, last_pos_of};
use crate::text::{chars_of, lower_str, lower_text, opt_text, str_eq, string_of};
use sha2::Digest;
use vstd::prelude::*;
use vstd::slice::slice_subrange;

verus! {

/// The directory of the images.
pub open spec fn images_of(root: Seq<char>) -> Seq<char> {
    joined(root, "images"@)
}

/// The directory of the images.
pub fn images_dir(root: &str) -> (r: String)
    ensures
        r@ == images_of(root@),
{
    join_path(root, "images")
}

/// The SHA-256 digest of bytes.
pub uninterp spec fn sha256_of(bytes: Seq<u8>) -> Seq<u8>;

/// `sha2::Sha256::digest`: the digest is a function of the bytes, and 32 bytes long.
#[verifier::external_body]
fn sha256(bytes: &[u8]) -> (r: Vec<u8>)
    ensures
        r@ == sha256_of(bytes@),
        r@.len() == 32,
{
    sha2::Sha256::digest(bytes).to_vec()
}

/// What the bytes of a PNG file begin with.
pub open spec fn png_magic() -> Seq<u8> {
    seq![0x89u8, 0x50u8, 0x4Eu8, 0x47u8, 0x0Du8, 0x0Au8, 0x1Au8, 0x0Au8]
}

/// `pat` stands in `b` at `at`.
pub open spec fn bytes_at(b: Seq<u8>, pat: Seq<u8>, at: int) -> bool {
    0 <= at && at + pat.len() <= b.len() && b.subrange(at, at + pat.len()) == pat
}

/// The extension of an image format, told by the first bytes.
pub open spec fn sniffed(b: Seq<u8>) -> Option<Seq<char>> {
    if bytes_at(b, png_magic(), 0) {
        Some("png"@)
    } else if bytes_at(b, seq![0xFFu8, 0xD8u8, 0xFFu8], 0) {
        Some("jpg"@)
    } else if bytes_at(b, seq![71u8, 73u8, 70u8, 56u8, 55u8, 97u8], 0) || bytes_at(
        b,
        seq![71u8, 73u8, 70u8, 56u8, 57u8, 97u8],
        0,
    ) {
        Some("gif"@)
    } else if bytes_at(b, seq![82u8, 73u8, 70u8, 70u8], 0) && bytes_at(
        b,
        seq![87u8, 69u8, 66u8, 80u8],
        8,
    ) {
        Some("webp"@)
    } else {
        None
    }
}

fn stands_at(b: &[u8], pat: &Vec<u8>, at: usize) -> (r: bool)
    ensures
        r == bytes_at(b@, pat@, at as int),
{
    if at > b.len() || pat.len() > b.len() - at {
        return false;
    }
    let total: usize = b.len();
    let len: usize = pat.len();
    let mut i: usize = 0;
    while i < len
        invariant
            i <= len,
            total == b@.len(),
            len == pat@.len(),
            at + len <= total,
            forall|j: int| 0 <= j < i ==> b@[at + j] == #[trigger] pat@[j],
        decreases len - i,
    {
        if b[at + i] != pat[i] {
            assert(b@.subrange(at as int, at + pat@.len())[i as int] != pat@[i as int]);
            return false;
        }
        i += 1;
    }
    assert(b@.subrange(at as int, at + pat@.len()) =~= pat@);
    true
}

/// The extension of an image format, told by the first bytes.
pub fn sniff_ext(bytes: &[u8]) -> (r: Option<&'static str>)
    ensures
        match r {
            Some(e) => sniffed(bytes@) == Some(e@),
            None => sniffed(bytes@) is None,
        },
{
    let png: Vec<u8> = vec![0x89, 0x50, 0x4E, 0x47, 0x0D, 0x0A, 0x1A, 0x0A];
    assert(png@ =~= png_magic());
    if stands_at(bytes, &png, 0) {
        return Some("png");
    }
    let jpg: Vec<u8> = vec![0xFF, 0xD8, 0xFF];
    assert(jpg@ =~= seq![0xFFu8, 0xD8u8, 0xFFu8]);
    if stands_at(bytes, &jpg, 0) {
        return Some("jpg");
    }
    let gif7: Vec<u8> = vec![71, 73, 70, 56, 55, 97];
    let gif9: Vec<u8> = vec![71, 73, 70, 56, 57, 97];
    assert(gif7@ =~= seq![71u8, 73u8, 70u8, 56u8, 55u8, 97u8]);
    assert(gif9@ =~= seq![71u8, 73u8, 70u8, 56u8, 57u8, 97u8]);
    if stands_at(bytes, &gif7, 0) || stands_at(bytes, &gif9, 0) {
        return Some("gif");
    }
    let riff: Vec<u8> = vec![82, 73, 70, 70];
    let webp: Vec<u8> = vec![87, 69, 66, 80];
    assert(riff@ =~= seq![82u8, 73u8, 70u8, 70u8]);
    assert(webp@ =~= seq![87u8, 69u8, 66u8, 80u8]);
    if stands_at(bytes, &riff, 0) && stands_at(bytes, &webp, 8) {
        return Some("webp");
    }
    None
}

/// The media type of an extension.
pub open spec fn mime_of(ext: Seq<char>) -> Seq<char> {
    let e = lower_text(ext);
    if e == "png"@ {
        "image/png"@
    } else if e == "jpg"@ || e == "jpeg"@ {
        "image/jpeg"@
    } else if e == "gif"@ {
        "image/gif"@
    } else if e == "webp"@ {
        "image/webp"@
    } else if e == "bmp"@ {
        "image/bmp"@
    } else if e == "svg"@ {
        "image/svg+xml"@
    } else {
        "application/octet-stream"@
    }
}

/// The media type of an extension.
pub fn mime_from_ext(ext: &str) -> (r: &'static str)
    ensures
        r@ == mime_of(ext@),
{
    let low = lower_str(ext);
    let e = low.as_str();
    if str_eq(e, "png") {
        "image/png"
    } else if str_eq(e, "jpg") || str_eq(e, "jpeg") {
        "image/jpeg"
    } else if str_eq(e, "gif") {
        "image/gif"
    } else if str_eq(e, "webp") {
        "image/webp"
    } else if str_eq(e, "bmp") {
        "image/bmp"
    } else if str_eq(e, "svg") {
        "image/svg+xml"
    } else {
        "application/octet-stream"
    }
}

/// The extension of a file name: what follows its last dot, unless the name begins there.
pub open spec fn extension(path: Seq<char>) -> Option<Seq<char>> {
    match file_name(path) {
        Some(n) => if last_pos(n, '.') > 0 {
            Some(n.skip(last_pos(n, '.') + 1))
        } else {
            None
        },
        None => None,
    }
}

/// The extension of a file name.
pub fn extension_of(path: &str) -> (r: Option<String>)
    ensures
        opt_text(r) == extension(path@),
{
    match file_name_of(path) {
        None => None,
        Some(name) => {
            let a = chars_of(name.as_str());
            let n: usize = a.len();
            match last_pos_of(a.as_slice(), '.') {
                None => None,
                Some(k) => {
                    if k == 0 {
                        return None;
                    }
                    let e = slice_subrange(a.as_slice(), k + 1, n);
                    assert(e@ =~= name@.skip(k + 1));
                    Some(string_of(e))
                },
            }
        },
    }
}

/// An extension that images have.
pub open spec fn is_image_ext(ext: Seq<char>) -> bool {
    let e = lower_text(ext);
    e == "png"@ || e == "jpg"@ || e == "jpeg"@ || e == "gif"@ || e == "webp"@ || e == "bmp"@
}

/// A path whose extension is that of an image.
pub open spec fn image_path(path: Seq<char>) -> bool {
    match extension(path) {
        Some(e) => is_image_ext(e),
        None => false,
    }
}

/// Whether the extension of a path is that of an image.
pub fn is_image_path(path: &str) -> (r: bool)
    ensures
        r == image_path(path@),
{
    match extension_of(path) {
        None => false,
        Some(e) => {
            let low = lower_str(e.as_str());
            let e = low.as_str();
            str_eq(e, "png") || str_eq(e, "jpg") || str_eq(e, "jpeg") || str_eq(e, "gif") || str_eq(
                e,
                "webp",
            ) || str_eq(e, "bmp")
        },
    }
}

/// `s` without the dots at its beginning.
pub open spec fn undotted(s: Seq<char>) -> Seq<char>
    decreases s.len(),
{
    if s.len() > 0 && s[0] == '.' {
        undotted(s.skip(1))
    } else {
        s
    }
}

fn undot(s: &str) -> (r: String)
    ensures
        r@ == undotted(s@),
{
    let a = chars_of(s);
    let n: usize = a.len();
    let mut i: usize = 0;
    assert(s@.skip(0) =~= s@);
    while i < n && a[i] == '.'
        invariant
            i <= n,
            n == a@.len(),
            a@ == s@,
            undotted(s@) == undotted(s@.skip(i as int)),
        decreases n - i,
    {
        assert(s@.skip(i as int).skip(1) =~= s@.skip(i + 1));
        i += 1;
    }
    let r = string_of(slice_subrange(a.as_slice(), i, n));
    assert(r@ =~= s@.skip(i as int));
    r
}

/// The extension under which bytes are stored: the one that is given, else the one that the bytes tell,
/// else `bin`.
pub open spec fn stored_ext(bytes: Seq<u8>, hint: Option<Seq<char>>) -> Seq<char> {
    match hint {
        Some(h) => lower_text(undotted(h)),
        None => match sniffed(bytes) {
            Some(e) => e,
            None => "bin"@,
        },
    }
}

/// The reference under which bytes are stored.
pub open spec fn stored_ref(bytes: Seq<u8>, hint: Option<Seq<char>>) -> RefView {
    RefView { hash: hex_bytes(sha256_of(bytes)), ext: stored_ext(bytes, hint) }
}

/// The reference with the given digest.
pub fn ref_from_digest(digest: &[u8], bytes: &[u8], ext_hint: Option<String>) -> (r: ImageRef)
    ensures
        r@ == (RefView { hash: hex_bytes(digest@), ext: stored_ext(bytes@, opt_text(ext_hint)) }),
{
    let ext = match ext_hint {
        Some(h) => {
            let u = undot(h.as_str());
            lower_str(u.as_str())
        },
        None => match sniff_ext(bytes) {
            Some(e) => e.to_owned(),
            None => "bin".to_owned(),
        },
    };
    ImageRef { hash: hex_of_bytes(digest), ext }
}

/// The reference under which bytes are stored. A caller writes them to its path unless a file is there.
pub fn put_bytes(bytes: &[u8], ext_hint: Option<String>) -> (r: ImageRef)
    ensures
        r@ == stored_ref(bytes@, opt_text(ext_hint)),
{
    let digest = sha256(bytes);
    ref_from_digest(digest.as_slice(), bytes, ext_hint)
}

/// The reference under which the bytes of a file are stored: the extension is that of its name.
pub fn put_path(src: &str, bytes: &[u8]) -> (r: ImageRef)
    ensures
        r@ == stored_ref(bytes@, extension(src@)),
{
    put_bytes(bytes, extension_of(src))
}

proof fn lemma_hex_bytes(b: Seq<u8>)
    ensures
        hex_bytes(b).len() == 2 * b.len(),
        all_hex(hex_bytes(b)),
    decreases b.len(),
{
    if b.len() > 0 {
        lemma_hex_bytes(b.drop_last());
        let h = hex_bytes(b);
        assert forall|i: int| 0 <= i < h.len() implies is_hex_digit(#[trigger] h[i]) by {
            if i < h.len() - 2 {
                assert(h[i] == hex_bytes(b.drop_last())[i]);
            } else {
                assert(h[i] == hex_digit((b.last() / 16) as nat) || h[i] == hex_digit(
                    (b.last() % 16) as nat,
                ));
            }
        }
    }
}

/// The token of stored bytes is read back as the one reference that it is, whenever the extension has
/// only letters and digits.
pub proof fn law_digest_token_read_back(digest: Seq<u8>, bytes: Seq<u8>, hint: Option<Seq<char>>)
    requires
        digest.len() > 0,
        stored_ext(bytes, hint).len() > 0,
        all_alnum(stored_ext(bytes, hint)),
    ensures
        ({
            let r = RefView { hash: hex_bytes(digest), ext: stored_ext(bytes, hint) };
            segments(token_of(r)) == seq![SegmentView::Image(r)]
        }),
{
    let r = RefView { hash: hex_bytes(digest), ext: stored_ext(bytes, hint) };
    lemma_hex_bytes(digest);
    match hint {
        Some(h) => {
            let u = undotted(h);
            assert(lower_text(lower_text(u)) =~= lower_text(u));
        },
        None => {
            reveal_strlit("png");
            reveal_strlit("jpg");
            reveal_strlit("gif");
            reveal_strlit("webp");
            reveal_strlit("bin");
            assert(lower_text(r.ext) =~= r.ext);
        },
    }
    law_token_roundtrip(r);
}

/// Bytes that a sniffed format tells are stored under that format's extension, and the token is read
/// back.
pub proof fn law_sniffed_image_read_back(bytes: Seq<u8>, digest: Seq<u8>)
    requires
        digest.len() > 0,
    ensures
        ({
            let r = RefView { hash: hex_bytes(digest), ext: stored_ext(bytes, None) };
            segments(token_of(r)) == seq![SegmentView::Image(r)]
        }),
{
    reveal_strlit("png");
    reveal_strlit("jpg");
    reveal_strlit("gif");
    reveal_strlit("webp");
    reveal_strlit("bin");
    law_digest_token_read_back(digest, bytes, None);
}

/// The format of an image is told by the bytes that it begins with, whatever follows them.
pub proof fn law_format_told(rest: Seq<u8>, size: Seq<u8>)
    requires
        size.len() == 4,
    ensures
        sniffed(seq![0x89u8, 0x50u8, 0x4Eu8, 0x47u8, 0x0Du8, 0x0Au8, 0x1Au8, 0x0Au8] + rest) == Some("png"@),
        sniffed(seq![0xFFu8, 0xD8u8, 0xFFu8] + rest) == Some("jpg"@),
        sniffed(seq![71u8, 73u8, 70u8, 56u8, 55u8, 97u8] + rest) == Some("gif"@),
        sniffed(seq![71u8, 73u8, 70u8, 56u8, 57u8, 97u8] + rest) == Some("gif"@),
        sniffed(seq![82u8, 73u8, 70u8, 70u8] + size + seq![87u8, 69u8, 66u8, 80u8] + rest) == Some("webp"@),
        rest.len() == 0 || !(rest[0] == 0x89 || rest[0] == 0xFF || rest[0] == 71 || rest[0] == 82) ==> sniffed(
            rest,
        ) is None,
{
    let png = seq![0x89u8, 0x50u8, 0x4Eu8, 0x47u8, 0x0Du8, 0x0Au8, 0x1Au8, 0x0Au8];
    let jpg = seq![0xFFu8, 0xD8u8, 0xFFu8];
    let g7 = seq![71u8, 73u8, 70u8, 56u8, 55u8, 97u8];
    let g9 = seq![71u8, 73u8, 70u8, 56u8, 57u8, 97u8];
    let riff = seq![82u8, 73u8, 70u8, 70u8];
    let webp = seq![87u8, 69u8, 66u8, 80u8];
    assert((png + rest).subrange(0, 8) =~= png);
    assert((jpg + rest).subrange(0, 3) =~= jpg);
    lemma_other_byte(jpg + rest, png);
    assert((g7 + rest).subrange(0, 6) =~= g7);
    lemma_other_byte(g7 + rest, png);
    lemma_other_byte(g7 + rest, jpg);
    assert((g9 + rest).subrange(0, 6) =~= g9);
    lemma_other_byte(g9 + rest, png);
    lemma_other_byte(g9 + rest, jpg);
    let w = riff + size + webp + rest;
    assert(w.subrange(0, 4) =~= riff);
    assert(w.subrange(8, 12) =~= webp);
    lemma_other_byte(w, png);
    lemma_other_byte(w, jpg);
    lemma_other_byte(w, g7);
    lemma_other_byte(w, g9);
    lemma_other_byte(rest, png);
    lemma_other_byte(rest, jpg);
    lemma_other_byte(rest, g7);
    lemma_other_byte(rest, g9);
    lemma_other_byte(rest, riff);
}

proof fn lemma_other_byte(b: Seq<u8>, pat: Seq<u8>)
    requires
        pat.len() > 0,
    ensures
        b.len() == 0 || b[0] != pat[0] ==> !bytes_at(b, pat, 0),
{
    if bytes_at(b, pat, 0) {
        assert(b.subrange(0, pat.len() as int)[0] == b[0]);
    }
}

/// The kind of an image that is sent with it, by its extension in whatever case.
pub proof fn law_kinds_of_images(ext: Seq<char>)
    ensures
        lower_text(ext) == "png"@ ==> mime_of(ext) == "image/png"@ && is_image_ext(ext),
        lower_text(ext) == "jpg"@ ==> mime_of(ext) == "image/jpeg"@ && is_image_ext(ext),
        lower_text(ext) == "jpeg"@ ==> mime_of(ext) == "image/jpeg"@ && is_image_ext(ext),
        lower_text(ext) == "gif"@ ==> mime_of(ext) == "image/gif"@ && is_image_ext(ext),
        lower_text(ext) == "webp"@ ==> mime_of(ext) == "image/webp"@ && is_image_ext(ext),
        lower_text(ext) == "bmp"@ ==> mime_of(ext) == "image/bmp"@ && is_image_ext(ext),
        lower_text(ext) == "svg"@ ==> mime_of(ext) == "image/svg+xml"@,
        ({
            let e = lower_text(ext);
            &&& is_image_ext(ext) ==> e == "png"@ || e == "jpg"@ || e == "jpeg"@ || e == "gif"@ || e
                == "webp"@ || e == "bmp"@
            &&& !is_image_ext(ext) && e != "svg"@ ==> mime_of(ext) == "application/octet-stream"@
        }),
{
    reveal_strlit("png");
    reveal_strlit("jpg");
    reveal_strlit("jpeg");
    reveal_strlit("gif");
    reveal_strlit("webp");
    reveal_strlit("bmp");
    reveal_strlit("svg");
    assert("png"@[0] == 'p' && "jpg"@[0] == 'j' && "jpeg"@[0] == 'j' && "gif"@[0] == 'g' && "webp"@[0] == 'w'
        && "bmp"@[0] == 'b' && "svg"@[0] == 's');
    assert("jpg"@.len() == 3 && "jpeg"@.len() == 4);
}

/// The extension of a file is what stands behind the last dot of its name, where something stands before the dot.
pub proof fn law_extension(path: Seq<char>, a: Seq<char>, b: Seq<char>)
    ensures
        file_name(path) == Some(a + seq!['.'] + b) && a.len() > 0 && !b.contains('.') ==> extension(path) == Some(
            b,
        ) && image_path(path) == is_image_ext(b),
        file_name(path) == Some(seq!['.'] + b) && !b.contains('.') ==> extension(path) is None && !image_path(
            path,
        ),
        file_name(path) == Some(b) && !b.contains('.') ==> extension(path) is None && !image_path(path),
        file_name(path) is None ==> extension(path) is None && !image_path(path),
{
    let s = a + seq!['.'] + b;
    if !b.contains('.') {
        lemma_last_dot(s, a.len() as int, s.len() as int);
        assert(s.skip((a.len() + 1) as int) =~= b);
        let t = seq!['.'] + b;
        lemma_last_dot(t, 0, t.len() as int);
        lemma_last_dot(b, -1, b.len() as int);
    }
}

proof fn lemma_last_dot(s: Seq<char>, k: int, n: int)
    requires
        -1 <= k < n <= s.len() || (k == -1 && n == 0),
        k >= 0 ==> s[k] == '.',
        !s.skip(k + 1).contains('.'),
    ensures
        last_pos_before(s, '.', n) == k,
    decreases n,
{
    if n > 0 {
        if n - 1 > k {
            assert(s.skip(k + 1)[n - 1 - (k + 1)] == s[n - 1]);
            assert(s[n - 1] != '.') by {
                if s[n - 1] == '.' {
                    assert(s.skip(k + 1).contains('.'));
                }
            }
            if n - 1 > 0 || k == -1 {
                lemma_last_dot(s, k, n - 1);
            }
        }
    }
}

/// An image is kept under the extension that comes with it, without dots before it and in small letters; without
/// one, under the format that its bytes tell, or as mere bytes.
pub proof fn law_kept_under(bytes: Seq<u8>, h: Seq<char>)
    ensures
        h.len() == 0 || h[0] != '.' ==> stored_ext(bytes, Some(h)) == lower_text(h),
        stored_ext(bytes, Some(seq!['.'] + h)) == stored_ext(bytes, Some(h)),
        sniffed(bytes) matches Some(e) ==> stored_ext(bytes, None) == e,
        sniffed(bytes) is None ==> stored_ext(bytes, None) == "bin"@,
        stored_ref(bytes, None).hash == hex_bytes(sha256_of(bytes)),
        stored_ref(bytes, Some(h)).hash == hex_bytes(sha256_of(bytes)),
        stored_ref(bytes, Some(h)).ext == stored_ext(bytes, Some(h)),
        stored_ref(bytes, None).ext == stored_ext(bytes, None),
{
    let s = seq!['.'] + h;
    assert(s.skip(1) =~= h);
}

} // verus!
