//! Texts that refer to images: `[img:<hash>.<ext>]` anywhere in them.

use crate::config::paths::{join_path, joined};
use crate::media::store::{images_dir, images_of, mime_from_ext, mime_of};
use crate::split::{last_pos, last_pos_before, last_pos_of, lemma_pos_from, pos_at, pos_from};
use crate::text::{
    chars_of, find, find_at, law_lower_case, lemma_find_from, lower, lower_str, lower_text, occurs_at,
    string_of,
};
use vstd::prelude::*;
use vstd::slice::slice_subrange;

verus! {

/// What a reference begins with.
pub const REF_OPEN: &'static str = "[img:";

/// An image in the store: the hash of its bytes, and its extension.
#[derive(Debug, PartialEq, Eq)]
pub struct ImageRef {
    pub hash: String,
    pub ext: String,
}

/// What a reference holds.
pub struct RefView {
    pub hash: Seq<char>,
    pub ext: Seq<char>,
}

impl View for ImageRef {
    type V = RefView;

    open spec fn view(&self) -> RefView {
        RefView { hash: self.hash@, ext: self.ext@ }
    }
}

/// A piece of a message.
#[derive(Debug, PartialEq, Eq)]
pub enum Segment {
    Text(String),
    Image(ImageRef),
}

/// What a piece holds.
pub enum SegmentView {
    Text(Seq<char>),
    Image(RefView),
}

impl View for Segment {
    type V = SegmentView;

    open spec fn view(&self) -> SegmentView {
        match self {
            Segment::Text(t) => SegmentView::Text(t@),
            Segment::Image(r) => SegmentView::Image(r@),
        }
    }
}

/// What a list of pieces holds.
pub open spec fn segment_views(v: Seq<Segment>) -> Seq<SegmentView> {
    v.map_values(|s: Segment| s@)
}

/// A reference as it stands in a text.
pub open spec fn token_of(r: RefView) -> Seq<char> {
    REF_OPEN@ + r.hash + "."@ + r.ext + "]"@
}

impl ImageRef {
    /// The reference as it stands in a text.
    pub fn token(&self) -> (r: String)
        ensures
            r@ == token_of(self@),
    {
        let mut s = REF_OPEN.to_owned();
        s.append(self.hash.as_str());
        s.append(".");
        s.append(self.ext.as_str());
        s.append("]");
        s
    }

    /// The media type.
    pub fn mime(&self) -> (r: &'static str)
        ensures
            r@ == mime_of(self.ext@),
    {
        mime_from_ext(self.ext.as_str())
    }

    /// Where the image is stored.
    pub fn path(&self, root: &str) -> (r: String)
        ensures
            r@ == joined(images_of(root@), self.hash@ + "."@ + self.ext@),
    {
        let mut name = self.hash.clone();
        name.append(".");
        name.append(self.ext.as_str());
        join_path(images_dir(root).as_str(), name.as_str())
    }
}

/// A hexadecimal digit.
pub open spec fn is_hex_digit(c: char) -> bool {
    '0' <= c <= '9' || 'a' <= c <= 'f' || 'A' <= c <= 'F'
}

/// An ASCII letter or digit.
pub open spec fn is_alnum(c: char) -> bool {
    '0' <= c <= '9' || 'a' <= c <= 'z' || 'A' <= c <= 'Z'
}

/// The text is hexadecimal digits throughout.
pub open spec fn all_hex(s: Seq<char>) -> bool {
    forall|i: int| 0 <= i < s.len() ==> is_hex_digit(#[trigger] s[i])
}

/// The text is ASCII letters and digits throughout.
pub open spec fn all_alnum(s: Seq<char>) -> bool {
    forall|i: int| 0 <= i < s.len() ==> is_alnum(#[trigger] s[i])
}

/// What stands between `[img:` and `]` is a hash, a dot and an extension.
pub open spec fn is_ref(body: Seq<char>) -> bool {
    let k = last_pos(body, '.');
    0 < k && k + 1 < body.len() && all_hex(body.take(k)) && all_alnum(body.skip(k + 1))
}

/// The reference that `body` stands for.
pub open spec fn ref_of(body: Seq<char>) -> RefView {
    let k = last_pos(body, '.');
    RefView { hash: body.take(k), ext: lower_text(body.skip(k + 1)) }
}

/// The references of a text and what stands between them, cut also behind the bracket of what looks like a
/// reference and is none.
pub open spec fn pieces(s: Seq<char>) -> Seq<SegmentView>
    decreases s.len(),
{
    if s.len() == 0 {
        Seq::empty()
    } else {
        match find(s, REF_OPEN@) {
            None => seq![SegmentView::Text(s)],
            Some(open) => {
                proof {
                    lemma_find_from(s, REF_OPEN@, 0);
                }
                let start = open + REF_OPEN@.len();
                let close = pos_from(s, ']', start);
                if close >= s.len() {
                    seq![SegmentView::Text(s)]
                } else if is_ref(s.subrange(start, close)) {
                    let head = if open > 0 {
                        seq![SegmentView::Text(s.take(open))]
                    } else {
                        Seq::empty()
                    };
                    proof {
                        lemma_pos_from(s, ']', start);
                    }
                    head + seq![SegmentView::Image(ref_of(s.subrange(start, close)))] + pieces(
                        s.skip(close + 1),
                    )
                } else {
                    seq![SegmentView::Text(s.take(open + 1))] + pieces(s.skip(open + 1))
                }
            },
        }
    }
}

/// One of the pieces is an image.
pub open spec fn has_image(ps: Seq<SegmentView>) -> bool {
    exists|i: int| 0 <= i < ps.len() && #[trigger] ps[i] is Image
}

/// The pieces of a text: its references, and what stands between them. A text without a reference is one
/// piece, whatever it looks like.
pub open spec fn segments(s: Seq<char>) -> Seq<SegmentView> {
    if has_image(pieces(s)) {
        pieces(s)
    } else {
        seq![SegmentView::Text(s)]
    }
}

fn hex_throughout(s: &[char]) -> (r: bool)
    ensures
        r == all_hex(s@),
{
    let mut i: usize = 0;
    while i < s.len()
        invariant
            i <= s@.len(),
            forall|j: int| 0 <= j < i ==> is_hex_digit(#[trigger] s@[j]),
        decreases s@.len() - i,
    {
        let c = s[i];
        if !(('0' <= c && c <= '9') || ('a' <= c && c <= 'f') || ('A' <= c && c <= 'F')) {
            assert(!is_hex_digit(s@[i as int]));
            return false;
        }
        i += 1;
    }
    true
}

/// Whether the text is ASCII letters and digits throughout.
fn alnum_throughout(s: &[char]) -> (r: bool)
    ensures
        r == all_alnum(s@),
{
    let mut i: usize = 0;
    while i < s.len()
        invariant
            i <= s@.len(),
            forall|j: int| 0 <= j < i ==> is_alnum(#[trigger] s@[j]),
        decreases s@.len() - i,
    {
        let c = s[i];
        if !(('0' <= c && c <= '9') || ('a' <= c && c <= 'z') || ('A' <= c && c <= 'Z')) {
            assert(!is_alnum(s@[i as int]));
            return false;
        }
        i += 1;
    }
    true
}

/// The reference that `body` stands for, if it is one.
fn read_ref(body: &[char]) -> (r: Option<ImageRef>)
    ensures
        match r {
            Some(x) => is_ref(body@) && x@ == ref_of(body@),
            None => !is_ref(body@),
        },
{
    let n: usize = body.len();
    match last_pos_of(body, '.') {
        None => None,
        Some(k) => {
            if k == 0 || k + 1 >= n {
                return None;
            }
            let hash = slice_subrange(body, 0, k);
            let ext = slice_subrange(body, k + 1, n);
            assert(hash@ =~= body@.take(k as int));
            assert(ext@ =~= body@.skip(k + 1));
            if !hex_throughout(hash) || !alnum_throughout(ext) {
                return None;
            }
            let e = string_of(ext);
            Some(ImageRef { hash: string_of(hash), ext: lower_str(e.as_str()) })
        },
    }
}

/// A text more is no image more.
proof fn lemma_text_added(ps: Seq<SegmentView>, t: Seq<char>)
    ensures
        has_image(ps + seq![SegmentView::Text(t)]) == has_image(ps),
{
    let qs = ps + seq![SegmentView::Text(t)];
    if has_image(ps) {
        let i = choose|i: int| 0 <= i < ps.len() && #[trigger] ps[i] is Image;
        assert(qs[i] is Image);
    }
    if has_image(qs) {
        let i = choose|i: int| 0 <= i < qs.len() && #[trigger] qs[i] is Image;
        assert(ps[i] is Image);
    }
}

/// The references of a text and what stands between them, and whether there is a reference.
fn parse_pieces(text: &str) -> (r: (Vec<Segment>, bool))
    ensures
        segment_views(r.0@) == pieces(text@),
        r.1 == has_image(pieces(text@)),
{
    let a = chars_of(text);
    let s = a.as_slice();
    let o = chars_of(REF_OPEN);
    let n: usize = s.len();
    let mut out: Vec<Segment> = Vec::new();
    let mut image = false;
    let mut cursor: usize = 0;
    assert(s@.skip(0) =~= text@);
    assert(segment_views(out@) + pieces(text@) =~= pieces(text@));
    while cursor < n
        invariant
            cursor <= n,
            n == s@.len(),
            s@ == text@,
            o@ == REF_OPEN@,
            segment_views(out@) + pieces(text@.skip(cursor as int)) == pieces(text@),
            image == has_image(segment_views(out@)),
        decreases n - cursor,
    {
        let rest = slice_subrange(s, cursor, n);
        let ghost rv = text@.skip(cursor as int);
        assert(rest@ =~= rv);
        let ghost before = segment_views(out@);
        let m: usize = rest.len();
        let open = match find_at(rest, o.as_slice(), 0) {
            Some(k) => k,
            None => {
                out.push(Segment::Text(string_of(rest)));
                assert(segment_views(out@) =~= before + seq![SegmentView::Text(rv)]);
                proof {
                    lemma_text_added(before, rv);
                }
                return (out, image);
            },
        };
        let start: usize = open + o.len();
        let close: usize = pos_at(rest, ']', start);
        if close >= m {
            out.push(Segment::Text(string_of(rest)));
            assert(segment_views(out@) =~= before + seq![SegmentView::Text(rv)]);
            proof {
                lemma_text_added(before, rv);
            }
            return (out, image);
        }
        let body = slice_subrange(rest, start, close);
        match read_ref(body) {
            Some(r) => {
                let ghost r_view = r@;
                if open > 0 {
                    let head = slice_subrange(rest, 0, open);
                    assert(head@ =~= rv.take(open as int));
                    out.push(Segment::Text(string_of(head)));
                    assert(segment_views(out@) =~= before + seq![
                        SegmentView::Text(rv.take(open as int)),
                    ]);
                }
                let ghost mid = segment_views(out@);
                out.push(Segment::Image(r));
                assert(segment_views(out@) =~= mid + seq![SegmentView::Image(r_view)]);
                assert(rv.skip(close + 1) =~= text@.skip(cursor + close + 1));
                let ghost tail = pieces(rv.skip(close + 1));
                assert(segment_views(out@) + tail =~= before + pieces(rv));
                image = true;
                assert(segment_views(out@)[out@.len() - 1] is Image);
                cursor = cursor + close + 1;
            },
            None => {
                let head = slice_subrange(rest, 0, open + 1);
                assert(head@ =~= rv.take(open + 1));
                out.push(Segment::Text(string_of(head)));
                assert(segment_views(out@) =~= before + seq![SegmentView::Text(rv.take(open + 1))]);
                proof {
                    lemma_text_added(before, rv.take(open + 1));
                }
                assert(rv.skip(open + 1) =~= text@.skip(cursor + open + 1));
                let ghost tail = pieces(rv.skip(open + 1));
                assert(segment_views(out@) + tail =~= before + pieces(rv));
                cursor = cursor + open + 1;
            },
        }
    }
    assert(text@.skip(cursor as int) =~= Seq::<char>::empty());
    assert(segment_views(out@) + Seq::<SegmentView>::empty() =~= segment_views(out@));
    (out, image)
}

/// The pieces of a text.
pub fn parse_segments(text: &str) -> (r: Vec<Segment>)
    ensures
        segment_views(r@) == segments(text@),
{
    let (out, image) = parse_pieces(text);
    if image {
        return out;
    }
    let mut one: Vec<Segment> = Vec::new();
    one.push(Segment::Text(text.to_owned()));
    assert(segment_views(one@) =~= seq![SegmentView::Text(text@)]);
    one
}

// ---------------------------------------------------------------------------------------------
// Laws
// ---------------------------------------------------------------------------------------------

/// A piece as it stands in a text.
pub open spec fn piece_text(p: SegmentView) -> Seq<char> {
    match p {
        SegmentView::Text(t) => t,
        SegmentView::Image(r) => token_of(r),
    }
}

/// The text that pieces make up.
pub open spec fn reassembled(ps: Seq<SegmentView>) -> Seq<char>
    decreases ps.len(),
{
    if ps.len() == 0 {
        Seq::empty()
    } else {
        piece_text(ps[0]) + reassembled(ps.skip(1))
    }
}

/// The extension of every reference is in lower case.
pub open spec fn refs_lower(s: Seq<char>) -> bool
    decreases s.len(),
{
    if s.len() == 0 {
        true
    } else {
        match find(s, REF_OPEN@) {
            None => true,
            Some(open) => {
                proof {
                    lemma_find_from(s, REF_OPEN@, 0);
                }
                let start = open + REF_OPEN@.len();
                let close = pos_from(s, ']', start);
                if close >= s.len() {
                    true
                } else if is_ref(s.subrange(start, close)) {
                    let body = s.subrange(start, close);
                    let ext = body.skip(last_pos(body, '.') + 1);
                    proof {
                        lemma_pos_from(s, ']', start);
                    }
                    lower_text(ext) == ext && refs_lower(s.skip(close + 1))
                } else {
                    refs_lower(s.skip(open + 1))
                }
            },
        }
    }
}

proof fn lemma_reassembled_concat(a: Seq<SegmentView>, b: Seq<SegmentView>)
    ensures
        reassembled(a + b) == reassembled(a) + reassembled(b),
    decreases a.len(),
{
    if a.len() == 0 {
        assert(a + b =~= b);
        assert(reassembled(a) + reassembled(b) =~= reassembled(b));
    } else {
        assert((a + b).skip(1) =~= a.skip(1) + b);
        lemma_reassembled_concat(a.skip(1), b);
        assert(reassembled(a + b) =~= reassembled(a) + reassembled(b));
    }
}

proof fn lemma_reassembled_one(p: SegmentView)
    ensures
        reassembled(seq![p]) == piece_text(p),
{
    assert(seq![p].skip(1) =~= Seq::<SegmentView>::empty());
    assert(piece_text(p) + reassembled(seq![p].skip(1)) =~= piece_text(p));
}

proof fn lemma_last_pos(s: Seq<char>, c: char, n: int)
    requires
        0 <= n <= s.len(),
    ensures
        -1 <= last_pos_before(s, c, n) < n || (n == 0 && last_pos_before(s, c, n) == -1),
        last_pos_before(s, c, n) >= 0 ==> s[last_pos_before(s, c, n)] == c,
        forall|j: int| last_pos_before(s, c, n) < j < n ==> s[j] != c,
    decreases n,
{
    if n > 0 && s[n - 1] != c {
        lemma_last_pos(s, c, n - 1);
    }
}

/// The text with the extensions of its references in lower case.
pub open spec fn refs_lowered(s: Seq<char>) -> Seq<char>
    decreases s.len(),
{
    if s.len() == 0 {
        s
    } else {
        match find(s, REF_OPEN@) {
            None => s,
            Some(open) => {
                proof {
                    lemma_find_from(s, REF_OPEN@, 0);
                }
                let start = open + REF_OPEN@.len();
                let close = pos_from(s, ']', start);
                if close >= s.len() {
                    s
                } else if is_ref(s.subrange(start, close)) {
                    let dot = start + last_pos(s.subrange(start, close), '.');
                    proof {
                        lemma_pos_from(s, ']', start);
                    }
                    s.take(dot + 1) + lower_text(s.subrange(dot + 1, close)) + "]"@ + refs_lowered(
                        s.skip(close + 1),
                    )
                } else {
                    s.take(open + 1) + refs_lowered(s.skip(open + 1))
                }
            },
        }
    }
}

proof fn lemma_image_concat(a: Seq<SegmentView>, b: Seq<SegmentView>)
    ensures
        has_image(a + b) == (has_image(a) || has_image(b)),
{
    let c = a + b;
    if has_image(a) {
        let i = choose|i: int| 0 <= i < a.len() && #[trigger] a[i] is Image;
        assert(c[i] is Image);
    }
    if has_image(b) {
        let i = choose|i: int| 0 <= i < b.len() && #[trigger] b[i] is Image;
        assert(c[a.len() + i] is Image);
    }
    if has_image(c) {
        let i = choose|i: int| 0 <= i < c.len() && #[trigger] c[i] is Image;
        if i < a.len() {
            assert(a[i] is Image);
        } else {
            assert(b[i - a.len()] is Image);
        }
    }
}

/// Lower case is taken character by character.
proof fn lemma_lower_concat(a: Seq<char>, b: Seq<char>)
    ensures
        lower_text(a + b) == lower_text(a) + lower_text(b),
        lower_text(lower_text(a)) == lower_text(a),
{
    assert(lower_text(a + b) =~= lower_text(a) + lower_text(b));
    assert(lower_text(lower_text(a)) =~= lower_text(a));
}

proof fn lemma_pieces_reassembled(s: Seq<char>)
    ensures
        reassembled(pieces(s)) == refs_lowered(s),
        !has_image(pieces(s)) ==> refs_lowered(s) == s,
        refs_lower(s) ==> refs_lowered(s) == s,
        lower_text(refs_lowered(s)) == lower_text(s),
    decreases s.len(),
{
    if s.len() > 0 {
        match find(s, REF_OPEN@) {
            None => {
                lemma_reassembled_one(SegmentView::Text(s));
            },
            Some(open) => {
                lemma_find_from(s, REF_OPEN@, 0);
                let start = open + REF_OPEN@.len();
                let close = pos_from(s, ']', start);
                if close >= s.len() {
                    lemma_reassembled_one(SegmentView::Text(s));
                } else if is_ref(s.subrange(start, close)) {
                    lemma_pos_from(s, ']', start);
                    let body = s.subrange(start, close);
                    let k = last_pos(body, '.');
                    let dot = start + k;
                    lemma_last_pos(body, '.', body.len() as int);
                    let head = if open > 0 {
                        seq![SegmentView::Text(s.take(open))]
                    } else {
                        Seq::empty()
                    };
                    let image = SegmentView::Image(ref_of(body));
                    let after = s.skip(close + 1);
                    let rest = pieces(after);
                    lemma_pieces_reassembled(after);
                    lemma_reassembled_concat(head + seq![image], rest);
                    lemma_reassembled_concat(head, seq![image]);
                    lemma_reassembled_one(image);
                    if open > 0 {
                        lemma_reassembled_one(SegmentView::Text(s.take(open)));
                    } else {
                        assert(s.take(0) =~= Seq::<char>::empty());
                    }
                    reveal_strlit(".");
                    reveal_strlit("]");
                    let ext = body.skip(k + 1);
                    assert(s.subrange(dot + 1, close) =~= ext);
                    assert(s.subrange(open, start) == REF_OPEN@);
                    assert(s.take(dot + 1) =~= s.take(open) + s.subrange(open, start) + body.take(k) + "."@);
                    let front = s.take(dot + 1);
                    let low = front + lower_text(ext) + "]"@;
                    assert(s.take(open) + token_of(ref_of(body)) =~= low);
                    assert(pieces(s) =~= head + seq![image] + rest);
                    assert(reassembled(pieces(s)) =~= low + refs_lowered(after));
                    assert((head + seq![image])[head.len() as int] is Image);
                    lemma_image_concat(head + seq![image], rest);
                    assert(has_image(pieces(s)));
                    assert(s =~= front + ext + "]"@ + after);
                    lemma_lower_concat(front, ext);
                    lemma_lower_concat(front, lower_text(ext));
                    lemma_lower_concat(ext, ext);
                    lemma_lower_concat(front + ext, "]"@);
                    lemma_lower_concat(front + lower_text(ext), "]"@);
                    lemma_lower_concat(front + ext + "]"@, after);
                    lemma_lower_concat(low, refs_lowered(after));
                } else {
                    let first = SegmentView::Text(s.take(open + 1));
                    let after = s.skip(open + 1);
                    lemma_pieces_reassembled(after);
                    lemma_reassembled_concat(seq![first], pieces(after));
                    lemma_reassembled_one(first);
                    lemma_image_concat(seq![first], pieces(after));
                    assert(s =~= s.take(open + 1) + after);
                    lemma_lower_concat(s.take(open + 1), after);
                    lemma_lower_concat(s.take(open + 1), refs_lowered(after));
                }
            },
        }
    }
}

/// Put together again, the pieces of a text are the text with the extensions of its references in lower case:
/// the text itself where they are, and but for upper and lower case always.
pub proof fn law_text_reassembled(s: Seq<char>)
    ensures
        reassembled(segments(s)) == refs_lowered(s),
        refs_lower(s) ==> reassembled(segments(s)) == s,
        lower_text(reassembled(segments(s))) == lower_text(s),
{
    lemma_pieces_reassembled(s);
    lemma_reassembled_one(SegmentView::Text(s));
}

/// A text without the beginning of a reference is one piece.
pub proof fn law_no_reference_one_piece(s: Seq<char>)
    requires
        find(s, REF_OPEN@) is None,
    ensures
        segments(s) == seq![SegmentView::Text(s)],
{
    if has_image(pieces(s)) {
        let i = choose|i: int| 0 <= i < pieces(s).len() && #[trigger] pieces(s)[i] is Image;
        assert(pieces(s)[i] is Text);
    }
}

/// A reference that is well formed: a hash in hexadecimal and an extension in lower case.
pub open spec fn well_formed(r: RefView) -> bool {
    r.hash.len() > 0 && r.ext.len() > 0 && all_hex(r.hash) && all_alnum(r.ext) && lower_text(r.ext)
        == r.ext
}

/// A well-formed reference is read back from its token, and nothing else with it.
pub proof fn law_token_roundtrip(r: RefView)
    requires
        well_formed(r),
    ensures
        segments(token_of(r)) == seq![SegmentView::Image(r)],
{
    reveal_strlit("[img:");
    reveal_strlit(".");
    reveal_strlit("]");
    let t = token_of(r);
    let body = r.hash + "."@ + r.ext;
    assert(t.len() == 5 + body.len() + 1);
    assert(t.subrange(0, 5) =~= REF_OPEN@);
    assert(occurs_at(t, REF_OPEN@, 0));
    assert(find(t, REF_OPEN@) == Some(0int));
    let close = pos_from(t, ']', 5);
    lemma_pos_from(t, ']', 5);
    assert(t[5 + body.len() as int] == ']');
    assert forall|j: int| 5 <= j < 5 + body.len() implies t[j] != ']' by {
        assert(t[j] == body[j - 5]);
        if j - 5 < r.hash.len() {
            assert(body[j - 5] == r.hash[j - 5]);
            assert(is_hex_digit(r.hash[j - 5]));
        } else if j - 5 > r.hash.len() {
            let i = j - 5 - r.hash.len() - 1;
            assert(body[j - 5] == r.ext[i]);
            assert(is_alnum(r.ext[i]));
        }
    }
    assert(close == 5 + body.len());
    assert(t.subrange(5, close) =~= body);
    let k = last_pos(body, '.');
    lemma_last_pos(body, '.', body.len() as int);
    assert(body[r.hash.len() as int] == '.');
    assert(k == r.hash.len()) by {
        if k > r.hash.len() {
            let i = k - r.hash.len() - 1;
            assert(body[k] == r.ext[i]);
            assert(is_alnum(r.ext[i]));
        }
    }
    assert(body.take(k) =~= r.hash);
    assert(body.skip(k + 1) =~= r.ext);
    assert(is_ref(body));
    assert(ref_of(body) == r);
    assert(t.skip(close + 1) =~= Seq::<char>::empty());
    assert(pieces(t.skip(close + 1)) =~= Seq::<SegmentView>::empty());
    assert(pieces(t) == Seq::<SegmentView>::empty() + seq![SegmentView::Image(ref_of(body))] + pieces(
        t.skip(close + 1),
    ));
    assert(pieces(t) =~= seq![SegmentView::Image(r)]);
    assert(pieces(t)[0] is Image);
}

/// The token of an image is its hash, a dot and its extension in brackets.
pub proof fn law_token_written(r: RefView)
    ensures
        token_of(r) == "[img:"@ + r.hash + "."@ + r.ext + "]"@,
{
}

/// Every image in a text is found, wherever it stands: what stands before it is one piece of text, it is the next
/// piece, and what stands behind it is taken apart in the same way.
pub proof fn law_image_in_its_place(t: Seq<char>, r: RefView, rest: Seq<char>)
    requires
        find(t, "[img:"@) is None,
        well_formed(r),
    ensures
        segments(t + token_of(r) + rest) == (if t.len() > 0 {
            seq![SegmentView::Text(t)]
        } else {
            Seq::empty()
        }) + seq![SegmentView::Image(r)] + pieces(rest),
        pieces(t + token_of(r) + rest) == segments(t + token_of(r) + rest),
{
    let s = t + token_of(r) + rest;
    let n = t.len() as int;
    let body = r.hash + "."@ + r.ext;
    let close = n + 5 + body.len();
    reveal_strlit("[img:");
    assert("[img:"@[1] == 'i' && "[img:"@[2] == 'm' && "[img:"@[3] == 'g' && "[img:"@[4] == ':');
    lemma_first_opening(t, "[img:"@, body + "]"@ + rest);
    assert(s =~= t + "[img:"@ + (body + "]"@ + rest));
    lemma_token_body(t, r, rest);
    assert(s.take(n) =~= t);
    reveal_strlit("]");
    assert(s.skip(close + 1) =~= rest);
    let img = SegmentView::Image(r);
    let head = if n > 0 {
        seq![SegmentView::Text(t)]
    } else {
        Seq::empty()
    };
    assert(pieces(s) == head + seq![img] + pieces(rest));
    assert(pieces(s)[head.len() as int] is Image);
}

/// A text of five characters that has its first one nowhere else stands first where it is added to a text that does
/// not hold it.
proof fn lemma_first_opening(t: Seq<char>, p: Seq<char>, u: Seq<char>)
    requires
        find(t, p) is None,
        p.len() == 5,
        forall|i: int| 1 <= i < 5 ==> (#[trigger] p[i]) != p[0],
    ensures
        find(t + p + u, p) == Some(t.len() as int),
{
    let s = t + p + u;
    let n = t.len() as int;
    assert(s.subrange(n, n + 5) =~= p);
    assert(occurs_at(s, p, n));
    lemma_find_from(s, p, 0);
    lemma_find_from(t, p, 0);
    let k = find(s, p)->0;
    assert(0 <= k <= n);
    if k < n {
        lemma_not_before(t, p, u, k);
    }
}

proof fn lemma_not_before(t: Seq<char>, p: Seq<char>, u: Seq<char>, k: int)
    requires
        0 <= k < t.len(),
        p.len() == 5,
        !occurs_at(t, p, k),
        forall|i: int| 1 <= i < 5 ==> (#[trigger] p[i]) != p[0],
    ensures
        !occurs_at(t + p + u, p, k),
{
    let s = t + p + u;
    let n = t.len() as int;
    if occurs_at(s, p, k) {
        let w = s.subrange(k, k + 5);
        if k + 5 <= n {
            assert(w =~= t.subrange(k, k + 5));
        } else {
            assert(w[n - k] == s[n]);
            assert(s[n] == p[0]);
            assert(p[n - k] != p[0]);
        }
    }
}

proof fn lemma_token_body(t: Seq<char>, r: RefView, rest: Seq<char>)
    requires
        well_formed(r),
    ensures
        ({
            let s = t + token_of(r) + rest;
            let body = r.hash + "."@ + r.ext;
            let start = t.len() + 5;
            let close = start + body.len();
            &&& close < s.len()
            &&& pos_from(s, ']', start as int) == close
            &&& s.subrange(start as int, close as int) == body
            &&& is_ref(body)
            &&& ref_of(body) == r
        }),
{
    let s = t + token_of(r) + rest;
    let body = r.hash + "."@ + r.ext;
    let start = t.len() + 5;
    let close = start + body.len();
    reveal_strlit("[img:");
    reveal_strlit(".");
    reveal_strlit("]");
    lemma_pos_from(s, ']', start as int);
    assert(s[close as int] == ']');
    assert forall|j: int| start <= j < close implies s[j] != ']' by {
        let i = j - start;
        assert(s[j] == body[i]);
        if i < r.hash.len() {
            assert(body[i] == r.hash[i]);
            assert(is_hex_digit(r.hash[i]));
        } else if i > r.hash.len() {
            assert(body[i] == r.ext[i - r.hash.len() - 1]);
            assert(is_alnum(r.ext[i - r.hash.len() - 1]));
        }
    }
    assert(s.subrange(start as int, close as int) =~= body);
    let k = last_pos(body, '.');
    lemma_last_pos(body, '.', body.len() as int);
    assert(body[r.hash.len() as int] == '.');
    assert(k == r.hash.len()) by {
        if k > r.hash.len() {
            let i = k - r.hash.len() - 1;
            assert(body[k] == r.ext[i]);
            assert(is_alnum(r.ext[i]));
        }
    }
    assert(body.take(k) =~= r.hash);
    assert(body.skip(k + 1) =~= r.ext);
}

/// Every image that is found is named by hexadecimal digits and has an extension.
pub proof fn law_images_named(s: Seq<char>, i: int)
    requires
        0 <= i < segments(s).len(),
    ensures
        segments(s)[i] matches SegmentView::Image(r) ==> {
            &&& r.hash.len() > 0
            &&& r.ext.len() > 0
            &&& forall|k: int|
                0 <= k < r.hash.len() ==> ('0' <= (#[trigger] r.hash[k]) <= '9' || 'a' <= r.hash[k] <= 'f' || 'A'
                    <= r.hash[k] <= 'F')
        },
{
    lemma_images_named(s);
    if has_image(pieces(s)) {
        assert(pieces(s)[i] is Image ==> named_well(pieces(s)[i]));
    }
}

spec fn named_well(p: SegmentView) -> bool {
    p matches SegmentView::Image(r) ==> r.hash.len() > 0 && r.ext.len() > 0 && all_hex(r.hash)
}

proof fn lemma_images_named(s: Seq<char>)
    ensures
        forall|i: int| 0 <= i < pieces(s).len() ==> named_well(#[trigger] pieces(s)[i]),
    decreases s.len(),
{
    if s.len() > 0 {
        if let Some(open) = find(s, REF_OPEN@) {
            lemma_find_from(s, REF_OPEN@, 0);
            reveal_strlit("[img:");
            let start = open + REF_OPEN@.len();
            let close = pos_from(s, ']', start);
            lemma_pos_from(s, ']', start);
            if close < s.len() {
                let body = s.subrange(start, close);
                if is_ref(body) {
                    let tail = pieces(s.skip(close + 1));
                    lemma_images_named(s.skip(close + 1));
                    let head = if open > 0 {
                        seq![SegmentView::Text(s.take(open))]
                    } else {
                        Seq::empty()
                    };
                    assert(named_well(SegmentView::Image(ref_of(body)))) by {
                        law_lower_case(body.skip(last_pos(body, '.') + 1));
                    }
                    assert(pieces(s) =~= head + seq![SegmentView::Image(ref_of(body))] + tail);
                    assert forall|i: int| 0 <= i < pieces(s).len() implies named_well(
                        #[trigger] pieces(s)[i],
                    ) by {
                        if i > head.len() {
                            assert(pieces(s)[i] == tail[i - head.len() - 1]);
                        }
                    }
                } else {
                    let tail = pieces(s.skip(open + 1));
                    lemma_images_named(s.skip(open + 1));
                    assert(pieces(s) =~= seq![SegmentView::Text(s.take(open + 1))] + tail);
                    assert forall|i: int| 0 <= i < pieces(s).len() implies named_well(
                        #[trigger] pieces(s)[i],
                    ) by {
                        if i > 0 {
                            assert(pieces(s)[i] == tail[i - 1]);
                        }
                    }
                }
            }
        }
    }
}

} // verus!
