//! What one history entry holds, and the one-line preview shown for it.
use vstd::prelude::*;

use crate::text;
use crate::text::{chars_of, push_char, push_decimal, trim_bounds};

verus! {

/// The content of one clipboard entry: a text, or an image kept as PNG bytes
/// together with its size in pixels.
#[derive(Debug, PartialEq, Eq)]
pub enum Content {
    /// A text entry.
    Text(String),
    /// An image: PNG bytes and the size in pixels.
    Image { png: Vec<u8>, width: u32, height: u32 },
}

/// The mathematical value of a [`Content`].
pub enum ContentView {
    Text(Seq<char>),
    Image { png: Seq<u8>, width: u32, height: u32 },
}

impl View for Content {
    type V = ContentView;

    open spec fn view(&self) -> ContentView {
        match self {
            Content::Text(t) => ContentView::Text(t@),
            Content::Image { png, width, height } => ContentView::Image {
                png: png@,
                width: *width,
                height: *height,
            },
        }
    }
}

impl Clone for Content {
    fn clone(&self) -> (r: Self)
        ensures
            r@ == self@,
    {
        match self {
            Content::Text(t) => Content::Text(t.clone()),
            Content::Image { png, width, height } => {
                let copy = png.clone();
                assert(copy@ =~= png@);
                Content::Image { png: copy, width: *width, height: *height }
            },
        }
    }
}

/// One entry of the clipboard history.
#[derive(Debug, PartialEq, Eq)]
pub struct ClipItem {
    /// Identifier in the history; a larger id is a newer entry.
    pub id: i64,
    /// The content itself.
    pub content: Content,
    /// When the content last appeared on the clipboard, in Unix milliseconds.
    pub created_at: i64,
}

/// The mathematical value of a [`ClipItem`].
pub struct ClipItemView {
    pub id: i64,
    pub content: ContentView,
    pub created_at: i64,
}

impl View for ClipItem {
    type V = ClipItemView;

    open spec fn view(&self) -> ClipItemView {
        ClipItemView { id: self.id, content: self.content@, created_at: self.created_at }
    }
}

impl Clone for ClipItem {
    fn clone(&self) -> (r: Self)
        ensures
            r@ == self@,
    {
        ClipItem { id: self.id, content: self.content.clone(), created_at: self.created_at }
    }
}

/// The character that marks a shortened preview.
pub open spec fn ellipsis() -> char {
    '\u{2026}'
}

/// Line feed, carriage return and tab become a space; other characters stay.
pub open spec fn flatten_control(c: char) -> char {
    if c == '\n' || c == '\r' || c == '\t' {
        ' '
    } else {
        c
    }
}

/// `s` with its line breaks and tabs turned into spaces.
pub open spec fn one_line(s: Seq<char>) -> Seq<char> {
    s.map_values(|c: char| flatten_control(c))
}

/// The preview of a text: on one line, trimmed, and cut after `max_chars`
/// characters with an ellipsis where something was cut.
pub open spec fn text_preview(s: Seq<char>, max_chars: nat) -> Seq<char> {
    let t = text::trim_ws(one_line(s));
    if t.len() > max_chars {
        t.take(max_chars as int).push(ellipsis())
    } else {
        t
    }
}

/// The caption of an image: a picture sign, a space, then `W×H` in decimal.
pub open spec fn image_caption(width: u32, height: u32) -> Seq<char> {
    seq!['\u{1F5BC}', ' '] + text::decimal(width as nat) + seq!['\u{00D7}'] + text::decimal(height as nat)
}

/// The preview of any content.
pub open spec fn preview_of(c: ContentView, max_chars: nat) -> Seq<char> {
    match c {
        ContentView::Text(t) => text_preview(t, max_chars),
        ContentView::Image { width, height, .. } => image_caption(width, height),
    }
}

fn flatten(c: char) -> (r: char)
    ensures
        r == flatten_control(c),
{
    if c == '\n' || c == '\r' || c == '\t' {
        ' '
    } else {
        c
    }
}

impl Content {
    /// A short one-line preview for lists: for a text, line breaks and tabs
    /// become spaces, surrounding whitespace goes, and at most `max_chars`
    /// characters are kept, followed by an ellipsis if more were there; for an
    /// image, its size as `🖼 W×H`.
    pub fn preview(&self, max_chars: usize) -> (p: String)
        ensures
            p@ == preview_of(self@, max_chars as nat),
    {
        match self {
            Content::Text(text) => {
                let raw = chars_of(text.as_str());
                let n = raw.len();
                let mut line: Vec<char> = Vec::new();
                let mut i: usize = 0;
                while i < n
                    invariant
                        n == raw.len(),
                        raw@ == text@,
                        i <= n,
                        line@ == one_line(raw@.take(i as int)),
                    decreases n - i,
                {
                    line.push(flatten(raw[i]));
                    i = i + 1;
                    assert(line@ =~= one_line(raw@.take(i as int)));
                }
                assert(raw@.take(n as int) =~= raw@);
                let (start, end) = trim_bounds(&line);
                let count = end - start;
                let keep = if count > max_chars {
                    max_chars
                } else {
                    count
                };
                let mut out = String::new();
                let mut k: usize = 0;
                while k < keep
                    invariant
                        start <= end <= line.len(),
                        keep <= end - start,
                        k <= keep,
                        out@ == line@.subrange(start as int, start + k),
                    decreases keep - k,
                {
                    push_char(&mut out, line[start + k]);
                    k = k + 1;
                    assert(out@ =~= line@.subrange(start as int, start + k));
                }
                let ghost t = line@.subrange(start as int, end as int);
                assert(out@ =~= t.take(keep as int));
                if count > max_chars {
                    push_char(&mut out, '\u{2026}');
                } else {
                    assert(t.take(keep as int) =~= t);
                }
                out
            },
            Content::Image { width, height, .. } => {
                let mut out = String::new();
                push_char(&mut out, '\u{1F5BC}');
                push_char(&mut out, ' ');
                push_decimal(&mut out, *width);
                push_char(&mut out, '\u{00D7}');
                push_decimal(&mut out, *height);
                assert(out@ =~= image_caption(*width, *height));
                out
            },
        }
    }
}

impl ClipItem {
    /// The text of the entry if it is a text entry, else `None`.
    pub fn text(&self) -> (r: Option<&str>)
        ensures
            match self.content@ {
                ContentView::Text(t) => r matches Some(s) && s@ == t,
                ContentView::Image { .. } => r is None,
            },
    {
        match &self.content {
            Content::Text(t) => Some(t.as_str()),
            Content::Image { .. } => None,
        }
    }

    /// The image of the entry as `(PNG bytes, width, height)` if it is an
    /// image entry, else `None`.
    pub fn image(&self) -> (r: Option<(&[u8], u32, u32)>)
        ensures
            match self.content@ {
                ContentView::Image { png, width, height } => r matches Some(
                    (b, w, h),
                ) && b@ == png && w == width && h == height,
                ContentView::Text(_) => r is None,
            },
    {
        match &self.content {
            Content::Image { png, width, height } => Some((png.as_slice(), *width, *height)),
            Content::Text(_) => None,
        }
    }
}

/// A text preview never spans lines: it holds no line feed, carriage return
/// or tab.
pub proof fn lemma_text_preview_is_one_line(s: Seq<char>, max_chars: nat)
    ensures
        forall|i: int|
            0 <= i < text_preview(s, max_chars).len() ==> {
                let c = #[trigger] text_preview(s, max_chars)[i];
                c != '\n' && c != '\r' && c != '\t'
            },
{
    let l = one_line(s);
    assert forall|i: int| 0 <= i < l.len() implies {
        let c = #[trigger] l[i];
        c != '\n' && c != '\r' && c != '\t'
    } by {}
    text::lemma_trim_is_subrange(l);
    let t = text::trim_ws(l);
    let p = text_preview(s, max_chars);
    assert forall|i: int| 0 <= i < p.len() implies {
        let c = #[trigger] p[i];
        c != '\n' && c != '\r' && c != '\t'
    } by {
        if t.len() > max_chars && i == max_chars {
        } else {
            let (a, b) = choose|a: int, b: int|
                0 <= a <= b <= l.len() && t == l.subrange(a, b);
            assert(p[i] == t[i]);
            assert(t[i] == l[a + i]);
        }
    }
}

/// A text preview is at most one character longer than `max_chars`, and is
/// the whole trimmed one-line text when that fits.
pub proof fn lemma_text_preview_length(s: Seq<char>, max_chars: nat)
    ensures
        text_preview(s, max_chars).len() <= max_chars + 1,
        text::trim_ws(one_line(s)).len() <= max_chars ==> text_preview(s, max_chars) == text::trim_ws(
            one_line(s),
        ),
        text::trim_ws(one_line(s)).len() > max_chars ==> text_preview(s, max_chars).last()
            == ellipsis(),
{
}

/// `p` shows `l` from position `a` on: everything before `a` is whitespace,
/// and the first `max_chars` characters of `p` are those of `l` from `a`.
pub open spec fn shown_from(l: Seq<char>, p: Seq<char>, a: int, max_chars: nat) -> bool {
    &&& 0 <= a <= l.len()
    &&& forall|j: int| 0 <= j < a ==> text::is_unicode_whitespace(#[trigger] l[j])
    &&& forall|i: int|
        0 <= i < p.len() && i < max_chars ==> a + i < l.len() && #[trigger] p[i] == l[a + i]
}

/// A text preview starts where the text's content starts: it skips exactly
/// the leading whitespace of the one-line text and shows, from there, the
/// characters in order, all of them when the trimmed text fits in
/// `max_chars`, else the first `max_chars` followed by an ellipsis. It never
/// begins with whitespace.
pub proof fn lemma_preview_starts_at_the_content(s: Seq<char>, max_chars: nat)
    ensures
        ({
            let l = one_line(s);
            let t = text::trim_ws(l);
            let p = text_preview(s, max_chars);
            &&& t.len() > max_chars ==> p == t.take(max_chars as int).push(ellipsis())
            &&& t.len() <= max_chars ==> p == t
            &&& p.len() > 0 ==> !text::is_unicode_whitespace(p[0])
            &&& exists|a: int| #[trigger] shown_from(l, p, a, max_chars)
        }),
{
    let l = one_line(s);
    let t = text::trim_ws(l);
    let p = text_preview(s, max_chars);
    text::lemma_trim_drops_only_outer_whitespace(l);
    let (a, b) = choose|a: int, b: int|
        0 <= a <= b <= l.len() && t == l.subrange(a, b) && (forall|j: int|
            0 <= j < a ==> text::is_unicode_whitespace(#[trigger] l[j])) && (forall|j: int|
            b <= j < l.len() ==> text::is_unicode_whitespace(#[trigger] l[j])) && (a < b ==> (
        !text::is_unicode_whitespace(l[a]) && !text::is_unicode_whitespace(l[b - 1])));
    if p.len() > 0 {
        if t.len() > max_chars && max_chars == 0 {
            assert(p[0] == ellipsis());
        } else {
            assert(p[0] == t[0]);
            assert(t[0] == l[a]);
        }
    }
    assert forall|i: int| 0 <= i < p.len() && i < max_chars implies a + i < l.len() && #[trigger] p[i]
        == l[a + i] by {
        assert(p[i] == t[i]);
        assert(t[i] == l[a + i]);
    }
    assert(shown_from(l, p, a, max_chars));
}

} // verus!
