use reclip::model::{ClipItem, Content};

#[test]
fn preview_shortens_long_text_with_ellipsis() {
    let c = Content::Text("абвгдежз".to_string());
    assert_eq!(c.preview(3), "абв…");
}

#[test]
fn preview_keeps_short_text_as_is() {
    let c = Content::Text("абв".to_string());
    assert_eq!(c.preview(10), "абв");
}

#[test]
fn preview_collapses_newlines_to_spaces() {
    let c = Content::Text("строка1\nстрока2".to_string());
    assert_eq!(c.preview(100), "строка1 строка2");
}

#[test]
fn preview_trims_surrounding_whitespace() {
    let c = Content::Text("  привет  ".to_string());
    assert_eq!(c.preview(100), "привет");
}

#[test]
fn preview_of_image_shows_dimensions() {
    let c = Content::Image { png: vec![], width: 1920, height: 1080 };
    assert_eq!(c.preview(80), "🖼 1920×1080");
}

#[test]
fn image_accessor_returns_data_text_returns_none() {
    let item = ClipItem {
        id: 1,
        content: Content::Image { png: vec![1, 2, 3], width: 4, height: 2 },
        created_at: 0,
    };
    assert_eq!(item.text(), None);
    assert_eq!(item.image(), Some(([1u8, 2, 3].as_slice(), 4, 2)));
}

#[test]
fn text_accessor_returns_text_image_returns_none() {
    let item = ClipItem { id: 7, content: Content::Text("abc".to_string()), created_at: 5 };
    assert_eq!(item.text(), Some("abc"));
    assert_eq!(item.image(), None);
}

#[test]
fn preview_length_is_exactly_max_chars_plus_ellipsis() {
    let c = Content::Text("0123456789".to_string());
    assert_eq!(c.preview(10), "0123456789");
    assert_eq!(c.preview(9), "012345678…");
    assert_eq!(c.preview(0), "…");
}

#[test]
fn preview_turns_tabs_and_carriage_returns_into_spaces_and_stays_on_one_line() {
    let c = Content::Text("\t a\r\nb\tc \n".to_string());
    let p = c.preview(100);
    assert_eq!(p, "a  b c");
    assert!(!p.contains('\n') && !p.contains('\r') && !p.contains('\t'));
}

#[test]
fn preview_of_blank_text_is_empty() {
    let c = Content::Text(" \u{3000}\u{a0}\n".to_string());
    assert_eq!(c.preview(5), "");
}

#[test]
fn preview_trims_unicode_whitespace_but_keeps_inner_spaces() {
    let c = Content::Text("\u{2003}x\u{2003}y\u{205f}".to_string());
    assert_eq!(c.preview(10), "x\u{2003}y");
}

#[test]
fn preview_of_small_image() {
    let c = Content::Image { png: vec![9], width: 0, height: 7 };
    assert_eq!(c.preview(1), "🖼 0×7");
}

#[test]
fn clone_keeps_content() {
    let item = ClipItem { id: 3, content: Content::Image { png: vec![4, 5], width: 1, height: 1 }, created_at: 9 };
    assert_eq!(item.clone(), item);
}
