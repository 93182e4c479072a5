use reclip::model::{ClipItem, Content};
use reclip::picker::{key_action, selected_entry, KeyAction};

#[test]
fn escape_closes_even_with_a_digit() {
    assert_eq!(key_action(true, Some('1'), 5), KeyAction::Close);
    assert_eq!(key_action(true, None, 0), KeyAction::Close);
}

#[test]
fn digits_pick_entries_by_number() {
    assert_eq!(key_action(false, Some('1'), 3), KeyAction::Select(0));
    assert_eq!(key_action(false, Some('3'), 3), KeyAction::Select(2));
    assert_eq!(key_action(false, Some('9'), 9), KeyAction::Select(8));
}

#[test]
fn digit_past_the_list_is_swallowed() {
    assert_eq!(key_action(false, Some('4'), 3), KeyAction::Swallow);
    assert_eq!(key_action(false, Some('1'), 0), KeyAction::Swallow);
}

#[test]
fn other_keys_pass_to_the_list() {
    assert_eq!(key_action(false, Some('0'), 10), KeyAction::Pass);
    assert_eq!(key_action(false, Some('a'), 10), KeyAction::Pass);
    assert_eq!(key_action(false, None, 10), KeyAction::Pass);
}

#[test]
fn selected_entry_gives_text_and_image_rows() {
    let items = vec![
        ClipItem { id: 2, content: Content::Text("hi".to_string()), created_at: 0 },
        ClipItem { id: 1, content: Content::Image { png: vec![7], width: 1, height: 1 }, created_at: 0 },
    ];
    assert_eq!(selected_entry(&items, 0), Some(&Content::Text("hi".to_string())));
    assert_eq!(selected_entry(&items, 1), Some(&Content::Image { png: vec![7], width: 1, height: 1 }));
    assert_eq!(selected_entry(&items, 2), None);
}
