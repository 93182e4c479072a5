//! The picker's decisions: what a key press does, and which entry a chosen
//! row puts on the clipboard.
use vstd::prelude::*;

use crate::model::{ClipItem, Content};

verus! {

/// How many characters of each entry the picker shows.
pub const PREVIEW_CHARS: usize = 80;

/// What a key press in the picker does.
#[derive(Debug, Clone, Copy, PartialEq, Eq, Structural)]
pub enum KeyAction {
    /// Close the window.
    Close,
    /// Put the entry at this index on the clipboard.
    Select(usize),
    /// Consume the key and do nothing.
    Swallow,
    /// Let the list handle the key (arrows, Enter).
    Pass,
}

/// Escape closes; a digit `1`–`9` picks the entry with that number when the
/// list has one and is consumed either way; any other key goes to the list.
pub open spec fn key_action_spec(is_escape: bool, ch: Option<char>, item_count: usize) -> KeyAction {
    if is_escape {
        KeyAction::Close
    } else {
        match ch {
            Some(c) => if '1' as u32 <= c as u32 <= '9' as u32 {
                let idx = (c as u32 - '1' as u32) as usize;
                if idx < item_count {
                    KeyAction::Select(idx)
                } else {
                    KeyAction::Swallow
                }
            } else {
                KeyAction::Pass
            },
            None => KeyAction::Pass,
        }
    }
}

/// What a key press does in a picker that lists `item_count` entries;
/// `is_escape` tells whether the key is Escape, `ch` is the character it
/// types, if any.
pub fn key_action(is_escape: bool, ch: Option<char>, item_count: usize) -> (a: KeyAction)
    ensures
        a == key_action_spec(is_escape, ch, item_count),
{
    if is_escape {
        return KeyAction::Close;
    }
    match ch {
        Some(c) => {
            let u = c as u32;
            if 49 <= u && u <= 57 {
                let idx = (u - 49) as usize;
                if idx < item_count {
                    KeyAction::Select(idx)
                } else {
                    KeyAction::Swallow
                }
            } else {
                KeyAction::Pass
            }
        },
        None => KeyAction::Pass,
    }
}

/// The entry that choosing row `idx` puts on the clipboard, text or image:
/// the row's content when there is such a row, else `None`.
pub fn selected_entry(items: &Vec<ClipItem>, idx: usize) -> (r: Option<&Content>)
    ensures
        idx < items.len() ==> (r matches Some(c) && c@ == items@[idx as int].content@),
        idx >= items.len() ==> r is None,
{
    if idx < items.len() {
        Some(&items[idx].content)
    } else {
        None
    }
}

/// Digit `n` from 1 to 9 picks the `n`-th entry, counted from the newest,
/// whenever the list has that many.
pub proof fn lemma_digit_picks_entry(n: u32, item_count: usize)
    requires
        1 <= n <= 9,
        n <= item_count,
    ensures
        key_action_spec(false, Some((n + 48) as char), item_count) == KeyAction::Select(
            (n - 1) as usize,
        ),
{
    assert(((n + 48) as char) as u32 == n + 48);
}

} // verus!
