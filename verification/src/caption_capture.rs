//! Picking the caption text out of the Live Captions window: among its text
//! elements, the longest text that is not a label of the window's own
//! controls.
use vstd::prelude::*;

use crate::text::{
    append_chars, ascii_lower_chars, ascii_lower_seq, chars_eq, chars_of, contains_chars,
    contains_text, string_of,
};

verus! {

/// How many descendants of the window are looked at, at most.
pub const MAX_DESCENDANTS_TO_SCAN: i32 = 600;

/// UI Automation control types that hold text: Text, Edit and Document.
pub const UIA_TEXT_CONTROL_TYPE_ID: i32 = 50020;

pub const UIA_EDIT_CONTROL_TYPE_ID: i32 = 50004;

pub const UIA_DOCUMENT_CONTROL_TYPE_ID: i32 = 50030;

/// The number of descendants to scan.
pub fn descendants_to_scan(count: i32) -> (r: i32)
    ensures
        r == if count < MAX_DESCENDANTS_TO_SCAN {
            count
        } else {
            MAX_DESCENDANTS_TO_SCAN
        },
{
    if count < MAX_DESCENDANTS_TO_SCAN {
        count
    } else {
        MAX_DESCENDANTS_TO_SCAN
    }
}

pub open spec fn text_like_control(control_type: Option<i32>) -> bool {
    control_type matches Some(t) && (t == 50020 || t == 50004 || t == 50030)
}

/// Whether an element of this control type (`None` when it could not be
/// read) may hold the captions.
pub fn is_text_like_control(control_type: Option<i32>) -> (r: bool)
    ensures
        r == text_like_control(control_type),
{
    match control_type {
        Some(t) => t == UIA_TEXT_CONTROL_TYPE_ID || t == UIA_EDIT_CONTROL_TYPE_ID || t
            == UIA_DOCUMENT_CONTROL_TYPE_ID,
        None => false,
    }
}

/// The length of a character in UTF-8 (`char::len_utf8`).
pub open spec fn char_utf8_len(c: char) -> nat {
    if (c as u32) < 0x80 {
        1
    } else if (c as u32) < 0x800 {
        2
    } else if (c as u32) < 0x10000 {
        3
    } else {
        4
    }
}

/// The length of a text in UTF-8 bytes (`str::len`).
pub open spec fn utf8_len(s: Seq<char>) -> nat
    decreases s.len(),
{
    if s.len() == 0 {
        0
    } else {
        utf8_len(s.drop_last()) + char_utf8_len(s.last())
    }
}

/// See `utf8_len`.
pub fn utf8_len_of(s: &[char]) -> (r: u128)
    ensures
        r == utf8_len(s@),
{
    let mut total: u128 = 0;
    let mut i: usize = 0;
    assert(s@.take(0) =~= Seq::<char>::empty());
    while i < s.len()
        invariant
            i <= s@.len(),
            total == utf8_len(s@.take(i as int)),
            total <= 4 * i,
        decreases s@.len() - i,
    {
        assert(s@.take(i as int + 1).drop_last() =~= s@.take(i as int));
        let c = s[i] as u32;
        let n: u128 = if c < 0x80 {
            1
        } else if c < 0x800 {
            2
        } else if c < 0x10000 {
            3
        } else {
            4
        };
        total = total + n;
        i = i + 1;
    }
    assert(s@.take(s@.len() as int) =~= s@);
    total
}

/// Labels of the Live Captions window itself, in lowercase.
pub open spec fn window_label(lower: Seq<char>) -> bool {
    lower == "live captions"@ || lower == "settings"@ || lower == "close"@ || lower == "minimize"@
        || lower == "maximize"@ || lower == "restore"@ || lower == "language"@ || lower
        == "caption language"@ || lower == "ready to caption"@ || lower == "start listening"@
}

/// Text that may be captions: at least two bytes long and not, in any ASCII
/// case, a label of the window.
pub open spec fn probable_caption(text: Seq<char>) -> bool {
    utf8_len(text) >= 2 && !window_label(ascii_lower_seq(text))
}

fn is_label(lower: &[char]) -> (r: bool)
    ensures
        r == window_label(lower@),
{
    let labels = [
        "live captions",
        "settings",
        "close",
        "minimize",
        "maximize",
        "restore",
        "language",
        "caption language",
        "ready to caption",
        "start listening",
    ];
    chars_eq(lower, &chars_of(labels[0])) || chars_eq(lower, &chars_of(labels[1])) || chars_eq(
        lower,
        &chars_of(labels[2]),
    ) || chars_eq(lower, &chars_of(labels[3])) || chars_eq(lower, &chars_of(labels[4]))
        || chars_eq(lower, &chars_of(labels[5])) || chars_eq(lower, &chars_of(labels[6]))
        || chars_eq(lower, &chars_of(labels[7])) || chars_eq(lower, &chars_of(labels[8]))
        || chars_eq(lower, &chars_of(labels[9]))
}

/// See `probable_caption`.
pub fn is_probable_caption(text: &str) -> (r: bool)
    ensures
        r == probable_caption(text@),
{
    let chars = chars_of(text);
    if utf8_len_of(&chars) < 2 {
        return false;
    }
    let lower = ascii_lower_chars(&chars);
    !is_label(&lower)
}

/// The text kept after looking at the first elements: the longest (in bytes)
/// probable caption of a text-like element, the first of equal length.
pub open spec fn best_caption(elements: Seq<(Option<i32>, Seq<char>)>) -> Seq<char>
    decreases elements.len(),
{
    if elements.len() == 0 {
        Seq::empty()
    } else {
        let best = best_caption(elements.drop_last());
        let (control_type, text) = elements.last();
        if text_like_control(control_type) && probable_caption(text) && utf8_len(text) > utf8_len(
            best,
        ) {
            text
        } else {
            best
        }
    }
}

pub open spec fn element_views(v: Seq<(Option<i32>, String)>) -> Seq<(Option<i32>, Seq<char>)> {
    Seq::new(v.len(), |i: int| (v[i].0, v[i].1@))
}

/// The caption text among the scanned elements (control type and text of
/// each), or `None` when there is none; see `best_caption`.
pub fn find_caption_text(elements: &Vec<(Option<i32>, String)>) -> (r: Option<String>)
    ensures
        best_caption(element_views(elements@)).len() == 0 ==> r is None,
        best_caption(element_views(elements@)).len() > 0 ==> (r matches Some(t) && t@
            == best_caption(element_views(elements@))),
{
    let ghost es = element_views(elements@);
    let mut best: Vec<char> = Vec::new();
    let mut best_len: u128 = 0;
    let mut i: usize = 0;
    assert(es.take(0) =~= Seq::<(Option<i32>, Seq<char>)>::empty());
    while i < elements.len()
        invariant
            es == element_views(elements@),
            i <= elements@.len(),
            best@ == best_caption(es.take(i as int)),
            best_len == utf8_len(best@),
        decreases elements@.len() - i,
    {
        assert(es.take(i as int + 1).drop_last() =~= es.take(i as int));
        assert(es.take(i as int + 1).last() == es[i as int]);
        let (control_type, text) = &elements[i];
        if is_text_like_control(*control_type) {
            let chars = chars_of(text.as_str());
            if is_probable_caption(text.as_str()) {
                let n = utf8_len_of(&chars);
                if n > best_len {
                    best = chars;
                    best_len = n;
                }
            }
        }
        i = i + 1;
    }
    assert(es.take(elements@.len() as int) =~= es);
    if best.len() == 0 {
        None
    } else {
        Some(string_of(&best))
    }
}

/// The top-level window of Live Captions: its name and class name, joined by
/// a space and ASCII-lowercased, mention Live Captions.
pub open spec fn live_captions_window(name: Seq<char>, class_name: Seq<char>) -> bool {
    let searchable = ascii_lower_seq(name + " "@ + class_name);
    contains_text(searchable, "live captions"@) || contains_text(searchable, "livecaptions"@)
        || contains_text(searchable, "windows caption"@)
}

/// See `live_captions_window`.
pub fn is_live_captions_window(name: &str, class_name: &str) -> (r: bool)
    ensures
        r == live_captions_window(name@, class_name@),
{
    let mut joined = chars_of(name);
    append_chars(&mut joined, &chars_of(" "));
    append_chars(&mut joined, &chars_of(class_name));
    let searchable = ascii_lower_chars(&joined);
    contains_chars(&searchable, &chars_of("live captions")) || contains_chars(
        &searchable,
        &chars_of("livecaptions"),
    ) || contains_chars(&searchable, &chars_of("windows caption"))
}

/// Law: the chosen caption text is one of the probable captions of a
/// text-like element, and none of them is longer.
pub proof fn law_best_caption_is_longest(elements: Seq<(Option<i32>, Seq<char>)>)
    ensures
        best_caption(elements).len() > 0 ==> exists|i: int|
            0 <= i < elements.len() && elements[i].1 == best_caption(elements) && text_like_control(
                elements[i].0,
            ) && probable_caption(elements[i].1),
        forall|i: int|
            0 <= i < elements.len() && text_like_control(elements[i].0) && probable_caption(
                elements[i].1,
            ) ==> utf8_len(#[trigger] elements[i].1) <= utf8_len(best_caption(elements)),
    decreases elements.len(),
{
    if elements.len() > 0 {
        let rest = elements.drop_last();
        law_best_caption_is_longest(rest);
        assert forall|i: int| 0 <= i < rest.len() implies rest[i] == elements[i] by {}
        if best_caption(elements).len() > 0 && best_caption(elements) == best_caption(rest) {
            let i = choose|i: int|
                0 <= i < rest.len() && rest[i].1 == best_caption(rest) && text_like_control(
                    rest[i].0,
                ) && probable_caption(rest[i].1);
            assert(elements[i] == rest[i]);
        }
    }
}

} // verus!
