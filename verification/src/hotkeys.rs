//! Global shortcuts: the eight actions and their default keys, parsing of
//! accelerator text such as "Ctrl+Shift+S", validation of a full set of
//! bindings, merging saved settings into the defaults, and keeping the window
//! inside the monitor's work area when a shortcut moves it.
use vstd::prelude::*;
use vstd::set_lib::{lemma_int_range, set_int_range};

use crate::decimal::{decimal, decimal_chars};
use crate::text::{
    append_chars, ascii_lower_chars, ascii_lower_seq, ascii_upper_chars, ascii_upper_seq,
    char_rows, chars_eq, chars_of, join_chars, join_with, str_eq, string_of, surround, trim,
    trim_chars,
};

verus! {

// ---------------------------------------------------------------------------
// Modifier flags and ids (as the Win32 hotkey API numbers them)
// ---------------------------------------------------------------------------

pub const MOD_ALT: u32 = 0x0001;

pub const MOD_CONTROL: u32 = 0x0002;

pub const MOD_SHIFT: u32 = 0x0004;

pub const MOD_WIN: u32 = 0x0008;

/// Added to every registration so that holding a shortcut does not repeat it.
pub const MOD_NOREPEAT: u32 = 0x4000;

pub const HOTKEY_MODE_1_ID: i32 = 101;

pub const HOTKEY_MODE_2_ID: i32 = 102;

pub const HOTKEY_MODE_3_ID: i32 = 103;

pub const HOTKEY_MOVE_UP_ID: i32 = 104;

pub const HOTKEY_MOVE_DOWN_ID: i32 = 105;

pub const HOTKEY_MOVE_RIGHT_ID: i32 = 106;

pub const HOTKEY_MOVE_LEFT_ID: i32 = 107;

pub const HOTKEY_TOGGLE_WINDOW_ID: i32 = 108;

/// How far one move shortcut shifts the window, in physical pixels.
pub const WINDOW_MOVE_STEP: i32 = 50;

/// The number of shortcut actions.
pub const HOTKEY_COUNT: usize = 8;

// ---------------------------------------------------------------------------
// Actions
// ---------------------------------------------------------------------------

#[derive(Debug, Clone, Copy, PartialEq, Eq, Structural)]
pub enum HotkeyAction {
    Mode1,
    Mode2,
    Mode3,
    MoveUp,
    MoveDown,
    MoveRight,
    MoveLeft,
    ToggleWindow,
}

/// The name of an action in settings and snapshots.
pub open spec fn action_name(a: HotkeyAction) -> Seq<char> {
    match a {
        HotkeyAction::Mode1 => "shortcutMode1"@,
        HotkeyAction::Mode2 => "shortcutMode2"@,
        HotkeyAction::Mode3 => "shortcutMode3"@,
        HotkeyAction::MoveUp => "shortcutMoveUp"@,
        HotkeyAction::MoveDown => "shortcutMoveDown"@,
        HotkeyAction::MoveRight => "shortcutMoveRight"@,
        HotkeyAction::MoveLeft => "shortcutMoveLeft"@,
        HotkeyAction::ToggleWindow => "shortcutToggleWindow"@,
    }
}

/// The action with a given name.
pub open spec fn action_from_name(s: Seq<char>) -> Option<HotkeyAction> {
    if s == "shortcutMode1"@ {
        Some(HotkeyAction::Mode1)
    } else if s == "shortcutMode2"@ {
        Some(HotkeyAction::Mode2)
    } else if s == "shortcutMode3"@ {
        Some(HotkeyAction::Mode3)
    } else if s == "shortcutMoveUp"@ {
        Some(HotkeyAction::MoveUp)
    } else if s == "shortcutMoveDown"@ {
        Some(HotkeyAction::MoveDown)
    } else if s == "shortcutMoveRight"@ {
        Some(HotkeyAction::MoveRight)
    } else if s == "shortcutMoveLeft"@ {
        Some(HotkeyAction::MoveLeft)
    } else if s == "shortcutToggleWindow"@ {
        Some(HotkeyAction::ToggleWindow)
    } else {
        None
    }
}

/// The position of an action in id order.
pub open spec fn action_index(a: HotkeyAction) -> int {
    match a {
        HotkeyAction::Mode1 => 0,
        HotkeyAction::Mode2 => 1,
        HotkeyAction::Mode3 => 2,
        HotkeyAction::MoveUp => 3,
        HotkeyAction::MoveDown => 4,
        HotkeyAction::MoveRight => 5,
        HotkeyAction::MoveLeft => 6,
        HotkeyAction::ToggleWindow => 7,
    }
}

/// The action at a position in id order.
pub open spec fn action_at(k: int) -> HotkeyAction {
    if k == 0 {
        HotkeyAction::Mode1
    } else if k == 1 {
        HotkeyAction::Mode2
    } else if k == 2 {
        HotkeyAction::Mode3
    } else if k == 3 {
        HotkeyAction::MoveUp
    } else if k == 4 {
        HotkeyAction::MoveDown
    } else if k == 5 {
        HotkeyAction::MoveRight
    } else if k == 6 {
        HotkeyAction::MoveLeft
    } else {
        HotkeyAction::ToggleWindow
    }
}

/// The registration id of an action: 101 to 108 in id order.
pub open spec fn action_id(a: HotkeyAction) -> i32 {
    (101 + action_index(a)) as i32
}

impl HotkeyAction {
    pub fn as_str(self) -> (r: &'static str)
        ensures
            r@ == action_name(self),
    {
        match self {
            HotkeyAction::Mode1 => "shortcutMode1",
            HotkeyAction::Mode2 => "shortcutMode2",
            HotkeyAction::Mode3 => "shortcutMode3",
            HotkeyAction::MoveUp => "shortcutMoveUp",
            HotkeyAction::MoveDown => "shortcutMoveDown",
            HotkeyAction::MoveRight => "shortcutMoveRight",
            HotkeyAction::MoveLeft => "shortcutMoveLeft",
            HotkeyAction::ToggleWindow => "shortcutToggleWindow",
        }
    }

    pub fn from_str(value: &str) -> (r: Option<Self>)
        ensures
            r == action_from_name(value@),
    {
        if str_eq(value, "shortcutMode1") {
            Some(HotkeyAction::Mode1)
        } else if str_eq(value, "shortcutMode2") {
            Some(HotkeyAction::Mode2)
        } else if str_eq(value, "shortcutMode3") {
            Some(HotkeyAction::Mode3)
        } else if str_eq(value, "shortcutMoveUp") {
            Some(HotkeyAction::MoveUp)
        } else if str_eq(value, "shortcutMoveDown") {
            Some(HotkeyAction::MoveDown)
        } else if str_eq(value, "shortcutMoveRight") {
            Some(HotkeyAction::MoveRight)
        } else if str_eq(value, "shortcutMoveLeft") {
            Some(HotkeyAction::MoveLeft)
        } else if str_eq(value, "shortcutToggleWindow") {
            Some(HotkeyAction::ToggleWindow)
        } else {
            None
        }
    }

    pub fn hotkey_id(self) -> (r: i32)
        ensures
            r == action_id(self),
    {
        match self {
            HotkeyAction::Mode1 => HOTKEY_MODE_1_ID,
            HotkeyAction::Mode2 => HOTKEY_MODE_2_ID,
            HotkeyAction::Mode3 => HOTKEY_MODE_3_ID,
            HotkeyAction::MoveUp => HOTKEY_MOVE_UP_ID,
            HotkeyAction::MoveDown => HOTKEY_MOVE_DOWN_ID,
            HotkeyAction::MoveRight => HOTKEY_MOVE_RIGHT_ID,
            HotkeyAction::MoveLeft => HOTKEY_MOVE_LEFT_ID,
            HotkeyAction::ToggleWindow => HOTKEY_TOGGLE_WINDOW_ID,
        }
    }

    /// The action at position `k` in id order.
    pub fn at_index(k: usize) -> (r: Self)
        requires
            k < HOTKEY_COUNT,
        ensures
            r == action_at(k as int),
            action_index(r) == k,
    {
        if k == 0 {
            HotkeyAction::Mode1
        } else if k == 1 {
            HotkeyAction::Mode2
        } else if k == 2 {
            HotkeyAction::Mode3
        } else if k == 3 {
            HotkeyAction::MoveUp
        } else if k == 4 {
            HotkeyAction::MoveDown
        } else if k == 5 {
            HotkeyAction::MoveRight
        } else if k == 6 {
            HotkeyAction::MoveLeft
        } else {
            HotkeyAction::ToggleWindow
        }
    }

    /// The position of the action in id order.
    pub fn index(self) -> (r: usize)
        ensures
            r == action_index(self),
            r < HOTKEY_COUNT,
    {
        match self {
            HotkeyAction::Mode1 => 0,
            HotkeyAction::Mode2 => 1,
            HotkeyAction::Mode3 => 2,
            HotkeyAction::MoveUp => 3,
            HotkeyAction::MoveDown => 4,
            HotkeyAction::MoveRight => 5,
            HotkeyAction::MoveLeft => 6,
            HotkeyAction::ToggleWindow => 7,
        }
    }
}

// ---------------------------------------------------------------------------
// Bindings and snapshots
// ---------------------------------------------------------------------------

/// A shortcut ready to register: modifier flags, virtual-key code, and the
/// normalized accelerator text.
#[derive(Debug, Clone)]
pub struct HotkeyBinding {
    pub id: i32,
    pub modifiers: u32,
    pub vk: u32,
    pub action: HotkeyAction,
    pub accelerator: String,
}

pub struct BindingView {
    pub id: i32,
    pub modifiers: u32,
    pub vk: u32,
    pub action: HotkeyAction,
    pub accelerator: Seq<char>,
}

impl View for HotkeyBinding {
    type V = BindingView;

    open spec fn view(&self) -> BindingView {
        BindingView {
            id: self.id,
            modifiers: self.modifiers,
            vk: self.vk,
            action: self.action,
            accelerator: self.accelerator@,
        }
    }
}

pub open spec fn binding_views(v: Seq<HotkeyBinding>) -> Seq<BindingView> {
    Seq::new(v.len(), |i: int| v[i]@)
}

/// One row of the Shortcuts panel.
#[derive(Debug, Clone)]
pub struct HotkeyBindingSnapshot {
    pub action: &'static str,
    pub accelerator: String,
    pub registered: bool,
    pub error: Option<String>,
}

/// What the Shortcuts panel shows.
#[derive(Debug, Clone)]
pub struct HotkeySnapshot {
    pub is_running: bool,
    pub bindings: Vec<HotkeyBindingSnapshot>,
    pub last_error: Option<String>,
}

#[derive(Debug)]
pub struct HotkeyCommandError {
    pub code: &'static str,
    pub message: String,
}

/// A full set of bindings as the settings panel sends it.
#[derive(Debug)]
pub struct HotkeySettingsRequest {
    pub bindings: Vec<HotkeyBindingRequest>,
}

#[derive(Debug, Clone)]
pub struct HotkeyBindingRequest {
    pub action: String,
    pub accelerator: String,
}

/// Shortcut settings as saved on disk.
#[derive(Debug, Clone)]
pub struct StoredHotkeySettings {
    pub bindings: Vec<StoredHotkeyBinding>,
}

#[derive(Debug, Clone)]
pub struct StoredHotkeyBinding {
    pub action: String,
    pub accelerator: String,
}

/// An (action, accelerator) pair of text, as requests and saved settings hold it.
pub open spec fn request_views(v: Seq<HotkeyBindingRequest>) -> Seq<(Seq<char>, Seq<char>)> {
    Seq::new(v.len(), |i: int| (v[i].action@, v[i].accelerator@))
}

pub open spec fn stored_views(v: Seq<StoredHotkeyBinding>) -> Seq<(Seq<char>, Seq<char>)> {
    Seq::new(v.len(), |i: int| (v[i].action@, v[i].accelerator@))
}

impl HotkeyBinding {
    pub fn duplicate(&self) -> (r: Self)
        ensures
            r@ == self@,
    {
        HotkeyBinding {
            id: self.id,
            modifiers: self.modifiers,
            vk: self.vk,
            action: self.action,
            accelerator: self.accelerator.clone(),
        }
    }

    /// The panel row for this binding.
    pub fn snapshot(&self, registered: bool, error: Option<String>) -> (r: HotkeyBindingSnapshot)
        ensures
            r.action@ == action_name(self.action),
            r.accelerator@ == self.accelerator@,
            r.registered == registered,
            r.error == error,
    {
        HotkeyBindingSnapshot {
            action: self.action.as_str(),
            accelerator: self.accelerator.clone(),
            registered,
            error,
        }
    }
}

/// The default binding of each action.
pub open spec fn default_binding(a: HotkeyAction) -> BindingView {
    match a {
        HotkeyAction::Mode1 => BindingView {
            id: 101,
            modifiers: MOD_CONTROL,
            vk: 0x0D,
            action: a,
            accelerator: "Ctrl+Enter"@,
        },
        HotkeyAction::Mode2 => BindingView {
            id: 102,
            modifiers: MOD_CONTROL | MOD_SHIFT,
            vk: 0x0D,
            action: a,
            accelerator: "Ctrl+Shift+Enter"@,
        },
        HotkeyAction::Mode3 => BindingView {
            id: 103,
            modifiers: MOD_CONTROL | MOD_SHIFT,
            vk: 0x53,
            action: a,
            accelerator: "Ctrl+Shift+S"@,
        },
        HotkeyAction::MoveUp => BindingView {
            id: 104,
            modifiers: MOD_CONTROL,
            vk: 0x26,
            action: a,
            accelerator: "Ctrl+Up"@,
        },
        HotkeyAction::MoveDown => BindingView {
            id: 105,
            modifiers: MOD_CONTROL,
            vk: 0x28,
            action: a,
            accelerator: "Ctrl+Down"@,
        },
        HotkeyAction::MoveRight => BindingView {
            id: 106,
            modifiers: MOD_CONTROL,
            vk: 0x27,
            action: a,
            accelerator: "Ctrl+Right"@,
        },
        HotkeyAction::MoveLeft => BindingView {
            id: 107,
            modifiers: MOD_CONTROL,
            vk: 0x25,
            action: a,
            accelerator: "Ctrl+Left"@,
        },
        HotkeyAction::ToggleWindow => BindingView {
            id: 108,
            modifiers: MOD_CONTROL,
            vk: 0xDC,
            action: a,
            accelerator: "Ctrl+\\"@,
        },
    }
}

/// The defaults, in id order.
pub open spec fn default_bindings_view() -> Seq<BindingView> {
    Seq::new(8, |k: int| default_binding(action_at(k)))
}

fn binding(id: i32, modifiers: u32, vk: u32, action: HotkeyAction, accelerator: &str) -> (r: HotkeyBinding)
    ensures
        r@ == (BindingView { id, modifiers, vk, action, accelerator: accelerator@ }),
{
    HotkeyBinding { id, modifiers, vk, action, accelerator: string_of(&chars_of(accelerator)) }
}

/// The eight default shortcuts, in id order.
pub fn default_hotkeys() -> (r: Vec<HotkeyBinding>)
    ensures
        binding_views(r@) == default_bindings_view(),
{
    let mut v: Vec<HotkeyBinding> = Vec::new();
    v.push(binding(HOTKEY_MODE_1_ID, MOD_CONTROL, 0x0D, HotkeyAction::Mode1, "Ctrl+Enter"));
    v.push(
        binding(
            HOTKEY_MODE_2_ID,
            MOD_CONTROL | MOD_SHIFT,
            0x0D,
            HotkeyAction::Mode2,
            "Ctrl+Shift+Enter",
        ),
    );
    v.push(
        binding(HOTKEY_MODE_3_ID, MOD_CONTROL | MOD_SHIFT, 0x53, HotkeyAction::Mode3, "Ctrl+Shift+S"),
    );
    v.push(binding(HOTKEY_MOVE_UP_ID, MOD_CONTROL, 0x26, HotkeyAction::MoveUp, "Ctrl+Up"));
    v.push(binding(HOTKEY_MOVE_DOWN_ID, MOD_CONTROL, 0x28, HotkeyAction::MoveDown, "Ctrl+Down"));
    v.push(binding(HOTKEY_MOVE_RIGHT_ID, MOD_CONTROL, 0x27, HotkeyAction::MoveRight, "Ctrl+Right"));
    v.push(binding(HOTKEY_MOVE_LEFT_ID, MOD_CONTROL, 0x25, HotkeyAction::MoveLeft, "Ctrl+Left"));
    v.push(
        binding(HOTKEY_TOGGLE_WINDOW_ID, MOD_CONTROL, 0xDC, HotkeyAction::ToggleWindow, "Ctrl+\\"),
    );
    assert(binding_views(v@) =~= default_bindings_view());
    v
}

/// The panel rows of `bindings`, each with the same registration state.
pub open spec fn snapshot_rows_match(rows: Seq<HotkeyBindingSnapshot>, bindings: Seq<BindingView>, registered: bool) -> bool {
    &&& rows.len() == bindings.len()
    &&& forall|i: int|
        0 <= i < rows.len() ==> {
            &&& (#[trigger] rows[i]).action@ == action_name(bindings[i].action)
            &&& rows[i].accelerator@ == bindings[i].accelerator
            &&& rows[i].registered == registered
            &&& rows[i].error is None
        }
}

impl Default for HotkeySnapshot {
    /// Not running, the defaults listed as unregistered, no error.
    fn default() -> (r: Self)
        ensures
            !r.is_running,
            r.last_error is None,
            snapshot_rows_match(r.bindings@, default_bindings_view(), false),
    {
        let defaults = default_hotkeys();
        let mut rows: Vec<HotkeyBindingSnapshot> = Vec::new();
        let mut i: usize = 0;
        while i < defaults.len()
            invariant
                binding_views(defaults@) == default_bindings_view(),
                i <= defaults@.len(),
                snapshot_rows_match(rows@, default_bindings_view().take(i as int), false),
            decreases defaults@.len() - i,
        {
            let row = defaults[i].snapshot(false, None);
            assert(defaults@[i as int]@ == default_bindings_view()[i as int]);
            rows.push(row);
            i = i + 1;
        }
        assert(default_bindings_view().take(8) =~= default_bindings_view());
        HotkeySnapshot { is_running: false, bindings: rows, last_error: None }
    }
}

// ---------------------------------------------------------------------------
// Keys
// ---------------------------------------------------------------------------

pub open spec fn is_ascii_digit(c: char) -> bool {
    '0' <= c && c <= '9'
}

pub open spec fn is_ascii_alnum(c: char) -> bool {
    is_ascii_digit(c) || ('A' <= c && c <= 'Z') || ('a' <= c && c <= 'z')
}

pub open spec fn all_ascii_digits(s: Seq<char>) -> bool {
    forall|i: int| 0 <= i < s.len() ==> is_ascii_digit(#[trigger] s[i])
}

/// The number that a run of ASCII digits spells.
pub open spec fn digits_value(s: Seq<char>) -> nat
    decreases s.len(),
{
    if s.len() == 0 {
        0
    } else {
        digits_value(s.drop_last()) * 10 + ((s.last() as int) - ('0' as int)) as nat
    }
}

/// `u32::from_str`: an optional `+`, then one or more ASCII digits whose value
/// fits in a `u32`.
pub open spec fn parse_u32_spec(s: Seq<char>) -> Option<nat> {
    let d = if s.len() > 0 && s[0] == '+' {
        s.skip(1)
    } else {
        s
    };
    if d.len() > 0 && all_ascii_digits(d) && digits_value(d) <= u32::MAX {
        Some(digits_value(d))
    } else {
        None
    }
}

proof fn lemma_digits_value_grows(s: Seq<char>, k: int)
    requires
        0 <= k <= s.len(),
        all_ascii_digits(s),
    ensures
        digits_value(s.take(k)) <= digits_value(s),
    decreases s.len() - k,
{
    if k < s.len() {
        lemma_digits_value_grows(s, k + 1);
        assert(s.take(k + 1).drop_last() =~= s.take(k));
        assert(is_ascii_digit(s[k]));
    } else {
        assert(s.take(k) =~= s);
    }
}

/// Parses a decimal `u32` as `str::parse::<u32>` does.
pub fn parse_u32(s: &[char]) -> (r: Option<u32>)
    ensures
        match r {
            Some(n) => parse_u32_spec(s@) == Some(n as nat),
            None => parse_u32_spec(s@) is None,
        },
{
    let start: usize = if s.len() > 0 && s[0] == '+' {
        1
    } else {
        0
    };
    let ghost d = if s@.len() > 0 && s@[0] == '+' {
        s@.skip(1)
    } else {
        s@
    };
    assert(d =~= s@.subrange(start as int, s@.len() as int));
    if start >= s.len() {
        return None;
    }
    let mut value: u64 = 0;
    let mut i: usize = start;
    assert(d.take(0) =~= Seq::<char>::empty());
    while i < s.len()
        invariant
            start <= i <= s@.len(),
            d == (if s@.len() > 0 && s@[0] == '+' {
                s@.skip(1)
            } else {
                s@
            }),
            d =~= s@.subrange(start as int, s@.len() as int),
            all_ascii_digits(d.take(i - start)),
            value == digits_value(d.take(i - start)),
            value <= u32::MAX,
        decreases s@.len() - i,
    {
        let c = s[i];
        if !('0' <= c && c <= '9') {
            assert(!is_ascii_digit(d[i - start]));
            return None;
        }
        let digit = (c as u32) - ('0' as u32);
        assert(d.take(i - start + 1).drop_last() =~= d.take(i - start));
        assert(d.take(i - start + 1).last() == c);
        value = value * 10 + digit as u64;
        if value > 0xffff_ffff {
            proof {
                if all_ascii_digits(d) {
                    lemma_digits_value_grows(d, i - start + 1);
                }
            }
            return None;
        }
        i = i + 1;
    }
    assert(d.take(i - start) =~= d);
    Some(value as u32)
}

/// The key number of a function key "F1" to "F12".
pub open spec fn function_key_number(upper: Seq<char>) -> Option<nat> {
    if upper.len() >= 1 && upper[0] == 'F' {
        match parse_u32_spec(upper.skip(1)) {
            Some(n) => if 1 <= n && n <= 12 {
                Some(n)
            } else {
                None
            },
            None => None,
        }
    } else {
        None
    }
}

/// A key name, matched without regard to ASCII case and surrounding
/// whitespace: a letter or digit, F1 to F12, or a named key. The result is the
/// virtual-key code and the key's normalized name.
pub open spec fn parse_virtual_key_spec(value: Seq<char>) -> Option<(u32, Seq<char>)> {
    let upper = ascii_upper_seq(trim(value));
    if upper.len() == 1 && is_ascii_alnum(upper[0]) {
        Some((upper[0] as u32, upper))
    } else if function_key_number(upper) is Some {
        let n = function_key_number(upper)->0;
        Some(((0x70 + n - 1) as u32, "F"@ + decimal(n)))
    } else if upper == "ENTER"@ {
        Some((0x0D, "Enter"@))
    } else if upper == "SPACE"@ {
        Some((0x20, "Space"@))
    } else if upper == "TAB"@ {
        Some((0x09, "Tab"@))
    } else if upper == "ESC"@ || upper == "ESCAPE"@ {
        Some((0x1B, "Esc"@))
    } else if upper == "UP"@ || upper == "ARROWUP"@ {
        Some((0x26, "Up"@))
    } else if upper == "DOWN"@ || upper == "ARROWDOWN"@ {
        Some((0x28, "Down"@))
    } else if upper == "RIGHT"@ || upper == "ARROWRIGHT"@ {
        Some((0x27, "Right"@))
    } else if upper == "LEFT"@ || upper == "ARROWLEFT"@ {
        Some((0x25, "Left"@))
    } else if upper == "\\"@ || upper == "BACKSLASH"@ {
        Some((0xDC, "\\"@))
    } else {
        None
    }
}

pub open spec fn key_result_view(r: Option<(u32, String)>) -> Option<(u32, Seq<char>)> {
    match r {
        Some((vk, name)) => Some((vk, name@)),
        None => None,
    }
}

fn is_any(s: &[char], a: &str, b: &str) -> (r: bool)
    ensures
        r == (s@ == a@ || s@ == b@),
{
    let x = chars_of(a);
    let y = chars_of(b);
    chars_eq(s, &x) || chars_eq(s, &y)
}

fn named(vk: u32, name: &str) -> (r: Option<(u32, String)>)
    ensures
        key_result_view(r) == Some((vk, name@)),
{
    Some((vk, string_of(&chars_of(name))))
}

/// Parses one key of an accelerator; see `parse_virtual_key_spec`.
pub fn parse_virtual_key(value: &str) -> (r: Option<(u32, String)>)
    ensures
        key_result_view(r) == parse_virtual_key_spec(value@),
{
    let chars = chars_of(value);
    parse_key_chars(&chars)
}

fn parse_key_chars(chars: &[char]) -> (r: Option<(u32, String)>)
    ensures
        key_result_view(r) == parse_virtual_key_spec(chars@),
{
    let trimmed = trim_chars(chars);
    let upper = ascii_upper_chars(&trimmed);
    if upper.len() == 1 {
        let c = upper[0];
        if ('0' <= c && c <= '9') || ('A' <= c && c <= 'Z') || ('a' <= c && c <= 'z') {
            return Some((c as u32, string_of(&upper)));
        }
    }
    if upper.len() >= 1 && upper[0] == 'F' {
        let rest = crate::text::sub_chars(&upper, 1, upper.len());
        assert(rest@ =~= upper@.skip(1));
        if let Some(number) = parse_u32(&rest) {
            if 1 <= number && number <= 12 {
                let mut name = chars_of("F");
                let digits = decimal_chars(number as u128);
                append_chars(&mut name, &digits);
                return Some((0x70 + number - 1, string_of(&name)));
            }
        }
    }
    let e = chars_of("ENTER");
    if chars_eq(&upper, &e) {
        return named(0x0D, "Enter");
    }
    let sp = chars_of("SPACE");
    if chars_eq(&upper, &sp) {
        return named(0x20, "Space");
    }
    let t = chars_of("TAB");
    if chars_eq(&upper, &t) {
        return named(0x09, "Tab");
    }
    if is_any(&upper, "ESC", "ESCAPE") {
        return named(0x1B, "Esc");
    }
    if is_any(&upper, "UP", "ARROWUP") {
        return named(0x26, "Up");
    }
    if is_any(&upper, "DOWN", "ARROWDOWN") {
        return named(0x28, "Down");
    }
    if is_any(&upper, "RIGHT", "ARROWRIGHT") {
        return named(0x27, "Right");
    }
    if is_any(&upper, "LEFT", "ARROWLEFT") {
        return named(0x25, "Left");
    }
    if is_any(&upper, "\\", "BACKSLASH") {
        return named(0xDC, "\\");
    }
    None
}

// ---------------------------------------------------------------------------
// Accelerators
// ---------------------------------------------------------------------------

pub open spec fn split_state(s: Seq<char>, sep: char) -> (Seq<Seq<char>>, Seq<char>)
    decreases s.len(),
{
    if s.len() == 0 {
        (Seq::empty(), Seq::empty())
    } else {
        let (done, cur) = split_state(s.drop_last(), sep);
        if s.last() == sep {
            (done.push(cur), Seq::empty())
        } else {
            (done, cur.push(s.last()))
        }
    }
}

/// The pieces of `s` between occurrences of `sep` (`str::split`): one more
/// piece than there are separators, empty pieces included.
pub open spec fn split_on(s: Seq<char>, sep: char) -> Seq<Seq<char>> {
    split_state(s, sep).0.push(split_state(s, sep).1)
}

fn split_chars(s: &[char], sep: char) -> (r: Vec<Vec<char>>)
    ensures
        char_rows(r@) == split_on(s@, sep),
{
    let mut done: Vec<Vec<char>> = Vec::new();
    let mut cur: Vec<char> = Vec::new();
    let mut i: usize = 0;
    assert(s@.take(0) =~= Seq::<char>::empty());
    assert(char_rows(done@) =~= Seq::<Seq<char>>::empty());
    while i < s.len()
        invariant
            i <= s@.len(),
            (char_rows(done@), cur@) == split_state(s@.take(i as int), sep),
        decreases s@.len() - i,
    {
        assert(s@.take(i as int + 1).drop_last() =~= s@.take(i as int));
        assert(s@.take(i as int + 1).last() == s@[i as int]);
        if s[i] == sep {
            let ghost before = char_rows(done@);
            done.push(cur);
            assert(char_rows(done@) =~= before.push(cur@));
            cur = Vec::new();
        } else {
            cur.push(s[i]);
        }
        i = i + 1;
    }
    assert(s@.take(s@.len() as int) =~= s@);
    let ghost before = char_rows(done@);
    done.push(cur);
    assert(char_rows(done@) =~= before.push(cur@));
    done
}

/// The modifier that a lowercased accelerator part names, with its display name.
pub open spec fn modifier_of(lower: Seq<char>) -> Option<(u32, Seq<char>)> {
    if lower == "ctrl"@ || lower == "control"@ {
        Some((MOD_CONTROL, "Ctrl"@))
    } else if lower == "alt"@ {
        Some((MOD_ALT, "Alt"@))
    } else if lower == "shift"@ {
        Some((MOD_SHIFT, "Shift"@))
    } else if lower == "win"@ || lower == "windows"@ || lower == "meta"@ {
        Some((MOD_WIN, "Win"@))
    } else {
        None
    }
}

/// What has been read of an accelerator so far.
pub struct AccelView {
    pub modifiers: u32,
    pub key: Option<u32>,
    pub parts: Seq<Seq<char>>,
}

pub open spec fn more_than_one_key_message(value: Seq<char>) -> Seq<char> {
    "Shortcut `"@ + value + "` has more than one key."@
}

pub open spec fn unsupported_key_message(part: Seq<char>) -> Seq<char> {
    "Shortcut key `"@ + part + "` is not supported."@
}

pub open spec fn needs_key_message(value: Seq<char>) -> Seq<char> {
    "Shortcut `"@ + value + "` needs a key."@
}

pub open spec fn needs_modifier_message(value: Seq<char>) -> Seq<char> {
    "Shortcut `"@ + value + "` needs at least one modifier."@
}

/// Reads one `+`-separated part: blank parts are skipped, modifiers add
/// their flag, and anything else is the key, of which there may be one.
pub open spec fn accel_step(st: AccelView, raw: Seq<char>, value: Seq<char>) -> Result<AccelView, Seq<char>> {
    let part = trim(raw);
    if part.len() == 0 {
        Ok(st)
    } else {
        match modifier_of(ascii_lower_seq(part)) {
            Some((flag, name)) => Ok(
                AccelView { modifiers: st.modifiers | flag, parts: st.parts.push(name), ..st },
            ),
            None => if st.key is Some {
                Err(more_than_one_key_message(value))
            } else {
                match parse_virtual_key_spec(part) {
                    None => Err(unsupported_key_message(part)),
                    Some((vk, name)) => Ok(
                        AccelView { key: Some(vk), parts: st.parts.push(name), ..st },
                    ),
                }
            },
        }
    }
}

pub open spec fn accel_fold(parts: Seq<Seq<char>>, value: Seq<char>) -> Result<AccelView, Seq<char>>
    decreases parts.len(),
{
    if parts.len() == 0 {
        Ok(AccelView { modifiers: 0, key: None, parts: Seq::empty() })
    } else {
        match accel_fold(parts.drop_last(), value) {
            Err(e) => Err(e),
            Ok(st) => accel_step(st, parts.last(), value),
        }
    }
}

/// An accelerator such as "ctrl + shift + s": its modifier flags, its key
/// code and its normalized text ("Ctrl+Shift+S"). It needs exactly one key and
/// at least one modifier.
pub open spec fn parse_accelerator_spec(value: Seq<char>) -> Result<(u32, u32, Seq<char>), Seq<char>> {
    match accel_fold(split_on(value, '+'), value) {
        Err(e) => Err(e),
        Ok(st) => match st.key {
            None => Err(needs_key_message(value)),
            Some(vk) => if st.modifiers == 0 {
                Err(needs_modifier_message(value))
            } else {
                Ok((st.modifiers, vk, join_with(st.parts, "+"@)))
            },
        },
    }
}

proof fn lemma_accel_error_sticks(ps: Seq<Seq<char>>, k: int, value: Seq<char>)
    requires
        0 <= k <= ps.len(),
        accel_fold(ps.take(k), value) is Err,
    ensures
        accel_fold(ps, value) == accel_fold(ps.take(k), value),
    decreases ps.len(),
{
    if ps.len() == k {
        assert(ps.take(k) =~= ps);
    } else {
        assert(ps.drop_last().take(k) =~= ps.take(k));
        lemma_accel_error_sticks(ps.drop_last(), k, value);
    }
}

pub open spec fn accel_result_view(r: Result<(u32, u32, String), String>) -> Result<(u32, u32, Seq<char>), Seq<char>> {
    match r {
        Ok((m, vk, a)) => Ok((m, vk, a@)),
        Err(e) => Err(e@),
    }
}

fn message(prefix: &str, middle: &[char], suffix: &str) -> (r: String)
    ensures
        r@ == prefix@ + middle@ + suffix@,
{
    string_of(&surround(prefix, middle, suffix))
}

/// Parses an accelerator; see `parse_accelerator_spec`.
pub fn parse_accelerator(value: &str) -> (r: Result<(u32, u32, String), String>)
    ensures
        accel_result_view(r) == parse_accelerator_spec(value@),
{
    let chars = chars_of(value);
    let parts = split_chars(&chars, '+');
    let ghost ps = char_rows(parts@);
    let mut modifiers: u32 = 0;
    let mut key: Option<u32> = None;
    let mut normalized: Vec<Vec<char>> = Vec::new();
    let mut i: usize = 0;
    assert(ps.take(0) =~= Seq::<Seq<char>>::empty());
    assert(char_rows(normalized@) =~= Seq::<Seq<char>>::empty());
    while i < parts.len()
        invariant
            ps == char_rows(parts@),
            ps == split_on(value@, '+'),
            chars@ == value@,
            i <= parts@.len(),
            accel_fold(ps.take(i as int), value@) == Ok::<AccelView, Seq<char>>(
                AccelView { modifiers, key, parts: char_rows(normalized@) },
            ),
        decreases parts@.len() - i,
    {
        assert(ps.take(i as int + 1).drop_last() =~= ps.take(i as int));
        assert(ps.take(i as int + 1).last() == parts@[i as int]@);
        let part = trim_chars(&parts[i]);
        if part.len() > 0 {
            let lower = ascii_lower_chars(&part);
            let ghost before = char_rows(normalized@);
            let win = chars_of("meta");
            if is_any(&lower, "ctrl", "control") {
                modifiers = modifiers | MOD_CONTROL;
                normalized.push(chars_of("Ctrl"));
            } else if is_any(&lower, "alt", "alt") {
                modifiers = modifiers | MOD_ALT;
                normalized.push(chars_of("Alt"));
            } else if is_any(&lower, "shift", "shift") {
                modifiers = modifiers | MOD_SHIFT;
                normalized.push(chars_of("Shift"));
            } else if is_any(&lower, "win", "windows") || chars_eq(&lower, &win) {
                modifiers = modifiers | MOD_WIN;
                normalized.push(chars_of("Win"));
            } else {
                if key.is_some() {
                    proof {
                        lemma_accel_error_sticks(ps, i as int + 1, value@);
                    }
                    return Err(message("Shortcut `", &chars, "` has more than one key."));
                }
                match parse_key_chars(&part) {
                    None => {
                        proof {
                            lemma_accel_error_sticks(ps, i as int + 1, value@);
                        }
                        return Err(message("Shortcut key `", &part, "` is not supported."));
                    },
                    Some((vk, name)) => {
                        key = Some(vk);
                        normalized.push(chars_of(name.as_str()));
                    },
                }
            }
            assert(char_rows(normalized@) =~= before.push(normalized@.last()@));
        }
        i = i + 1;
    }
    assert(ps.take(parts@.len() as int) =~= ps);
    match key {
        None => Err(message("Shortcut `", &chars, "` needs a key.")),
        Some(vk) => {
            if modifiers == 0 {
                Err(message("Shortcut `", &chars, "` needs at least one modifier."))
            } else {
                let plus = chars_of("+");
                let text = join_chars(&normalized, &plus);
                Ok((modifiers, vk, string_of(&text)))
            }
        },
    }
}

// ---------------------------------------------------------------------------
// A full set of bindings
// ---------------------------------------------------------------------------

pub open spec fn has_action(bs: Seq<BindingView>, a: HotkeyAction) -> bool {
    exists|i: int| 0 <= i < bs.len() && (#[trigger] bs[i]).action == a
}

pub open spec fn has_keys(bs: Seq<BindingView>, modifiers: u32, vk: u32) -> bool {
    exists|i: int| 0 <= i < bs.len() && (#[trigger] bs[i]).modifiers == modifiers && bs[i].vk == vk
}

pub open spec fn wrong_count_message() -> Seq<char> {
    "Shortcut settings must include exactly 8 shortcuts."@
}

pub open spec fn unknown_action_message(action: Seq<char>) -> Seq<char> {
    "Unknown shortcut action `"@ + action + "`."@
}

pub open spec fn duplicate_action_message(action: Seq<char>) -> Seq<char> {
    "Duplicate shortcut action `"@ + action + "`."@
}

pub open spec fn duplicate_shortcut_message(accelerator: Seq<char>) -> Seq<char> {
    "Duplicate shortcut `"@ + accelerator + "`."@
}

/// Reads one requested binding: its action must be known and new, its
/// accelerator must parse, and its keys must not be taken.
pub open spec fn request_step(bs: Seq<BindingView>, req: (Seq<char>, Seq<char>)) -> Result<Seq<BindingView>, Seq<char>> {
    match action_from_name(req.0) {
        None => Err(unknown_action_message(req.0)),
        Some(a) => match parse_accelerator_spec(req.1) {
            Err(e) => Err(e),
            Ok((modifiers, vk, accelerator)) => if has_action(bs, a) {
                Err(duplicate_action_message(req.0))
            } else if has_keys(bs, modifiers, vk) {
                Err(duplicate_shortcut_message(accelerator))
            } else {
                Ok(
                    bs.push(
                        BindingView { id: action_id(a), modifiers, vk, action: a, accelerator },
                    ),
                )
            },
        },
    }
}

pub open spec fn request_fold(reqs: Seq<(Seq<char>, Seq<char>)>) -> Result<Seq<BindingView>, Seq<char>>
    decreases reqs.len(),
{
    if reqs.len() == 0 {
        Ok(Seq::empty())
    } else {
        match request_fold(reqs.drop_last()) {
            Err(e) => Err(e),
            Ok(bs) => request_step(bs, reqs.last()),
        }
    }
}

/// The first position of a binding for `a`, from `j` on.
pub open spec fn find_action_from(bs: Seq<BindingView>, a: HotkeyAction, j: int) -> Option<int>
    decreases bs.len() - j,
{
    if j < 0 || j >= bs.len() {
        None
    } else if bs[j].action == a {
        Some(j)
    } else {
        find_action_from(bs, a, j + 1)
    }
}

pub open spec fn find_action(bs: Seq<BindingView>, a: HotkeyAction) -> Option<int> {
    find_action_from(bs, a, 0)
}

/// The bindings of the first `k` actions in id order, each that is present.
pub open spec fn order_upto(bs: Seq<BindingView>, k: int) -> Seq<BindingView>
    decreases k,
{
    if k <= 0 {
        Seq::empty()
    } else {
        match find_action(bs, action_at(k - 1)) {
            Some(i) => order_upto(bs, k - 1).push(bs[i]),
            None => order_upto(bs, k - 1),
        }
    }
}

/// The bindings in order of their ids.
pub open spec fn order_by_id(bs: Seq<BindingView>) -> Seq<BindingView> {
    order_upto(bs, 8)
}

/// A settings request: exactly eight bindings, read in turn, then put in id
/// order.
pub open spec fn bindings_from_request_spec(reqs: Seq<(Seq<char>, Seq<char>)>) -> Result<Seq<BindingView>, Seq<char>> {
    if reqs.len() != 8 {
        Err(wrong_count_message())
    } else {
        match request_fold(reqs) {
            Err(e) => Err(e),
            Ok(bs) => Ok(order_by_id(bs)),
        }
    }
}

pub open spec fn bindings_result_view(r: Result<Vec<HotkeyBinding>, String>) -> Result<Seq<BindingView>, Seq<char>> {
    match r {
        Ok(v) => Ok(binding_views(v@)),
        Err(e) => Err(e@),
    }
}

proof fn lemma_request_error_sticks(rs: Seq<(Seq<char>, Seq<char>)>, k: int)
    requires
        0 <= k <= rs.len(),
        request_fold(rs.take(k)) is Err,
    ensures
        request_fold(rs) == request_fold(rs.take(k)),
    decreases rs.len(),
{
    if rs.len() == k {
        assert(rs.take(k) =~= rs);
    } else {
        assert(rs.drop_last().take(k) =~= rs.take(k));
        lemma_request_error_sticks(rs.drop_last(), k);
    }
}

fn binding_has_action(bs: &Vec<HotkeyBinding>, a: HotkeyAction) -> (r: bool)
    ensures
        r == has_action(binding_views(bs@), a),
{
    let ghost v = binding_views(bs@);
    let mut i: usize = 0;
    while i < bs.len()
        invariant
            v == binding_views(bs@),
            i <= bs@.len(),
            forall|j: int| 0 <= j < i ==> v[j].action != a,
        decreases bs@.len() - i,
    {
        if bs[i].action == a {
            assert(v[i as int].action == a);
            return true;
        }
        i = i + 1;
    }
    false
}

fn binding_has_keys(bs: &Vec<HotkeyBinding>, modifiers: u32, vk: u32) -> (r: bool)
    ensures
        r == has_keys(binding_views(bs@), modifiers, vk),
{
    let ghost v = binding_views(bs@);
    let mut i: usize = 0;
    while i < bs.len()
        invariant
            v == binding_views(bs@),
            i <= bs@.len(),
            forall|j: int| 0 <= j < i ==> !(v[j].modifiers == modifiers && v[j].vk == vk),
        decreases bs@.len() - i,
    {
        if bs[i].modifiers == modifiers && bs[i].vk == vk {
            assert(v[i as int].modifiers == modifiers && v[i as int].vk == vk);
            return true;
        }
        i = i + 1;
    }
    false
}

fn find_binding(bs: &Vec<HotkeyBinding>, a: HotkeyAction) -> (r: Option<usize>)
    ensures
        match r {
            Some(i) => find_action(binding_views(bs@), a) == Some(i as int) && i < bs@.len(),
            None => find_action(binding_views(bs@), a) is None,
        },
{
    let ghost v = binding_views(bs@);
    let mut i: usize = 0;
    while i < bs.len()
        invariant
            v == binding_views(bs@),
            i <= bs@.len(),
            find_action(v, a) == find_action_from(v, a, i as int),
        decreases bs@.len() - i,
    {
        if bs[i].action == a {
            return Some(i);
        }
        i = i + 1;
    }
    None
}

/// Checks a full set of bindings and puts it in id order; see
/// `bindings_from_request_spec`.
pub fn hotkey_bindings_from_request(request: &HotkeySettingsRequest) -> (r: Result<Vec<HotkeyBinding>, String>)
    ensures
        bindings_result_view(r) == bindings_from_request_spec(request_views(request.bindings@)),
{
    let ghost rs = request_views(request.bindings@);
    if request.bindings.len() != HOTKEY_COUNT {
        return Err(string_of(&chars_of("Shortcut settings must include exactly 8 shortcuts.")));
    }
    let mut bindings: Vec<HotkeyBinding> = Vec::new();
    let mut i: usize = 0;
    assert(rs.take(0) =~= Seq::<(Seq<char>, Seq<char>)>::empty());
    assert(binding_views(bindings@) =~= Seq::<BindingView>::empty());
    while i < request.bindings.len()
        invariant
            rs == request_views(request.bindings@),
            rs.len() == HOTKEY_COUNT,
            i <= rs.len(),
            request_fold(rs.take(i as int)) == Ok::<Seq<BindingView>, Seq<char>>(
                binding_views(bindings@),
            ),
        decreases rs.len() - i,
    {
        assert(rs.take(i as int + 1).drop_last() =~= rs.take(i as int));
        assert(rs.take(i as int + 1).last() == rs[i as int]);
        let req = &request.bindings[i];
        assert(rs[i as int] == (req.action@, req.accelerator@));
        let action = match HotkeyAction::from_str(req.action.as_str()) {
            Some(a) => a,
            None => {
                proof {
                    lemma_request_error_sticks(rs, i as int + 1);
                }
                let name = chars_of(req.action.as_str());
                return Err(message("Unknown shortcut action `", &name, "`."));
            },
        };
        let (modifiers, vk, accelerator) = match parse_accelerator(req.accelerator.as_str()) {
            Ok(parsed) => parsed,
            Err(e) => {
                proof {
                    lemma_request_error_sticks(rs, i as int + 1);
                }
                return Err(e);
            },
        };
        if binding_has_action(&bindings, action) {
            proof {
                lemma_request_error_sticks(rs, i as int + 1);
            }
            let name = chars_of(req.action.as_str());
            return Err(message("Duplicate shortcut action `", &name, "`."));
        }
        if binding_has_keys(&bindings, modifiers, vk) {
            proof {
                lemma_request_error_sticks(rs, i as int + 1);
            }
            let text = chars_of(accelerator.as_str());
            return Err(message("Duplicate shortcut `", &text, "`."));
        }
        let id = action.hotkey_id();
        let b = HotkeyBinding { id, modifiers, vk, action, accelerator };
        let ghost before = binding_views(bindings@);
        bindings.push(b);
        assert(binding_views(bindings@) =~= before.push(b@));
        i = i + 1;
    }
    assert(rs.take(rs.len() as int) =~= rs);
    let ghost parsed = binding_views(bindings@);
    let mut ordered: Vec<HotkeyBinding> = Vec::new();
    let mut k: usize = 0;
    assert(binding_views(ordered@) =~= Seq::<BindingView>::empty());
    while k < HOTKEY_COUNT
        invariant
            parsed == binding_views(bindings@),
            k <= HOTKEY_COUNT,
            binding_views(ordered@) == order_upto(parsed, k as int),
        decreases HOTKEY_COUNT - k,
    {
        let a = HotkeyAction::at_index(k);
        match find_binding(&bindings, a) {
            Some(j) => {
                let b = bindings[j].duplicate();
                let ghost before = binding_views(ordered@);
                ordered.push(b);
                assert(binding_views(ordered@) =~= before.push(b@));
            },
            None => {},
        }
        k = k + 1;
    }
    Ok(ordered)
}

// ---------------------------------------------------------------------------
// Saved settings
// ---------------------------------------------------------------------------

/// The default accelerator of each action, in id order.
pub open spec fn default_accelerators() -> Seq<Seq<char>> {
    Seq::new(8, |k: int| default_binding(action_at(k)).accelerator)
}

/// Applies one saved binding to the accelerators: its action must be known
/// and not seen before.
pub open spec fn merge_step(st: (Seq<Seq<char>>, Seq<HotkeyAction>), saved: (Seq<char>, Seq<char>)) -> Result<(Seq<Seq<char>>, Seq<HotkeyAction>), Seq<char>> {
    match action_from_name(saved.0) {
        None => Err(unknown_action_message(saved.0)),
        Some(a) => if st.1.contains(a) {
            Err(duplicate_action_message(saved.0))
        } else {
            Ok((st.0.update(action_index(a), saved.1), st.1.push(a)))
        },
    }
}

pub open spec fn merge_fold(saved: Seq<(Seq<char>, Seq<char>)>) -> Result<(Seq<Seq<char>>, Seq<HotkeyAction>), Seq<char>>
    decreases saved.len(),
{
    if saved.len() == 0 {
        Ok((default_accelerators(), Seq::empty()))
    } else {
        match merge_fold(saved.drop_last()) {
            Err(e) => Err(e),
            Ok(st) => merge_step(st, saved.last()),
        }
    }
}

/// A request for all eight actions in id order: the saved accelerator where
/// one was saved, the default otherwise. Settings saved before an action
/// existed thus gain its default.
pub open spec fn merge_saved_spec(saved: Seq<(Seq<char>, Seq<char>)>) -> Result<Seq<(Seq<char>, Seq<char>)>, Seq<char>> {
    match merge_fold(saved) {
        Err(e) => Err(e),
        Ok(st) => Ok(Seq::new(8, |k: int| (action_name(action_at(k)), st.0[k]))),
    }
}

pub open spec fn merge_result_view(r: Result<HotkeySettingsRequest, String>) -> Result<Seq<(Seq<char>, Seq<char>)>, Seq<char>> {
    match r {
        Ok(req) => Ok(request_views(req.bindings@)),
        Err(e) => Err(e@),
    }
}

proof fn lemma_merge_error_sticks(rs: Seq<(Seq<char>, Seq<char>)>, k: int)
    requires
        0 <= k <= rs.len(),
        merge_fold(rs.take(k)) is Err,
    ensures
        merge_fold(rs) == merge_fold(rs.take(k)),
    decreases rs.len(),
{
    if rs.len() == k {
        assert(rs.take(k) =~= rs);
    } else {
        assert(rs.drop_last().take(k) =~= rs.take(k));
        lemma_merge_error_sticks(rs.drop_last(), k);
    }
}

fn seen_contains(seen: &Vec<HotkeyAction>, a: HotkeyAction) -> (r: bool)
    ensures
        r == seen@.contains(a),
{
    let mut i: usize = 0;
    while i < seen.len()
        invariant
            i <= seen@.len(),
            forall|j: int| 0 <= j < i ==> seen@[j] != a,
        decreases seen@.len() - i,
    {
        if seen[i] == a {
            assert(seen@[i as int] == a);
            return true;
        }
        i = i + 1;
    }
    false
}

fn request_for(action: HotkeyAction, accelerator: &str) -> (r: HotkeyBindingRequest)
    ensures
        r.action@ == action_name(action),
        r.accelerator@ == accelerator@,
{
    HotkeyBindingRequest {
        action: string_of(&chars_of(action.as_str())),
        accelerator: string_of(&chars_of(accelerator)),
    }
}

/// Saved settings as a full request; see `merge_saved_spec`.
pub fn merge_saved_hotkey_settings(settings: StoredHotkeySettings) -> (r: Result<HotkeySettingsRequest, String>)
    ensures
        merge_result_view(r) == merge_saved_spec(stored_views(settings.bindings@)),
{
    let ghost saved = stored_views(settings.bindings@);
    let defaults = default_hotkeys();
    assert(binding_views(defaults@).len() == defaults@.len());
    let mut bindings: Vec<HotkeyBindingRequest> = Vec::new();
    let mut k: usize = 0;
    while k < defaults.len()
        invariant
            binding_views(defaults@) == default_bindings_view(),
            defaults@.len() == 8,
            k <= 8,
            bindings@.len() == k,
            forall|j: int|
                0 <= j < k ==> (#[trigger] request_views(bindings@)[j]) == (
                    action_name(action_at(j)),
                    default_accelerators()[j],
                ),
        decreases 8 - k,
    {
        assert(defaults@[k as int]@ == default_bindings_view()[k as int]);
        let b = request_for(defaults[k].action, defaults[k].accelerator.as_str());
        let ghost before = bindings@;
        bindings.push(b);
        assert(request_views(bindings@)[k as int] == (b.action@, b.accelerator@));
        assert forall|j: int| 0 <= j < k + 1 implies (#[trigger] request_views(bindings@)[j]) == (
            action_name(action_at(j)),
            default_accelerators()[j],
        ) by {
            if j < k {
                assert(request_views(bindings@)[j] == request_views(before)[j]);
            }
        }
        k = k + 1;
    }
    let mut seen: Vec<HotkeyAction> = Vec::new();
    let ghost mut accs: Seq<Seq<char>> = default_accelerators();
    let mut i: usize = 0;
    assert(saved.take(0) =~= Seq::<(Seq<char>, Seq<char>)>::empty());
    while i < settings.bindings.len()
        invariant
            saved == stored_views(settings.bindings@),
            i <= saved.len(),
            merge_fold(saved.take(i as int)) == Ok::<(Seq<Seq<char>>, Seq<HotkeyAction>), Seq<char>>(
                (accs, seen@),
            ),
            accs.len() == 8,
            bindings@.len() == 8,
            forall|j: int|
                0 <= j < 8 ==> (#[trigger] request_views(bindings@)[j]) == (
                    action_name(action_at(j)),
                    accs[j],
                ),
        decreases saved.len() - i,
    {
        assert(saved.take(i as int + 1).drop_last() =~= saved.take(i as int));
        assert(saved.take(i as int + 1).last() == saved[i as int]);
        let entry = &settings.bindings[i];
        assert(saved[i as int] == (entry.action@, entry.accelerator@));
        let action = match HotkeyAction::from_str(entry.action.as_str()) {
            Some(a) => a,
            None => {
                proof {
                    lemma_merge_error_sticks(saved, i as int + 1);
                }
                let name = chars_of(entry.action.as_str());
                return Err(message("Unknown shortcut action `", &name, "`."));
            },
        };
        if seen_contains(&seen, action) {
            proof {
                lemma_merge_error_sticks(saved, i as int + 1);
            }
            let name = chars_of(entry.action.as_str());
            return Err(message("Duplicate shortcut action `", &name, "`."));
        }
        seen.push(action);
        let slot = action.index();
        let ghost before = bindings@;
        bindings.set(slot, request_for(action, entry.accelerator.as_str()));
        proof {
            accs = accs.update(slot as int, entry.accelerator@);
            assert forall|j: int| 0 <= j < 8 implies (#[trigger] request_views(bindings@)[j]) == (
                action_name(action_at(j)),
                accs[j],
            ) by {
                if j != slot {
                    assert(request_views(bindings@)[j] == request_views(before)[j]);
                }
            }
        }
        i = i + 1;
    }
    assert(saved.take(saved.len() as int) =~= saved);
    assert(request_views(bindings@) =~= Seq::new(
        8,
        |k: int| (action_name(action_at(k)), accs[k]),
    ));
    Ok(HotkeySettingsRequest { bindings })
}

/// The settings to save for a set of bindings: each action's name and
/// normalized accelerator, in the same order.
pub open spec fn stored_of(bs: Seq<BindingView>) -> Seq<(Seq<char>, Seq<char>)> {
    Seq::new(bs.len(), |i: int| (action_name(bs[i].action), bs[i].accelerator))
}

pub fn stored_settings_from_bindings(bindings: &Vec<HotkeyBinding>) -> (r: StoredHotkeySettings)
    ensures
        stored_views(r.bindings@) == stored_of(binding_views(bindings@)),
{
    let mut out: Vec<StoredHotkeyBinding> = Vec::new();
    let mut i: usize = 0;
    while i < bindings.len()
        invariant
            i <= bindings@.len(),
            stored_views(out@) =~= stored_of(binding_views(bindings@)).take(i as int),
        decreases bindings@.len() - i,
    {
        let b = &bindings[i];
        let entry = StoredHotkeyBinding {
            action: string_of(&chars_of(b.action.as_str())),
            accelerator: b.accelerator.clone(),
        };
        let ghost before = out@;
        out.push(entry);
        assert(stored_views(out@) =~= stored_views(before).push(
            (entry.action@, entry.accelerator@),
        ));
        assert(binding_views(bindings@)[i as int] == b@);
        i = i + 1;
    }
    assert(stored_of(binding_views(bindings@)).take(bindings@.len() as int) =~= stored_of(
        binding_views(bindings@),
    ));
    StoredHotkeySettings { bindings: out }
}

// ---------------------------------------------------------------------------
// Moving the window
// ---------------------------------------------------------------------------

#[derive(Debug, Clone, Copy, PartialEq, Eq, Structural)]
pub enum WindowMoveDirection {
    Up,
    Down,
    Right,
    Left,
}

/// One move step: a signed shift of x and y.
pub open spec fn move_delta_spec(direction: WindowMoveDirection) -> (i32, i32) {
    match direction {
        WindowMoveDirection::Up => (0, -50i32),
        WindowMoveDirection::Down => (0, 50),
        WindowMoveDirection::Right => (50, 0),
        WindowMoveDirection::Left => (-50i32, 0),
    }
}

pub fn move_delta(direction: WindowMoveDirection) -> (r: (i32, i32))
    ensures
        r == move_delta_spec(direction),
{
    match direction {
        WindowMoveDirection::Up => (0, -WINDOW_MOVE_STEP),
        WindowMoveDirection::Down => (0, WINDOW_MOVE_STEP),
        WindowMoveDirection::Right => (WINDOW_MOVE_STEP, 0),
        WindowMoveDirection::Left => (-WINDOW_MOVE_STEP, 0),
    }
}

/// The last position on the axis at which the window still fits in the work
/// area, or the area's origin when the window is larger.
pub open spec fn axis_maximum(work_origin: i32, work_size: u32, window_size: u32) -> int {
    let last = work_origin + work_size - window_size;
    if last > work_origin {
        last
    } else {
        work_origin as int
    }
}

/// The moved position on one axis, kept between the work area's origin and
/// `axis_maximum`.
pub open spec fn clamped_axis_value(position: i32, delta: i32, work_origin: i32, work_size: u32, window_size: u32) -> int {
    let target = position + delta;
    if target < work_origin {
        work_origin as int
    } else if target > axis_maximum(work_origin, work_size, window_size) {
        axis_maximum(work_origin, work_size, window_size)
    } else {
        target
    }
}

/// One axis of a window move, as a 32-bit coordinate; see `clamped_axis_value`.
pub fn clamped_window_axis(position: i32, delta: i32, work_origin: i32, work_size: u32, window_size: u32) -> (r: i32)
    ensures
        r == clamped_axis_value(position, delta, work_origin, work_size, window_size) as i32,
{
    let minimum = work_origin as i64;
    let last = minimum + work_size as i64 - window_size as i64;
    let maximum = if last > minimum {
        last
    } else {
        minimum
    };
    let target = position as i64 + delta as i64;
    let value = if target < minimum {
        minimum
    } else if target > maximum {
        maximum
    } else {
        target
    };
    value as i32
}

/// Where one move step puts the window; see `clamped_axis_value`.
pub fn next_window_position(
    direction: WindowMoveDirection,
    position: (i32, i32),
    window_size: (u32, u32),
    work_origin: (i32, i32),
    work_size: (u32, u32),
) -> (r: (i32, i32))
    ensures
        r.0 == clamped_axis_value(
            position.0,
            move_delta_spec(direction).0,
            work_origin.0,
            work_size.0,
            window_size.0,
        ) as i32,
        r.1 == clamped_axis_value(
            position.1,
            move_delta_spec(direction).1,
            work_origin.1,
            work_size.1,
            window_size.1,
        ) as i32,
{
    let (dx, dy) = move_delta(direction);
    let x = clamped_window_axis(position.0, dx, work_origin.0, work_size.0, window_size.0);
    let y = clamped_window_axis(position.1, dy, work_origin.1, work_size.1, window_size.1);
    (x, y)
}

// ---------------------------------------------------------------------------
// Registration results and command errors
// ---------------------------------------------------------------------------

pub open spec fn registration_error_message(accelerator: Seq<char>, error: Seq<char>) -> Seq<char> {
    accelerator + " could not be registered. The shortcut may already be in use: "@ + error
}

/// The bindings that registered, a panel row for every binding, and the error
/// of each that did not, given what the system answered for each binding
/// (`None` for success, or its error text).
pub open spec fn registration_outcome_spec(bs: Seq<BindingView>, failures: Seq<Option<Seq<char>>>) -> (Seq<BindingView>, Seq<(Seq<char>, Seq<char>, bool, Option<Seq<char>>)>, Seq<Seq<char>>)
    decreases bs.len(),
{
    if bs.len() == 0 || failures.len() != bs.len() {
        (Seq::empty(), Seq::empty(), Seq::empty())
    } else {
        let (ok, rows, errors) = registration_outcome_spec(bs.drop_last(), failures.drop_last());
        let b = bs.last();
        match failures.last() {
            None => (ok.push(b), rows.push((action_name(b.action), b.accelerator, true, None)), errors),
            Some(e) => {
                let m = registration_error_message(b.accelerator, e);
                (ok, rows.push((action_name(b.action), b.accelerator, false, Some(m))), errors.push(m))
            },
        }
    }
}

pub open spec fn row_view(r: HotkeyBindingSnapshot) -> (Seq<char>, Seq<char>, bool, Option<Seq<char>>) {
    (
        r.action@,
        r.accelerator@,
        r.registered,
        match r.error {
            Some(e) => Some(e@),
            None => None,
        },
    )
}

pub open spec fn row_views(v: Seq<HotkeyBindingSnapshot>) -> Seq<(Seq<char>, Seq<char>, bool, Option<Seq<char>>)> {
    Seq::new(v.len(), |i: int| row_view(v[i]))
}

pub open spec fn opt_views(v: Seq<Option<String>>) -> Seq<Option<Seq<char>>> {
    Seq::new(
        v.len(),
        |i: int|
            match v[i] {
                Some(e) => Some(e@),
                None => None,
            },
    )
}

pub open spec fn string_views(v: Seq<String>) -> Seq<Seq<char>> {
    Seq::new(v.len(), |i: int| v[i]@)
}

/// Sorts registration answers into registered bindings, panel rows and
/// errors; see `registration_outcome_spec`.
pub fn registration_outcome(bindings: &Vec<HotkeyBinding>, failures: &Vec<Option<String>>) -> (r: (
    Vec<HotkeyBinding>,
    Vec<HotkeyBindingSnapshot>,
    Vec<String>,
))
    requires
        bindings@.len() == failures@.len(),
    ensures
        (binding_views(r.0@), row_views(r.1@), string_views(r.2@)) == registration_outcome_spec(
            binding_views(bindings@),
            opt_views(failures@),
        ),
{
    let ghost bs = binding_views(bindings@);
    let ghost fs = opt_views(failures@);
    let mut ok: Vec<HotkeyBinding> = Vec::new();
    let mut rows: Vec<HotkeyBindingSnapshot> = Vec::new();
    let mut errors: Vec<String> = Vec::new();
    let mut i: usize = 0;
    assert(bs.take(0) =~= Seq::<BindingView>::empty());
    assert(fs.take(0) =~= Seq::<Option<Seq<char>>>::empty());
    assert(binding_views(ok@) =~= Seq::<BindingView>::empty());
    assert(row_views(rows@) =~= Seq::<(Seq<char>, Seq<char>, bool, Option<Seq<char>>)>::empty());
    assert(string_views(errors@) =~= Seq::<Seq<char>>::empty());
    while i < bindings.len()
        invariant
            bs == binding_views(bindings@),
            fs == opt_views(failures@),
            bindings@.len() == failures@.len(),
            i <= bindings@.len(),
            (binding_views(ok@), row_views(rows@), string_views(errors@))
                == registration_outcome_spec(bs.take(i as int), fs.take(i as int)),
        decreases bindings@.len() - i,
    {
        assert(bs.take(i as int + 1).drop_last() =~= bs.take(i as int));
        assert(fs.take(i as int + 1).drop_last() =~= fs.take(i as int));
        assert(bs.take(i as int + 1).last() == bindings@[i as int]@);
        let b = &bindings[i];
        let ghost ok0 = binding_views(ok@);
        let ghost rows0 = row_views(rows@);
        let ghost errors0 = string_views(errors@);
        match &failures[i] {
            None => {
                assert(fs.take(i as int + 1).last() is None);
                let d = b.duplicate();
                ok.push(d);
                let row = b.snapshot(true, None);
                rows.push(row);
                assert(binding_views(ok@) =~= ok0.push(d@));
                assert(row_views(rows@) =~= rows0.push(row_view(row)));
                assert(string_views(errors@) =~= errors0);
            },
            Some(e) => {
                assert(fs.take(i as int + 1).last() == Some(e@));
                let mut text = chars_of(b.accelerator.as_str());
                let middle = chars_of(" could not be registered. The shortcut may already be in use: ");
                append_chars(&mut text, &middle);
                let detail = chars_of(e.as_str());
                append_chars(&mut text, &detail);
                let m = string_of(&text);
                let row = b.snapshot(false, Some(string_of(&text)));
                rows.push(row);
                errors.push(m);
                assert(binding_views(ok@) =~= ok0);
                assert(row_views(rows@) =~= rows0.push(row_view(row)));
                assert(string_views(errors@) =~= errors0.push(m@));
            },
        }
        i = i + 1;
    }
    assert(bs.take(bindings@.len() as int) =~= bs);
    assert(fs.take(bindings@.len() as int) =~= fs);
    (ok, rows, errors)
}

/// The error of a failed apply: the registration errors joined by spaces, and,
/// when re-registering the previous shortcuts failed too, those errors after
/// a note that the previous shortcuts could not be fully restored.
pub open spec fn apply_failure_message_spec(errors: Seq<Seq<char>>, restore_errors: Seq<Seq<char>>) -> Seq<char> {
    if restore_errors.len() == 0 {
        join_with(errors, " "@)
    } else {
        join_with(errors, " "@) + " The previous shortcuts could not be fully restored: "@
            + join_with(restore_errors, " "@)
    }
}

fn chars_rows_of(v: &Vec<String>) -> (r: Vec<Vec<char>>)
    ensures
        char_rows(r@) == string_views(v@),
{
    let mut out: Vec<Vec<char>> = Vec::new();
    let mut i: usize = 0;
    while i < v.len()
        invariant
            i <= v@.len(),
            char_rows(out@) =~= string_views(v@).take(i as int),
        decreases v@.len() - i,
    {
        let row = chars_of(v[i].as_str());
        let ghost before = char_rows(out@);
        out.push(row);
        assert(char_rows(out@) =~= before.push(row@));
        i = i + 1;
    }
    assert(string_views(v@).take(v@.len() as int) =~= string_views(v@));
    out
}

/// See `apply_failure_message_spec`.
pub fn apply_failure_message(errors: &Vec<String>, restore_errors: &Vec<String>) -> (r: String)
    ensures
        r@ == apply_failure_message_spec(string_views(errors@), string_views(restore_errors@)),
{
    let space = chars_of(" ");
    let rows = chars_rows_of(errors);
    let mut text = join_chars(&rows, &space);
    if restore_errors.len() > 0 {
        let note = chars_of(" The previous shortcuts could not be fully restored: ");
        append_chars(&mut text, &note);
        let restore_rows = chars_rows_of(restore_errors);
        let rest = join_chars(&restore_rows, &space);
        append_chars(&mut text, &rest);
    } else {
        assert(string_views(restore_errors@).len() == 0);
    }
    string_of(&text)
}

/// What a shortcut's outcome puts in the panel: its error, unless there was
/// none or the workflow was cancelled by navigation.
pub fn hotkey_error_to_report(result: Result<(), String>) -> (r: Option<String>)
    ensures
        match result {
            Ok(()) => r is None,
            Err(m) => if m@ == crate::automation::cancelled_message() {
                r is None
            } else {
                r == Some(m)
            },
        },
{
    match result {
        Ok(()) => None,
        Err(message) => {
            if crate::automation::is_cancelled_error(message.as_str()) {
                None
            } else {
                Some(message)
            }
        },
    }
}

impl HotkeyCommandError {
    pub fn invalid_hotkeys(message: String) -> (r: Self)
        ensures
            r.code@ == "invalid_hotkeys"@,
            r.message@ == message@,
    {
        HotkeyCommandError { code: "invalid_hotkeys", message }
    }

    pub fn listener_unavailable() -> (r: Self)
        ensures
            r.code@ == "hotkey_listener_unavailable"@,
            r.message@ == "Global hotkey listener is not available."@,
    {
        HotkeyCommandError {
            code: "hotkey_listener_unavailable",
            message: string_of(&chars_of("Global hotkey listener is not available.")),
        }
    }

    pub fn save_failed(message: String) -> (r: Self)
        ensures
            r.code@ == "hotkey_save_failed"@,
            r.message@ == message@,
    {
        HotkeyCommandError { code: "hotkey_save_failed", message }
    }

    pub fn state_unavailable(message: String) -> (r: Self)
        ensures
            r.code@ == "state_unavailable"@,
            r.message@ == message@,
    {
        HotkeyCommandError { code: "state_unavailable", message }
    }
}

/// The answer of the listener thread to an apply request, as the command
/// reports it: `None` when no answer came in time.
pub fn apply_reply_outcome(reply: Option<Result<(), String>>) -> (r: Result<(), HotkeyCommandError>)
    ensures
        match reply {
            None => r matches Err(e) && e.code@ == "hotkey_apply_timeout"@ && e.message@
                == "Timed out while applying shortcut settings."@,
            Some(Ok(())) => r is Ok,
            Some(Err(m)) => r matches Err(e) && e.code@ == "hotkey_apply_failed"@ && e.message
                == m,
        },
{
    match reply {
        None => Err(
            HotkeyCommandError {
                code: "hotkey_apply_timeout",
                message: string_of(&chars_of("Timed out while applying shortcut settings.")),
            },
        ),
        Some(Ok(())) => Ok(()),
        Some(Err(message)) => Err(HotkeyCommandError { code: "hotkey_apply_failed", message }),
    }
}

// ---------------------------------------------------------------------------
// Laws
// ---------------------------------------------------------------------------

/// Law: a move keeps the window's edge at or past the work area's origin and,
/// when the window fits, wholly inside the area; with room to move it moves by
/// exactly `delta`. (Holds where the area's last fitting position is a 32-bit
/// coordinate.)
pub proof fn law_window_stays_in_work_area(
    position: i32,
    delta: i32,
    work_origin: i32,
    work_size: u32,
    window_size: u32,
)
    requires
        work_origin + work_size - window_size <= i32::MAX,
    ensures
        clamped_axis_value(position, delta, work_origin, work_size, window_size) as i32
            == clamped_axis_value(position, delta, work_origin, work_size, window_size),
        work_origin <= clamped_axis_value(position, delta, work_origin, work_size, window_size),
        window_size <= work_size ==> clamped_axis_value(
            position,
            delta,
            work_origin,
            work_size,
            window_size,
        ) + window_size <= work_origin + work_size,
        window_size >= work_size ==> clamped_axis_value(
            position,
            delta,
            work_origin,
            work_size,
            window_size,
        ) == work_origin,
        (work_origin <= position + delta && position + delta + window_size <= work_origin
            + work_size) ==> clamped_axis_value(position, delta, work_origin, work_size, window_size)
            == position + delta,
{
}

/// Law: every action's name reads back as that action.
pub proof fn law_action_names_round_trip(a: HotkeyAction)
    ensures
        action_from_name(action_name(a)) == Some(a),
        action_at(action_index(a)) == a,
        0 <= action_index(a) < 8,
{
    reveal_strlit("shortcutMode1");
    reveal_strlit("shortcutMode2");
    reveal_strlit("shortcutMode3");
    reveal_strlit("shortcutMoveUp");
    reveal_strlit("shortcutMoveDown");
    reveal_strlit("shortcutMoveRight");
    reveal_strlit("shortcutMoveLeft");
    reveal_strlit("shortcutToggleWindow");
    let m1 = "shortcutMode1"@;
    let m2 = "shortcutMode2"@;
    let m3 = "shortcutMode3"@;
    let down = "shortcutMoveDown"@;
    let left = "shortcutMoveLeft"@;
    assert(m2[12] != m1[12]);
    assert(m3[12] != m1[12] && m3[12] != m2[12]);
    assert(left[12] != down[12]);
    assert(m1.len() == 13);
    assert("shortcutMoveUp"@.len() == 14);
    assert(down.len() == 16);
    assert("shortcutMoveRight"@.len() == 17);
    assert(left.len() == 16);
    assert("shortcutToggleWindow"@.len() == 20);
    assert(m2 != m1);
    assert(m3 != m1);
    assert(m3 != m2);
}

/// What a successful read of requested bindings holds: one binding per
/// request, parsed from it, with distinct actions and distinct keys.
pub open spec fn request_fold_facts(rs: Seq<(Seq<char>, Seq<char>)>, bs: Seq<BindingView>) -> bool {
    &&& bs.len() == rs.len()
    &&& forall|i: int|
        0 <= i < bs.len() ==> {
            &&& action_from_name(rs[i].0) == Some((#[trigger] bs[i]).action)
            &&& parse_accelerator_spec(rs[i].1) == Ok::<(u32, u32, Seq<char>), Seq<char>>(
                (bs[i].modifiers, bs[i].vk, bs[i].accelerator),
            )
            &&& bs[i].id == action_id(bs[i].action)
            &&& bs[i].modifiers != 0
        }
    &&& forall|i: int, j: int|
        0 <= i < j < bs.len() ==> #[trigger] bs[i].action != #[trigger] bs[j].action
    &&& forall|i: int, j: int|
        0 <= i < j < bs.len() ==> !(#[trigger] bs[i].modifiers == #[trigger] bs[j].modifiers
            && bs[i].vk == bs[j].vk)
}

proof fn lemma_request_fold_facts(rs: Seq<(Seq<char>, Seq<char>)>)
    ensures
        request_fold(rs) matches Ok(bs) ==> request_fold_facts(rs, bs),
    decreases rs.len(),
{
    if rs.len() > 0 {
        let rest = rs.drop_last();
        lemma_request_fold_facts(rest);
        if let Ok(bs) = request_fold(rs) {
            let prev = request_fold(rest)->Ok_0;
            let n = bs.last();
            assert(bs =~= prev.push(n));
            assert(!has_action(prev, n.action));
            assert(!has_keys(prev, n.modifiers, n.vk));
            assert forall|i: int| 0 <= i < bs.len() - 1 implies bs[i] == prev[i] && rs[i] == rest[i] by {}
            assert forall|i: int, j: int| 0 <= i < j < bs.len() implies #[trigger] bs[i].action
                != #[trigger] bs[j].action by {
                if j == bs.len() - 1 {
                    assert(prev[i] == bs[i]);
                }
            }
            assert forall|i: int, j: int| 0 <= i < j < bs.len() implies !(
            #[trigger] bs[i].modifiers == #[trigger] bs[j].modifiers && bs[i].vk == bs[j].vk) by {
                if j == bs.len() - 1 {
                    assert(prev[i] == bs[i]);
                }
            }
        }
    }
}

proof fn lemma_find_action(bs: Seq<BindingView>, a: HotkeyAction, j: int)
    requires
        0 <= j,
    ensures
        find_action_from(bs, a, j) matches Some(i) ==> j <= i < bs.len() && bs[i].action == a,
        find_action_from(bs, a, j) is None ==> forall|i: int| j <= i < bs.len() ==> bs[i].action != a,
    decreases bs.len() - j,
{
    if j < bs.len() && bs[j].action != a {
        lemma_find_action(bs, a, j + 1);
    }
}

proof fn lemma_action_index_injective(a: HotkeyAction, b: HotkeyAction)
    ensures
        action_index(a) == action_index(b) ==> a == b,
        action_at(action_index(a)) == a,
        0 <= action_index(a) < 8,
{
}

/// Eight bindings with distinct actions cover every action.
proof fn lemma_all_actions_present(bs: Seq<BindingView>)
    requires
        bs.len() == 8,
        forall|i: int, j: int| 0 <= i < j < bs.len() ==> #[trigger] bs[i].action != #[trigger] bs[j].action,
    ensures
        forall|k: int| 0 <= k < 8 ==> #[trigger] find_action(bs, action_at(k)) is Some,
{
    let idx = bs.map_values(|b: BindingView| action_index(b.action));
    assert forall|i: int, j: int| 0 <= i < idx.len() && 0 <= j < idx.len() && i != j implies idx[i]
        != idx[j] by {
        lemma_action_index_injective(bs[i].action, bs[j].action);
        if i < j {
            assert(bs[i].action != bs[j].action);
        } else {
            assert(bs[j].action != bs[i].action);
        }
    }
    idx.unique_seq_to_set();
    lemma_int_range(0, 8);
    assert forall|x: int| idx.to_set().contains(x) implies set_int_range(0, 8).contains(x) by {
        let i = choose|i: int| 0 <= i < idx.len() && idx[i] == x;
        lemma_action_index_injective(bs[i].action, bs[i].action);
    }
    vstd::set_lib::lemma_subset_equality(idx.to_set(), set_int_range(0, 8));
    assert forall|k: int| 0 <= k < 8 implies #[trigger] find_action(bs, action_at(k)) is Some by {
        assert(set_int_range(0, 8).contains(k));
        assert(idx.to_set().contains(k));
        let i = choose|i: int| 0 <= i < idx.len() && idx[i] == k;
        lemma_action_index_injective(bs[i].action, action_at(k));
        lemma_find_action(bs, action_at(k), 0);
        assert(bs[i].action == action_at(k));
    }
}

proof fn lemma_order_upto(bs: Seq<BindingView>, k: int)
    requires
        0 <= k <= 8,
        forall|j: int| 0 <= j < 8 ==> #[trigger] find_action(bs, action_at(j)) is Some,
    ensures
        order_upto(bs, k).len() == k,
        forall|j: int|
            0 <= j < k ==> #[trigger] order_upto(bs, k)[j] == bs[find_action(bs, action_at(j))->0],
    decreases k,
{
    if k > 0 {
        lemma_order_upto(bs, k - 1);
        assert(find_action(bs, action_at(k - 1)) is Some);
    }
}

/// Law: accepted settings hold one binding per action, in id order (ids 101
/// to 108), each with a modifier, no two with the same keys, and each is what
/// the request for its action said.
pub proof fn law_accepted_settings_are_complete(reqs: Seq<(Seq<char>, Seq<char>)>)
    ensures
        bindings_from_request_spec(reqs) matches Ok(bs) ==> {
            &&& bs.len() == 8
            &&& forall|k: int|
                0 <= k < 8 ==> {
                    &&& (#[trigger] bs[k]).action == action_at(k)
                    &&& bs[k].id == 101 + k
                    &&& bs[k].modifiers != 0
                    &&& exists|j: int|
                        0 <= j < 8 && action_from_name(reqs[j].0) == Some(action_at(k))
                            && parse_accelerator_spec(reqs[j].1) == Ok::<
                            (u32, u32, Seq<char>),
                            Seq<char>,
                        >((bs[k].modifiers, bs[k].vk, bs[k].accelerator))
                }
            &&& forall|i: int, j: int|
                0 <= i < j < 8 ==> !(#[trigger] bs[i].modifiers == #[trigger] bs[j].modifiers
                    && bs[i].vk == bs[j].vk)
        },
{
    if reqs.len() == 8 {
        lemma_request_fold_facts(reqs);
        if let Ok(parsed) = request_fold(reqs) {
            lemma_all_actions_present(parsed);
            lemma_order_upto(parsed, 8);
            let bs = order_by_id(parsed);
            let pos = |k: int| find_action(parsed, action_at(k))->0;
            assert forall|k: int| 0 <= k < 8 implies parsed[pos(k)].action == action_at(k) && 0
                <= pos(k) < 8 by {
                lemma_find_action(parsed, action_at(k), 0);
            }
            assert forall|k: int| 0 <= k < 8 implies {
                &&& (#[trigger] bs[k]).action == action_at(k)
                &&& bs[k].id == 101 + k
                &&& bs[k].modifiers != 0
                &&& exists|j: int|
                    0 <= j < 8 && action_from_name(reqs[j].0) == Some(action_at(k))
                        && parse_accelerator_spec(reqs[j].1) == Ok::<
                        (u32, u32, Seq<char>),
                        Seq<char>,
                    >((bs[k].modifiers, bs[k].vk, bs[k].accelerator))
            } by {
                let j = pos(k);
                assert(bs[k] == parsed[j]);
                assert(parsed[j] == parsed[j]);
            }
            assert forall|i: int, j: int| 0 <= i < j < 8 implies !(#[trigger] bs[i].modifiers
                == #[trigger] bs[j].modifiers && bs[i].vk == bs[j].vk) by {
                let pi = pos(i);
                let pj = pos(j);
                assert(bs[i] == parsed[pi]);
                assert(bs[j] == parsed[pj]);
                assert(pi != pj);
                if pi < pj {
                    assert(!(parsed[pi].modifiers == parsed[pj].modifiers && parsed[pi].vk
                        == parsed[pj].vk));
                } else {
                    assert(!(parsed[pj].modifiers == parsed[pi].modifiers && parsed[pj].vk
                        == parsed[pi].vk));
                }
            }
        }
    }
}

/// Every saved entry names a known action, and no two name the same one.
pub open spec fn saved_entries_valid(saved: Seq<(Seq<char>, Seq<char>)>) -> bool {
    &&& forall|j: int| 0 <= j < saved.len() ==> (#[trigger] action_from_name(saved[j].0)) is Some
    &&& forall|i: int, j: int|
        0 <= i < j < saved.len() ==> #[trigger] action_from_name(saved[i].0)
            != #[trigger] action_from_name(saved[j].0)
}

proof fn lemma_merge_fold_facts(saved: Seq<(Seq<char>, Seq<char>)>)
    ensures
        merge_fold(saved) is Ok <==> saved_entries_valid(saved),
        merge_fold(saved) matches Ok(st) ==> {
            &&& st.0.len() == 8
            &&& st.1.len() == saved.len()
            &&& forall|j: int|
                0 <= j < saved.len() ==> action_from_name(saved[j].0) == Some(#[trigger] st.1[j])
            &&& forall|j: int| 0 <= j < saved.len() ==> st.0[action_index(#[trigger] st.1[j])] == saved[j].1
            &&& forall|k: int|
                0 <= k < 8 && !st.1.contains(action_at(k)) ==> #[trigger] st.0[k]
                    == default_accelerators()[k]
        },
    decreases saved.len(),
{
    if saved.len() > 0 {
        let rest = saved.drop_last();
        let n = saved.len() - 1;
        lemma_merge_fold_facts(rest);
        assert forall|j: int| 0 <= j < n implies saved[j] == rest[j] by {}
        if saved_entries_valid(saved) {
            assert(saved_entries_valid(rest)) by {
                assert forall|j: int| 0 <= j < rest.len() implies (#[trigger] action_from_name(
                    rest[j].0,
                )) is Some by {
                    assert(action_from_name(saved[j].0) is Some);
                }
                assert forall|i: int, j: int| 0 <= i < j < rest.len() implies #[trigger] action_from_name(
                    rest[i].0,
                ) != #[trigger] action_from_name(rest[j].0) by {
                    assert(action_from_name(saved[i].0) != action_from_name(saved[j].0));
                }
            }
        }
        if let Ok(st) = merge_fold(rest) {
            let a_opt = action_from_name(saved[n].0);
            if let Some(a) = a_opt {
                if st.1.contains(a) {
                    let j = choose|j: int| 0 <= j < st.1.len() && st.1[j] == a;
                    assert(action_from_name(saved[j].0) == action_from_name(saved[n].0));
                } else {
                    let st2 = merge_fold(saved)->Ok_0;
                    assert(st2.1 =~= st.1.push(a));
                    assert forall|j: int| 0 <= j < saved.len() implies action_from_name(saved[j].0)
                        == Some(#[trigger] st2.1[j]) by {}
                    assert forall|j: int| 0 <= j < saved.len() implies st2.0[action_index(
                        #[trigger] st2.1[j],
                    )] == saved[j].1 by {
                        if j < n {
                            lemma_action_index_injective(st.1[j], a);
                            assert(st.1[j] != a);
                        }
                    }
                    assert forall|k: int| 0 <= k < 8 && !st2.1.contains(action_at(k)) implies #[trigger] st2.0[k]
                        == default_accelerators()[k] by {
                        assert(st2.1[n] == a);
                        lemma_action_index_injective(a, a);
                        if k == action_index(a) {
                            assert(st2.1.contains(action_at(k)));
                        }
                        assert forall|j: int| 0 <= j < st.1.len() implies st.1[j] != action_at(k) by {
                            assert(st2.1[j] == st.1[j]);
                        }
                    }
                    assert forall|i: int, j: int| 0 <= i < j < saved.len() implies #[trigger] action_from_name(
                        saved[i].0,
                    ) != #[trigger] action_from_name(saved[j].0) by {
                        if j == n {
                            assert(st.1[i] != a);
                        } else {
                            assert(action_from_name(rest[i].0) != action_from_name(rest[j].0));
                        }
                    }
                    assert forall|j: int| 0 <= j < saved.len() implies (#[trigger] action_from_name(
                        saved[j].0,
                    )) is Some by {
                        if j < n {
                            assert(action_from_name(rest[j].0) is Some);
                        }
                    }
                }
            }
        }
    }
}

/// Law: saved settings are refused exactly when an entry names an unknown
/// action or two entries name the same one; otherwise every action is listed
/// in id order, with its saved accelerator where one was saved and its default
/// where none was.
pub proof fn law_merged_settings_keep_defaults(saved: Seq<(Seq<char>, Seq<char>)>)
    ensures
        merge_saved_spec(saved) is Ok <==> saved_entries_valid(saved),
        merge_saved_spec(saved) matches Ok(r) ==> {
            &&& r.len() == 8
            &&& forall|k: int| 0 <= k < 8 ==> (#[trigger] r[k]).0 == action_name(action_at(k))
            &&& forall|j: int|
                0 <= j < saved.len() ==> r[action_index(
                    (#[trigger] action_from_name(saved[j].0))->0,
                )].1 == saved[j].1
            &&& forall|k: int|
                0 <= k < 8 && (forall|j: int|
                    0 <= j < saved.len() ==> action_from_name(saved[j].0) != Some(action_at(k)))
                    ==> (#[trigger] r[k]).1 == default_accelerators()[k]
        },
{
    lemma_merge_fold_facts(saved);
    if let Ok(st) = merge_fold(saved) {
        let r = merge_saved_spec(saved)->Ok_0;
        assert forall|j: int| 0 <= j < saved.len() implies r[action_index(
            (#[trigger] action_from_name(saved[j].0))->0,
        )].1 == saved[j].1 by {
            assert(action_from_name(saved[j].0) == Some(st.1[j]));
            lemma_action_index_injective(st.1[j], st.1[j]);
        }
        assert forall|k: int| 0 <= k < 8 && (forall|j: int|
            0 <= j < saved.len() ==> action_from_name(saved[j].0) != Some(action_at(k))) implies (
        #[trigger] r[k]).1 == default_accelerators()[k] by {
            if st.1.contains(action_at(k)) {
                let j = choose|j: int| 0 <= j < st.1.len() && st.1[j] == action_at(k);
                assert(action_from_name(saved[j].0) == Some(st.1[j]));
            }
        }
    }
}

// ---------------------------------------------------------------------------
// Saved shortcuts read back as written
// ---------------------------------------------------------------------------

proof fn lemma_split_state_plain(s: Seq<char>, t: Seq<char>, sep: char)
    requires
        !t.contains(sep),
    ensures
        split_state(s + t, sep) == (split_state(s, sep).0, split_state(s, sep).1 + t),
    decreases t.len(),
{
    if t.len() == 0 {
        assert(s + t =~= s);
        assert(split_state(s, sep).1 + t =~= split_state(s, sep).1);
    } else {
        let t0 = t.drop_last();
        assert(!t0.contains(sep)) by {
            if t0.contains(sep) {
                let i = choose|i: int| 0 <= i < t0.len() && t0[i] == sep;
                assert(t[i] == sep);
            }
        }
        lemma_split_state_plain(s, t0, sep);
        assert((s + t).drop_last() =~= s + t0);
        assert((s + t).last() == t.last());
        assert(t.last() != sep) by {
            if t.last() == sep {
                assert(t[t.len() - 1] == sep);
            }
        }
        assert((split_state(s, sep).1 + t0).push(t.last()) =~= split_state(s, sep).1 + t);
    }
}

/// Splitting the parts joined by a separator that none of them holds gives
/// the parts back.
proof fn lemma_split_join(parts: Seq<Seq<char>>, sep: char)
    requires
        parts.len() >= 1,
        forall|i: int| 0 <= i < parts.len() ==> !(#[trigger] parts[i]).contains(sep),
    ensures
        split_on(join_with(parts, seq![sep]), sep) == parts,
    decreases parts.len(),
{
    let e = Seq::<char>::empty();
    if parts.len() == 1 {
        lemma_split_state_plain(e, parts[0], sep);
        assert(e + parts[0] =~= parts[0]);
        assert(e + parts[0] =~= parts[0]);
        assert(split_state(e, sep) == (Seq::<Seq<char>>::empty(), e));
        assert(split_on(join_with(parts, seq![sep]), sep) =~= parts);
    } else {
        let prefix = parts.drop_last();
        assert forall|i: int| 0 <= i < prefix.len() implies !(#[trigger] prefix[i]).contains(sep) by {
            assert(prefix[i] == parts[i]);
        }
        lemma_split_join(prefix, sep);
        let j = join_with(prefix, seq![sep]);
        let with_sep = j + seq![sep];
        assert(with_sep.drop_last() =~= j);
        assert(with_sep.last() == sep);
        assert(!parts.last().contains(sep)) by {
            assert(parts[parts.len() - 1] == parts.last());
        }
        lemma_split_state_plain(with_sep, parts.last(), sep);
        assert(join_with(parts, seq![sep]) =~= with_sep + parts.last());
        assert(split_state(with_sep, sep) == (split_on(j, sep), e));
        assert(e + parts.last() =~= parts.last());
        assert(split_on(join_with(parts, seq![sep]), sep) =~= prefix.push(parts.last()));
        assert(prefix.push(parts.last()) =~= parts);
    }
}

/// No piece of a split holds the separator.
proof fn lemma_split_parts_plain(s: Seq<char>, sep: char)
    ensures
        forall|i: int| 0 <= i < split_state(s, sep).0.len() ==> !(#[trigger] split_state(s, sep).0[i]).contains(sep),
        !split_state(s, sep).1.contains(sep),
        forall|i: int| 0 <= i < split_on(s, sep).len() ==> !(#[trigger] split_on(s, sep)[i]).contains(sep),
    decreases s.len(),
{
    if s.len() > 0 {
        lemma_split_parts_plain(s.drop_last(), sep);
        let (done, cur) = split_state(s.drop_last(), sep);
        if s.last() != sep {
            assert(!cur.push(s.last()).contains(sep)) by {
                if cur.push(s.last()).contains(sep) {
                    let i = choose|i: int| 0 <= i < cur.push(s.last()).len() && cur.push(s.last())[i] == sep;
                    if i < cur.len() {
                        assert(cur[i] == sep);
                    }
                }
            }
        } else {
            assert(!Seq::<char>::empty().contains(sep));
        }
    } else {
        assert(!Seq::<char>::empty().contains(sep));
    }
    let (done, cur) = split_state(s, sep);
    assert forall|i: int| 0 <= i < split_on(s, sep).len() implies !(#[trigger] split_on(s, sep)[i]).contains(sep) by {
        if i < done.len() {
            assert(split_on(s, sep)[i] == done[i]);
        }
    }
}

/// Visible ASCII text is left alone by trimming.
proof fn lemma_visible_trim(w: Seq<char>)
    requires
        w.len() > 0 ==> ('!' <= w[0] && w[0] <= '~' && '!' <= w.last() && w.last() <= '~'),
    ensures
        trim(w) == w,
{
    crate::text::lemma_trim_noop(w, crate::text::CharClass::Whitespace);
}

/// A modifier's display name reads back as the same modifier.
proof fn lemma_modifier_name(lower: Seq<char>)
    requires
        modifier_of(lower) is Some,
    ensures
        ({
            let (flag, name) = modifier_of(lower)->0;
            &&& trim(name) == name
            &&& name.len() > 0
            &&& !name.contains('+')
            &&& modifier_of(ascii_lower_seq(name)) == Some((flag, name))
        }),
{
    reveal_strlit("ARROWDOWN");
    reveal_strlit("ARROWLEFT");
    reveal_strlit("ARROWRIGHT");
    reveal_strlit("ARROWUP");
    reveal_strlit("Alt");
    reveal_strlit("BACKSLASH");
    reveal_strlit("Ctrl");
    reveal_strlit("DOWN");
    reveal_strlit("ENTER");
    reveal_strlit("ESC");
    reveal_strlit("ESCAPE");
    reveal_strlit("LEFT");
    reveal_strlit("RIGHT");
    reveal_strlit("SPACE");
    reveal_strlit("Shift");
    reveal_strlit("TAB");
    reveal_strlit("UP");
    reveal_strlit("Win");
    reveal_strlit("\\");
    reveal_strlit("alt");
    reveal_strlit("control");
    reveal_strlit("ctrl");
    reveal_strlit("meta");
    reveal_strlit("shift");
    reveal_strlit("win");
    reveal_strlit("windows");
    let (flag, name) = modifier_of(lower)->0;
    lemma_visible_trim(name);
    if name == "Ctrl"@ {
        assert(ascii_lower_seq(name) =~= "ctrl"@);

    } else if name == "Alt"@ {
        assert(ascii_lower_seq(name) =~= "alt"@);

    } else if name == "Shift"@ {
        assert(ascii_lower_seq(name) =~= "shift"@);

    } else {
        assert(ascii_lower_seq(name) =~= "win"@);
        assert("win"@[0] != "alt"@[0]);
    }
    assert(!name.contains('+')) by {
        if name.contains('+') {
            let i = choose|i: int| 0 <= i < name.len() && name[i] == '+';
        }
    }
}

proof fn lemma_named_key_enter()
    ensures
        trim("Enter"@) == "Enter"@,
        "Enter"@.len() > 0,
        !"Enter"@.contains('+'),
        modifier_of(ascii_lower_seq("Enter"@)) is None,
        parse_virtual_key_spec("Enter"@) == Some((0x0Du32, "Enter"@)),
{
    reveal_strlit("ARROWDOWN");
    reveal_strlit("ARROWLEFT");
    reveal_strlit("ARROWRIGHT");
    reveal_strlit("ARROWUP");
    reveal_strlit("Alt");
    reveal_strlit("BACKSLASH");
    reveal_strlit("Ctrl");
    reveal_strlit("DOWN");
    reveal_strlit("ENTER");
    reveal_strlit("ESC");
    reveal_strlit("ESCAPE");
    reveal_strlit("Enter");
    reveal_strlit("LEFT");
    reveal_strlit("RIGHT");
    reveal_strlit("SPACE");
    reveal_strlit("Shift");
    reveal_strlit("TAB");
    reveal_strlit("UP");
    reveal_strlit("Win");
    reveal_strlit("\\");
    reveal_strlit("alt");
    reveal_strlit("control");
    reveal_strlit("ctrl");
    reveal_strlit("enter");
    reveal_strlit("meta");
    reveal_strlit("shift");
    reveal_strlit("win");
    reveal_strlit("windows");
    lemma_visible_trim("Enter"@);
    assert(ascii_upper_seq("Enter"@) =~= "ENTER"@);
    assert(ascii_lower_seq("Enter"@) =~= "enter"@);
    assert("enter"@[0] != "shift"@[0]);
    assert(!"Enter"@.contains('+')) by {
        if "Enter"@.contains('+') {
            let i = choose|i: int| 0 <= i < "Enter"@.len() && "Enter"@[i] == '+';
        }
    }
}

proof fn lemma_named_key_space()
    ensures
        trim("Space"@) == "Space"@,
        "Space"@.len() > 0,
        !"Space"@.contains('+'),
        modifier_of(ascii_lower_seq("Space"@)) is None,
        parse_virtual_key_spec("Space"@) == Some((0x20u32, "Space"@)),
{
    reveal_strlit("ARROWDOWN");
    reveal_strlit("ARROWLEFT");
    reveal_strlit("ARROWRIGHT");
    reveal_strlit("ARROWUP");
    reveal_strlit("Alt");
    reveal_strlit("BACKSLASH");
    reveal_strlit("Ctrl");
    reveal_strlit("DOWN");
    reveal_strlit("ENTER");
    reveal_strlit("ESC");
    reveal_strlit("ESCAPE");
    reveal_strlit("LEFT");
    reveal_strlit("RIGHT");
    reveal_strlit("SPACE");
    reveal_strlit("Shift");
    reveal_strlit("Space");
    reveal_strlit("TAB");
    reveal_strlit("UP");
    reveal_strlit("Win");
    reveal_strlit("\\");
    reveal_strlit("alt");
    reveal_strlit("control");
    reveal_strlit("ctrl");
    reveal_strlit("meta");
    reveal_strlit("shift");
    reveal_strlit("space");
    reveal_strlit("win");
    reveal_strlit("windows");
    lemma_visible_trim("Space"@);
    assert(ascii_upper_seq("Space"@) =~= "SPACE"@);
    assert(ascii_lower_seq("Space"@) =~= "space"@);
    assert("space"@[1] != "shift"@[1]);
    assert(!"Space"@.contains('+')) by {
        if "Space"@.contains('+') {
            let i = choose|i: int| 0 <= i < "Space"@.len() && "Space"@[i] == '+';
        }
    }
}

proof fn lemma_named_key_tab()
    ensures
        trim("Tab"@) == "Tab"@,
        "Tab"@.len() > 0,
        !"Tab"@.contains('+'),
        modifier_of(ascii_lower_seq("Tab"@)) is None,
        parse_virtual_key_spec("Tab"@) == Some((0x09u32, "Tab"@)),
{
    reveal_strlit("ARROWDOWN");
    reveal_strlit("ARROWLEFT");
    reveal_strlit("ARROWRIGHT");
    reveal_strlit("ARROWUP");
    reveal_strlit("Alt");
    reveal_strlit("BACKSLASH");
    reveal_strlit("Ctrl");
    reveal_strlit("DOWN");
    reveal_strlit("ENTER");
    reveal_strlit("ESC");
    reveal_strlit("ESCAPE");
    reveal_strlit("LEFT");
    reveal_strlit("RIGHT");
    reveal_strlit("SPACE");
    reveal_strlit("Shift");
    reveal_strlit("TAB");
    reveal_strlit("Tab");
    reveal_strlit("UP");
    reveal_strlit("Win");
    reveal_strlit("\\");
    reveal_strlit("alt");
    reveal_strlit("control");
    reveal_strlit("ctrl");
    reveal_strlit("meta");
    reveal_strlit("shift");
    reveal_strlit("tab");
    reveal_strlit("win");
    reveal_strlit("windows");
    lemma_visible_trim("Tab"@);
    assert(ascii_upper_seq("Tab"@) =~= "TAB"@);
    assert(ascii_lower_seq("Tab"@) =~= "tab"@);
    assert("tab"@[0] != "alt"@[0]);
    assert("tab"@[0] != "win"@[0]);
    assert(!"Tab"@.contains('+')) by {
        if "Tab"@.contains('+') {
            let i = choose|i: int| 0 <= i < "Tab"@.len() && "Tab"@[i] == '+';
        }
    }
}

proof fn lemma_named_key_esc()
    ensures
        trim("Esc"@) == "Esc"@,
        "Esc"@.len() > 0,
        !"Esc"@.contains('+'),
        modifier_of(ascii_lower_seq("Esc"@)) is None,
        parse_virtual_key_spec("Esc"@) == Some((0x1Bu32, "Esc"@)),
{
    reveal_strlit("ARROWDOWN");
    reveal_strlit("ARROWLEFT");
    reveal_strlit("ARROWRIGHT");
    reveal_strlit("ARROWUP");
    reveal_strlit("Alt");
    reveal_strlit("BACKSLASH");
    reveal_strlit("Ctrl");
    reveal_strlit("DOWN");
    reveal_strlit("ENTER");
    reveal_strlit("ESC");
    reveal_strlit("ESCAPE");
    reveal_strlit("Esc");
    reveal_strlit("LEFT");
    reveal_strlit("RIGHT");
    reveal_strlit("SPACE");
    reveal_strlit("Shift");
    reveal_strlit("TAB");
    reveal_strlit("UP");
    reveal_strlit("Win");
    reveal_strlit("\\");
    reveal_strlit("alt");
    reveal_strlit("control");
    reveal_strlit("ctrl");
    reveal_strlit("esc");
    reveal_strlit("meta");
    reveal_strlit("shift");
    reveal_strlit("win");
    reveal_strlit("windows");
    lemma_visible_trim("Esc"@);
    assert(ascii_upper_seq("Esc"@) =~= "ESC"@);
    assert(ascii_lower_seq("Esc"@) =~= "esc"@);
    assert("esc"@[0] != "alt"@[0]);
    assert("esc"@[0] != "win"@[0]);
    assert(!"Esc"@.contains('+')) by {
        if "Esc"@.contains('+') {
            let i = choose|i: int| 0 <= i < "Esc"@.len() && "Esc"@[i] == '+';
        }
    }
}

proof fn lemma_named_key_up()
    ensures
        trim("Up"@) == "Up"@,
        "Up"@.len() > 0,
        !"Up"@.contains('+'),
        modifier_of(ascii_lower_seq("Up"@)) is None,
        parse_virtual_key_spec("Up"@) == Some((0x26u32, "Up"@)),
{
    reveal_strlit("ARROWDOWN");
    reveal_strlit("ARROWLEFT");
    reveal_strlit("ARROWRIGHT");
    reveal_strlit("ARROWUP");
    reveal_strlit("Alt");
    reveal_strlit("BACKSLASH");
    reveal_strlit("Ctrl");
    reveal_strlit("DOWN");
    reveal_strlit("ENTER");
    reveal_strlit("ESC");
    reveal_strlit("ESCAPE");
    reveal_strlit("LEFT");
    reveal_strlit("RIGHT");
    reveal_strlit("SPACE");
    reveal_strlit("Shift");
    reveal_strlit("TAB");
    reveal_strlit("UP");
    reveal_strlit("Up");
    reveal_strlit("Win");
    reveal_strlit("\\");
    reveal_strlit("alt");
    reveal_strlit("control");
    reveal_strlit("ctrl");
    reveal_strlit("meta");
    reveal_strlit("shift");
    reveal_strlit("up");
    reveal_strlit("win");
    reveal_strlit("windows");
    lemma_visible_trim("Up"@);
    assert(ascii_upper_seq("Up"@) =~= "UP"@);
    assert(ascii_lower_seq("Up"@) =~= "up"@);
    assert(!"Up"@.contains('+')) by {
        if "Up"@.contains('+') {
            let i = choose|i: int| 0 <= i < "Up"@.len() && "Up"@[i] == '+';
        }
    }
}

proof fn lemma_named_key_down()
    ensures
        trim("Down"@) == "Down"@,
        "Down"@.len() > 0,
        !"Down"@.contains('+'),
        modifier_of(ascii_lower_seq("Down"@)) is None,
        parse_virtual_key_spec("Down"@) == Some((0x28u32, "Down"@)),
{
    reveal_strlit("ARROWDOWN");
    reveal_strlit("ARROWLEFT");
    reveal_strlit("ARROWRIGHT");
    reveal_strlit("ARROWUP");
    reveal_strlit("Alt");
    reveal_strlit("BACKSLASH");
    reveal_strlit("Ctrl");
    reveal_strlit("DOWN");
    reveal_strlit("Down");
    reveal_strlit("ENTER");
    reveal_strlit("ESC");
    reveal_strlit("ESCAPE");
    reveal_strlit("LEFT");
    reveal_strlit("RIGHT");
    reveal_strlit("SPACE");
    reveal_strlit("Shift");
    reveal_strlit("TAB");
    reveal_strlit("UP");
    reveal_strlit("Win");
    reveal_strlit("\\");
    reveal_strlit("alt");
    reveal_strlit("control");
    reveal_strlit("ctrl");
    reveal_strlit("down");
    reveal_strlit("meta");
    reveal_strlit("shift");
    reveal_strlit("win");
    reveal_strlit("windows");
    lemma_visible_trim("Down"@);
    assert(ascii_upper_seq("Down"@) =~= "DOWN"@);
    assert(ascii_lower_seq("Down"@) =~= "down"@);
    assert("down"@[0] != "ctrl"@[0]);
    assert("down"@[0] != "meta"@[0]);
    assert(!"Down"@.contains('+')) by {
        if "Down"@.contains('+') {
            let i = choose|i: int| 0 <= i < "Down"@.len() && "Down"@[i] == '+';
        }
    }
}

proof fn lemma_named_key_right()
    ensures
        trim("Right"@) == "Right"@,
        "Right"@.len() > 0,
        !"Right"@.contains('+'),
        modifier_of(ascii_lower_seq("Right"@)) is None,
        parse_virtual_key_spec("Right"@) == Some((0x27u32, "Right"@)),
{
    reveal_strlit("ARROWDOWN");
    reveal_strlit("ARROWLEFT");
    reveal_strlit("ARROWRIGHT");
    reveal_strlit("ARROWUP");
    reveal_strlit("Alt");
    reveal_strlit("BACKSLASH");
    reveal_strlit("Ctrl");
    reveal_strlit("DOWN");
    reveal_strlit("ENTER");
    reveal_strlit("ESC");
    reveal_strlit("ESCAPE");
    reveal_strlit("LEFT");
    reveal_strlit("RIGHT");
    reveal_strlit("Right");
    reveal_strlit("SPACE");
    reveal_strlit("Shift");
    reveal_strlit("TAB");
    reveal_strlit("UP");
    reveal_strlit("Win");
    reveal_strlit("\\");
    reveal_strlit("alt");
    reveal_strlit("control");
    reveal_strlit("ctrl");
    reveal_strlit("meta");
    reveal_strlit("right");
    reveal_strlit("shift");
    reveal_strlit("win");
    reveal_strlit("windows");
    lemma_visible_trim("Right"@);
    assert(ascii_upper_seq("Right"@) =~= "RIGHT"@);
    assert(ascii_lower_seq("Right"@) =~= "right"@);
    assert("right"@[0] != "shift"@[0]);
    assert(!"Right"@.contains('+')) by {
        if "Right"@.contains('+') {
            let i = choose|i: int| 0 <= i < "Right"@.len() && "Right"@[i] == '+';
        }
    }
}

proof fn lemma_named_key_left()
    ensures
        trim("Left"@) == "Left"@,
        "Left"@.len() > 0,
        !"Left"@.contains('+'),
        modifier_of(ascii_lower_seq("Left"@)) is None,
        parse_virtual_key_spec("Left"@) == Some((0x25u32, "Left"@)),
{
    reveal_strlit("ARROWDOWN");
    reveal_strlit("ARROWLEFT");
    reveal_strlit("ARROWRIGHT");
    reveal_strlit("ARROWUP");
    reveal_strlit("Alt");
    reveal_strlit("BACKSLASH");
    reveal_strlit("Ctrl");
    reveal_strlit("DOWN");
    reveal_strlit("ENTER");
    reveal_strlit("ESC");
    reveal_strlit("ESCAPE");
    reveal_strlit("LEFT");
    reveal_strlit("Left");
    reveal_strlit("RIGHT");
    reveal_strlit("SPACE");
    reveal_strlit("Shift");
    reveal_strlit("TAB");
    reveal_strlit("UP");
    reveal_strlit("Win");
    reveal_strlit("\\");
    reveal_strlit("alt");
    reveal_strlit("control");
    reveal_strlit("ctrl");
    reveal_strlit("left");
    reveal_strlit("meta");
    reveal_strlit("shift");
    reveal_strlit("win");
    reveal_strlit("windows");
    lemma_visible_trim("Left"@);
    assert(ascii_upper_seq("Left"@) =~= "LEFT"@);
    assert(ascii_lower_seq("Left"@) =~= "left"@);
    assert("left"@[0] != "ctrl"@[0]);
    assert("left"@[0] != "meta"@[0]);
    assert(!"Left"@.contains('+')) by {
        if "Left"@.contains('+') {
            let i = choose|i: int| 0 <= i < "Left"@.len() && "Left"@[i] == '+';
        }
    }
}

proof fn lemma_named_key_backslash()
    ensures
        trim("\\"@) == "\\"@,
        "\\"@.len() > 0,
        !"\\"@.contains('+'),
        modifier_of(ascii_lower_seq("\\"@)) is None,
        parse_virtual_key_spec("\\"@) == Some((0xDCu32, "\\"@)),
{
    reveal_strlit("ARROWDOWN");
    reveal_strlit("ARROWLEFT");
    reveal_strlit("ARROWRIGHT");
    reveal_strlit("ARROWUP");
    reveal_strlit("Alt");
    reveal_strlit("BACKSLASH");
    reveal_strlit("Ctrl");
    reveal_strlit("DOWN");
    reveal_strlit("ENTER");
    reveal_strlit("ESC");
    reveal_strlit("ESCAPE");
    reveal_strlit("LEFT");
    reveal_strlit("RIGHT");
    reveal_strlit("SPACE");
    reveal_strlit("Shift");
    reveal_strlit("TAB");
    reveal_strlit("UP");
    reveal_strlit("Win");
    reveal_strlit("\\");
    reveal_strlit("alt");
    reveal_strlit("control");
    reveal_strlit("ctrl");
    reveal_strlit("meta");
    reveal_strlit("shift");
    reveal_strlit("win");
    reveal_strlit("windows");
    lemma_visible_trim("\\"@);
    assert(ascii_upper_seq("\\"@) =~= "\\"@);
    assert(ascii_lower_seq("\\"@) =~= "\\"@);
    assert(!"\\"@.contains('+')) by {
        if "\\"@.contains('+') {
            let i = choose|i: int| 0 <= i < "\\"@.len() && "\\"@[i] == '+';
        }
    }
}

proof fn lemma_digit_value(k: nat)
    requires
        k < 10,
    ensures
        ((crate::decimal::digit_char(k) as int) - ('0' as int)) as nat == k,
        is_ascii_digit(crate::decimal::digit_char(k)),
{
}

proof fn lemma_decimal_digits(n: nat)
    ensures
        decimal(n).len() > 0,
        all_ascii_digits(decimal(n)),
        digits_value(decimal(n)) == n,
    decreases n,
{
    if n < 10 {
        lemma_digit_value(n);
        assert(decimal(n).drop_last() =~= Seq::<char>::empty());
        assert(decimal(n).last() == crate::decimal::digit_char(n));
        assert(digits_value(Seq::<char>::empty()) == 0);
    } else {
        lemma_decimal_digits(n / 10);
        lemma_digit_value(n % 10);
        let d = decimal(n / 10);
        assert(decimal(n).drop_last() =~= d);
        assert(n == (n / 10) * 10 + n % 10) by (nonlinear_arith);
        assert(decimal(n).last() == crate::decimal::digit_char(n % 10));
        assert(digits_value(d) == n / 10);
        assert(digits_value(decimal(n)) == digits_value(d) * 10 + ((crate::decimal::digit_char(
            n % 10,
        ) as int) - ('0' as int)) as nat);
        assert forall|i: int| 0 <= i < decimal(n).len() implies is_ascii_digit(#[trigger] decimal(n)[i]) by {
            if i < d.len() {
                assert(decimal(n)[i] == d[i]);
            }
        }
    }
}

/// A number's decimal text parses back to the number.
proof fn lemma_decimal_parses(n: nat)
    requires
        n <= u32::MAX,
    ensures
        parse_u32_spec(decimal(n)) == Some(n),
{
    lemma_decimal_digits(n);
    assert(is_ascii_digit(decimal(n)[0]));
}

/// The normalized name of a key reads back as the same key, and is neither
/// blank, padded, split by `+`, nor a modifier.
proof fn lemma_key_name(part: Seq<char>)
    requires
        parse_virtual_key_spec(part) is Some,
    ensures
        ({
            let (vk, name) = parse_virtual_key_spec(part)->0;
            &&& trim(name) == name
            &&& name.len() > 0
            &&& !name.contains('+')
            &&& modifier_of(ascii_lower_seq(name)) is None
            &&& parse_virtual_key_spec(name) == Some((vk, name))
        }),
{
    reveal_strlit("ctrl");
    reveal_strlit("control");
    reveal_strlit("alt");
    reveal_strlit("shift");
    reveal_strlit("win");
    reveal_strlit("windows");
    reveal_strlit("meta");
    let upper = ascii_upper_seq(trim(part));
    let (vk, name) = parse_virtual_key_spec(part)->0;
    if upper.len() == 1 && is_ascii_alnum(upper[0]) {
        assert(name == upper);
        lemma_visible_trim(name);
        assert(ascii_upper_seq(name) =~= name);
        assert(ascii_lower_seq(name).len() == 1);
        assert(!name.contains('+')) by {
            if name.contains('+') {
                let i = choose|i: int| 0 <= i < name.len() && name[i] == '+';
            }
        }
    } else if function_key_number(upper) is Some {
        let n = function_key_number(upper)->0;
        reveal_strlit("F");
        lemma_decimal_digits(n);
        lemma_decimal_parses(n);
        let d = decimal(n);
        assert(name == "F"@ + d);
        assert(name[0] == 'F');
        assert(name.last() == d.last());
        assert(is_ascii_digit(d[d.len() - 1]));
        lemma_visible_trim(name);
        assert forall|i: int| 0 <= i < name.len() implies #[trigger] name[i] == 'F'
            || is_ascii_digit(name[i]) by {
            if i > 0 {
                assert(name[i] == d[i - 1]);
            }
        }
        assert(ascii_upper_seq(name) =~= name);
        assert(name.skip(1) =~= d);
        assert(ascii_lower_seq(name)[0] == 'f');
        assert(!name.contains('+')) by {
            if name.contains('+') {
                let i = choose|i: int| 0 <= i < name.len() && name[i] == '+';
                assert(name[i] == 'F' || is_ascii_digit(name[i]));
            }
        }
    } else if upper == "ENTER"@ {
        lemma_named_key_enter();
    } else if upper == "SPACE"@ {
        lemma_named_key_space();
    } else if upper == "TAB"@ {
        lemma_named_key_tab();
    } else if upper == "ESC"@ || upper == "ESCAPE"@ {
        lemma_named_key_esc();
    } else if upper == "UP"@ || upper == "ARROWUP"@ {
        lemma_named_key_up();
    } else if upper == "DOWN"@ || upper == "ARROWDOWN"@ {
        lemma_named_key_down();
    } else if upper == "RIGHT"@ || upper == "ARROWRIGHT"@ {
        lemma_named_key_right();
    } else if upper == "LEFT"@ || upper == "ARROWLEFT"@ {
        lemma_named_key_left();
    } else {
        lemma_named_key_backslash();
    }
}

/// Reading the normalized parts of an accelerator again gives the same
/// reading, part by part.
proof fn lemma_accel_refold(ps: Seq<Seq<char>>, value: Seq<char>, text: Seq<char>, j: int)
    requires
        0 <= j <= ps.len(),
        accel_fold(ps.take(j), value) is Ok,
    ensures
        ({
            let st = accel_fold(ps.take(j), value)->Ok_0;
            &&& accel_fold(st.parts, text) == Ok::<AccelView, Seq<char>>(st)
            &&& forall|i: int|
                0 <= i < st.parts.len() ==> !(#[trigger] st.parts[i]).contains('+')
            &&& st.key is Some ==> st.parts.len() > 0
        }),
    decreases j,
{
    if j == 0 {
        assert(ps.take(0) =~= Seq::<Seq<char>>::empty());
    } else {
        let prev = ps.take(j - 1);
        assert(ps.take(j).drop_last() =~= prev);
        assert(ps.take(j).last() == ps[j - 1]);
        lemma_accel_refold(ps, value, text, j - 1);
        let st0 = accel_fold(prev, value)->Ok_0;
        let st = accel_fold(ps.take(j), value)->Ok_0;
        let part = trim(ps[j - 1]);
        if part.len() > 0 {
            match modifier_of(ascii_lower_seq(part)) {
                Some((flag, name)) => {
                    lemma_modifier_name(ascii_lower_seq(part));
                    assert(st.parts.drop_last() =~= st0.parts);
                    assert(st.parts.last() == name);
                    assert forall|i: int| 0 <= i < st.parts.len() implies !(
                    #[trigger] st.parts[i]).contains('+') by {
                        if i < st0.parts.len() {
                            assert(st.parts[i] == st0.parts[i]);
                        }
                    }
                },
                None => {
                    lemma_key_name(part);
                    let (_, name) = parse_virtual_key_spec(part)->0;
                    assert(st.parts.drop_last() =~= st0.parts);
                    assert(st.parts.last() == name);
                    assert forall|i: int| 0 <= i < st.parts.len() implies !(
                    #[trigger] st.parts[i]).contains('+') by {
                        if i < st0.parts.len() {
                            assert(st.parts[i] == st0.parts[i]);
                        }
                    }
                },
            }
        }
    }
}

proof fn lemma_key_literals()
    ensures
        "ARROWUP"@.len() == 7 && "ARROWDOWN"@.len() == 9 && "ARROWRIGHT"@.len() == 10
            && "ARROWLEFT"@.len() == 9,
        "ENTER"@.len() == 5 && "SPACE"@.len() == 5 && "TAB"@.len() == 3 && "ESC"@.len() == 3
            && "ESCAPE"@.len() == 6,
        "UP"@.len() == 2 && "DOWN"@.len() == 4 && "RIGHT"@.len() == 5 && "LEFT"@.len() == 4,
        "ARROWUP"@[0] == 'A' && "ARROWDOWN"@[0] == 'A' && "ARROWRIGHT"@[0] == 'A'
            && "ARROWLEFT"@[0] == 'A',
        "ARROWLEFT"@[5] == 'L' && "ARROWDOWN"@[5] == 'D',
        "ARROWLEFT"@ != "ARROWDOWN"@,
{
    reveal_strlit("ARROWUP");
    reveal_strlit("ARROWDOWN");
    reveal_strlit("ARROWRIGHT");
    reveal_strlit("ARROWLEFT");
    reveal_strlit("ENTER");
    reveal_strlit("SPACE");
    reveal_strlit("TAB");
    reveal_strlit("ESC");
    reveal_strlit("ESCAPE");
    reveal_strlit("UP");
    reveal_strlit("DOWN");
    reveal_strlit("RIGHT");
    reveal_strlit("LEFT");
}

/// Law: the arrow keys' names and codes go together: whatever text was
/// parsed, the key is named "Up", "Down", "Right" or "Left" exactly when its
/// code is VK_UP (0x26), VK_DOWN (0x28), VK_RIGHT (0x27) or VK_LEFT (0x25).
pub proof fn law_arrow_names_match_codes(value: Seq<char>)
    ensures
        parse_virtual_key_spec(value) matches Some((vk, name)) ==> {
            &&& (name == "Up"@ <==> vk == 0x26)
            &&& (name == "Down"@ <==> vk == 0x28)
            &&& (name == "Right"@ <==> vk == 0x27)
            &&& (name == "Left"@ <==> vk == 0x25)
        },
{
    reveal_strlit("Up");
    reveal_strlit("Down");
    reveal_strlit("Right");
    reveal_strlit("Left");
    reveal_strlit("Enter");
    reveal_strlit("Space");
    reveal_strlit("Tab");
    reveal_strlit("Esc");
    reveal_strlit("\\");
    reveal_strlit("F");
    assert("Up"@.len() == 2 && "Up"@[0] == 'U');
    assert("Down"@.len() == 4 && "Down"@[0] == 'D');
    assert("Right"@.len() == 5 && "Right"@[0] == 'R');
    assert("Left"@.len() == 4 && "Left"@[0] == 'L');
    assert("Enter"@.len() == 5 && "Enter"@[0] == 'E');
    assert("Space"@.len() == 5 && "Space"@[0] == 'S');
    assert("Tab"@.len() == 3 && "Esc"@.len() == 3 && "\\"@.len() == 1);
    let upper = ascii_upper_seq(trim(value));
    if parse_virtual_key_spec(value) is Some {
        if upper.len() == 1 && is_ascii_alnum(upper[0]) {
            assert(parse_virtual_key_spec(value) == Some((upper[0] as u32, upper)));
        } else if function_key_number(upper) is Some {
            let n = function_key_number(upper)->0;
            let name = "F"@ + decimal(n);
            assert(name[0] == 'F');
            assert(1 <= n <= 12);
            assert(parse_virtual_key_spec(value) == Some(((0x70 + n - 1) as u32, name)));
            assert(name != "Up"@ && name != "Down"@ && name != "Right"@ && name != "Left"@);
        }
    }
}

/// Law: an arrow key may be written with or without the "Arrow" prefix, in
/// any ASCII case and with surrounding whitespace; both spellings name the
/// same key, with its Windows virtual-key code (VK_UP 0x26, VK_DOWN 0x28,
/// VK_RIGHT 0x27, VK_LEFT 0x25) and its short name.
pub proof fn law_arrow_aliases_name_the_same_key(value: Seq<char>)
    ensures
        (ascii_upper_seq(trim(value)) == "ARROWUP"@ || ascii_upper_seq(trim(value)) == "UP"@)
            ==> parse_virtual_key_spec(value) == parse_virtual_key_spec("Up"@)
            && parse_virtual_key_spec("Up"@) == Some((0x26u32, "Up"@)),
        (ascii_upper_seq(trim(value)) == "ARROWDOWN"@ || ascii_upper_seq(trim(value)) == "DOWN"@)
            ==> parse_virtual_key_spec(value) == parse_virtual_key_spec("Down"@)
            && parse_virtual_key_spec("Down"@) == Some((0x28u32, "Down"@)),
        (ascii_upper_seq(trim(value)) == "ARROWRIGHT"@ || ascii_upper_seq(trim(value)) == "RIGHT"@)
            ==> parse_virtual_key_spec(value) == parse_virtual_key_spec("Right"@)
            && parse_virtual_key_spec("Right"@) == Some((0x27u32, "Right"@)),
        (ascii_upper_seq(trim(value)) == "ARROWLEFT"@ || ascii_upper_seq(trim(value)) == "LEFT"@)
            ==> parse_virtual_key_spec(value) == parse_virtual_key_spec("Left"@)
            && parse_virtual_key_spec("Left"@) == Some((0x25u32, "Left"@)),
{
    lemma_key_literals();
    lemma_named_key_up();
    lemma_named_key_down();
    lemma_named_key_right();
    lemma_named_key_left();
    reveal_strlit("UP");
    reveal_strlit("DOWN");
    reveal_strlit("RIGHT");
    reveal_strlit("LEFT");
    reveal_strlit("ENTER");
    reveal_strlit("SPACE");
    reveal_strlit("TAB");
    reveal_strlit("ESC");
    reveal_strlit("ESCAPE");
}

/// Law: an accelerator's normalized text reads back as the same shortcut
/// with the same text.
pub proof fn law_normalized_accelerator_reads_back(value: Seq<char>)
    ensures
        parse_accelerator_spec(value) matches Ok((modifiers, vk, text)) ==> parse_accelerator_spec(
            text,
        ) == Ok::<(u32, u32, Seq<char>), Seq<char>>((modifiers, vk, text)),
{
    let ps = split_on(value, '+');
    if let Ok((modifiers, vk, text)) = parse_accelerator_spec(value) {
        assert(ps.take(ps.len() as int) =~= ps);
        lemma_accel_refold(ps, value, text, ps.len() as int);
        let st = accel_fold(ps, value)->Ok_0;
        reveal_strlit("+");
        assert("+"@ =~= seq!['+']);
        lemma_split_join(st.parts, '+');
    }
}

proof fn lemma_find_first(bs: Seq<BindingView>, a: HotkeyAction, k: int, j: int)
    requires
        0 <= j <= k < bs.len(),
        bs[k].action == a,
        forall|i: int| 0 <= i < k ==> bs[i].action != a,
    ensures
        find_action_from(bs, a, j) == Some(k),
    decreases k - j,
{
    if j < k {
        lemma_find_first(bs, a, k, j + 1);
    }
}

/// Law: the settings saved for accepted shortcuts load back to the same
/// shortcuts, so shortcut changes survive a restart.
pub proof fn law_saved_shortcuts_load_back(reqs: Seq<(Seq<char>, Seq<char>)>)
    ensures
        bindings_from_request_spec(reqs) matches Ok(bs) ==> (merge_saved_spec(stored_of(bs)) matches Ok(
            r,
        ) && bindings_from_request_spec(r) == Ok::<Seq<BindingView>, Seq<char>>(bs)),
{
    law_accepted_settings_are_complete(reqs);
    if let Ok(bs) = bindings_from_request_spec(reqs) {
        let saved = stored_of(bs);
        assert forall|k: int| 0 <= k < 8 implies action_from_name(#[trigger] saved[k].0) == Some(
            action_at(k),
        ) by {
            law_action_names_round_trip(action_at(k));
            assert(bs[k].action == action_at(k));
        }
        assert(saved_entries_valid(saved)) by {
            assert forall|j: int| 0 <= j < saved.len() implies (#[trigger] action_from_name(
                saved[j].0,
            )) is Some by {
                assert(action_from_name(saved[j].0) == Some(action_at(j)));
            }
            assert forall|i: int, j: int| 0 <= i < j < saved.len() implies #[trigger] action_from_name(
                saved[i].0,
            ) != #[trigger] action_from_name(saved[j].0) by {
                assert(action_from_name(saved[i].0) == Some(action_at(i)));
                assert(action_from_name(saved[j].0) == Some(action_at(j)));
            }
        }
        law_merged_settings_keep_defaults(saved);
        let r = merge_saved_spec(saved)->Ok_0;
        assert forall|k: int| 0 <= k < 8 implies #[trigger] r[k] == saved[k] by {
            assert(action_from_name(saved[k].0) == Some(action_at(k)));
            lemma_action_index_injective(action_at(k), action_at(k));
            assert(r[action_index(action_from_name(saved[k].0)->0)].1 == saved[k].1);
        }
        assert(r =~= saved);
        // reading the saved request again
        assert forall|k: int| 0 <= k < 8 implies {
            &&& (#[trigger] bs[k]).action == action_at(k)
            &&& bs[k].id == action_id(bs[k].action)
            &&& parse_accelerator_spec(bs[k].accelerator) == Ok::<(u32, u32, Seq<char>), Seq<char>>(
                (bs[k].modifiers, bs[k].vk, bs[k].accelerator),
            )
        } by {
            let j = choose|j: int|
                0 <= j < 8 && action_from_name(reqs[j].0) == Some(action_at(k))
                    && parse_accelerator_spec(reqs[j].1) == Ok::<(u32, u32, Seq<char>), Seq<char>>(
                    (bs[k].modifiers, bs[k].vk, bs[k].accelerator),
                );
            law_normalized_accelerator_reads_back(reqs[j].1);
        }
        lemma_refold_requests(bs, r, 8);
        assert(r.take(8) =~= r);
        assert(bs.take(8) =~= bs);
        assert forall|k: int| 0 <= k < 8 implies #[trigger] find_action(bs, action_at(k)) == Some(k) by {
            assert forall|i: int| 0 <= i < k implies bs[i].action != action_at(k) by {
                lemma_action_index_injective(action_at(i), action_at(k));
            }
            lemma_find_first(bs, action_at(k), k, 0);
        }
        lemma_order_upto(bs, 8);
        assert(order_by_id(bs) =~= bs);
    }
}

proof fn lemma_refold_requests(bs: Seq<BindingView>, r: Seq<(Seq<char>, Seq<char>)>, i: int)
    requires
        0 <= i <= 8,
        bs.len() == 8,
        r.len() == 8,
        forall|k: int| 0 <= k < 8 ==> #[trigger] r[k] == (action_name(bs[k].action), bs[k].accelerator),
        forall|k: int|
            0 <= k < 8 ==> {
                &&& (#[trigger] bs[k]).action == action_at(k)
                &&& bs[k].id == action_id(bs[k].action)
                &&& parse_accelerator_spec(bs[k].accelerator) == Ok::<
                    (u32, u32, Seq<char>),
                    Seq<char>,
                >((bs[k].modifiers, bs[k].vk, bs[k].accelerator))
            },
        forall|a: int, b: int|
            0 <= a < b < 8 ==> !(#[trigger] bs[a].modifiers == #[trigger] bs[b].modifiers && bs[a].vk
                == bs[b].vk),
    ensures
        request_fold(r.take(i)) == Ok::<Seq<BindingView>, Seq<char>>(bs.take(i)),
    decreases i,
{
    if i == 0 {
        assert(r.take(0) =~= Seq::<(Seq<char>, Seq<char>)>::empty());
        assert(bs.take(0) =~= Seq::<BindingView>::empty());
    } else {
        lemma_refold_requests(bs, r, i - 1);
        assert(r.take(i).drop_last() =~= r.take(i - 1));
        assert(r.take(i).last() == r[i - 1]);
        let prev = bs.take(i - 1);
        let b = bs[i - 1];
        law_action_names_round_trip(b.action);
        assert(!has_action(prev, b.action)) by {
            if has_action(prev, b.action) {
                let m = choose|m: int| 0 <= m < prev.len() && (#[trigger] prev[m]).action == b.action;
                assert(prev[m] == bs[m]);
                lemma_action_index_injective(action_at(m), action_at(i - 1));
            }
        }
        assert(!has_keys(prev, b.modifiers, b.vk)) by {
            if has_keys(prev, b.modifiers, b.vk) {
                let m = choose|m: int|
                    0 <= m < prev.len() && (#[trigger] prev[m]).modifiers == b.modifiers && prev[m].vk
                        == b.vk;
                assert(prev[m] == bs[m]);
            }
        }
        assert(prev.push(b) =~= bs.take(i));
    }
}

} // verus!
