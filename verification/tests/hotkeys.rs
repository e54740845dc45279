use caption_assistant::hotkeys::{
    apply_failure_message, apply_reply_outcome, clamped_window_axis, default_hotkeys,
    hotkey_bindings_from_request, hotkey_error_to_report, merge_saved_hotkey_settings,
    next_window_position, parse_accelerator, parse_u32, parse_virtual_key,
    registration_outcome, stored_settings_from_bindings, HotkeyAction, HotkeyBindingRequest,
    HotkeySettingsRequest, HotkeySnapshot, StoredHotkeyBinding, StoredHotkeySettings,
    WindowMoveDirection, MOD_ALT, MOD_CONTROL, MOD_SHIFT, MOD_WIN,
};

fn stored(action: &str, accelerator: &str) -> StoredHotkeyBinding {
    StoredHotkeyBinding {
        action: action.to_string(),
        accelerator: accelerator.to_string(),
    }
}

fn request_of(pairs: &[(&str, &str)]) -> HotkeySettingsRequest {
    HotkeySettingsRequest {
        bindings: pairs
            .iter()
            .map(|(action, accelerator)| HotkeyBindingRequest {
                action: action.to_string(),
                accelerator: accelerator.to_string(),
            })
            .collect(),
    }
}

fn default_pairs() -> Vec<(&'static str, &'static str)> {
    vec![
        ("shortcutMode1", "Ctrl+Enter"),
        ("shortcutMode2", "Ctrl+Shift+Enter"),
        ("shortcutMode3", "Ctrl+Shift+S"),
        ("shortcutMoveUp", "Ctrl+Up"),
        ("shortcutMoveDown", "Ctrl+Down"),
        ("shortcutMoveRight", "Ctrl+Right"),
        ("shortcutMoveLeft", "Ctrl+Left"),
        ("shortcutToggleWindow", "Ctrl+\\"),
    ]
}

#[test]
fn parses_window_shortcut_keys() {
    assert_eq!(parse_accelerator("Ctrl+Up").unwrap().1, 0x26);
    assert_eq!(parse_accelerator("Ctrl+Down").unwrap().1, 0x28);
    assert_eq!(parse_accelerator("Ctrl+Right").unwrap().1, 0x27);
    assert_eq!(parse_accelerator("Ctrl+Left").unwrap().1, 0x25);
    assert_eq!(parse_accelerator("Ctrl+\\").unwrap().1, 0xDC);
}

#[test]
fn adds_new_defaults_to_legacy_three_shortcut_settings() {
    let settings = StoredHotkeySettings {
        bindings: vec![
            stored("shortcutMode1", "Alt+1"),
            stored("shortcutMode2", "Alt+2"),
            stored("shortcutMode3", "Alt+3"),
        ],
    };

    let request = merge_saved_hotkey_settings(settings).unwrap();
    let bindings = hotkey_bindings_from_request(&request).unwrap();

    assert_eq!(bindings.len(), 8);
    assert_eq!(bindings[0].accelerator, "Alt+1");
    assert_eq!(bindings[3].accelerator, "Ctrl+Up");
    assert_eq!(bindings[7].accelerator, "Ctrl+\\");
}

#[test]
fn clamps_window_movement_to_monitor_work_area() {
    assert_eq!(clamped_window_axis(100, -50, 100, 1000, 400), 100);
    assert_eq!(clamped_window_axis(650, 50, 100, 1000, 400), 700);
    assert_eq!(clamped_window_axis(700, 50, 100, 1000, 400), 700);
    assert_eq!(clamped_window_axis(250, 50, 100, 200, 400), 100);
}

#[test]
fn accelerators_are_normalized() {
    let (modifiers, vk, text) = parse_accelerator(" control + shift + s ").unwrap();
    assert_eq!(modifiers, MOD_CONTROL | MOD_SHIFT);
    assert_eq!(vk, b'S' as u32);
    assert_eq!(text, "Ctrl+Shift+S");
    let (modifiers, vk, text) = parse_accelerator("meta+alt+f12").unwrap();
    assert_eq!(modifiers, MOD_WIN | MOD_ALT);
    assert_eq!(vk, 0x7B);
    assert_eq!(text, "Win+Alt+F12");
    assert_eq!(parse_accelerator("Ctrl++Esc").unwrap().2, "Ctrl+Esc");
    assert_eq!(parse_accelerator("ctrl+arrowleft").unwrap().1, 0x25);
}

#[test]
fn accelerator_errors_name_the_problem() {
    assert_eq!(
        parse_accelerator("Ctrl").unwrap_err(),
        "Shortcut `Ctrl` needs a key."
    );
    assert_eq!(
        parse_accelerator("A").unwrap_err(),
        "Shortcut `A` needs at least one modifier."
    );
    assert_eq!(
        parse_accelerator("Ctrl+A+B").unwrap_err(),
        "Shortcut `Ctrl+A+B` has more than one key."
    );
    assert_eq!(
        parse_accelerator("Ctrl+ PageUp").unwrap_err(),
        "Shortcut key `PageUp` is not supported."
    );
}

#[test]
fn virtual_keys_cover_letters_digits_function_keys_and_names() {
    assert_eq!(parse_virtual_key(" q "), Some((0x51, "Q".to_string())));
    assert_eq!(parse_virtual_key("7"), Some((0x37, "7".to_string())));
    assert_eq!(parse_virtual_key("f1"), Some((0x70, "F1".to_string())));
    assert_eq!(parse_virtual_key("F012"), Some((0x7B, "F12".to_string())));
    assert_eq!(parse_virtual_key("F13"), None);
    assert_eq!(parse_virtual_key("F0"), None);
    assert_eq!(parse_virtual_key("escape"), Some((0x1B, "Esc".to_string())));
    assert_eq!(parse_virtual_key("Space"), Some((0x20, "Space".to_string())));
    assert_eq!(parse_virtual_key("tab"), Some((0x09, "Tab".to_string())));
    assert_eq!(parse_virtual_key("backslash"), Some((0xDC, "\\".to_string())));
    assert_eq!(parse_virtual_key("é"), None);
    assert_eq!(parse_virtual_key("-"), None);
}

#[test]
fn u32_parsing_follows_std() {
    let digits = |s: &str| s.chars().collect::<Vec<char>>();
    assert_eq!(parse_u32(&digits("42")), Some(42));
    assert_eq!(parse_u32(&digits("+7")), Some(7));
    assert_eq!(parse_u32(&digits("4294967295")), Some(u32::MAX));
    assert_eq!(parse_u32(&digits("4294967296")), None);
    assert_eq!(parse_u32(&digits("")), None);
    assert_eq!(parse_u32(&digits("+")), None);
    assert_eq!(parse_u32(&digits("-1")), None);
    assert_eq!(parse_u32(&digits("1a")), None);
    for text in ["0", "12", "+99", "007", "99999999999"] {
        assert_eq!(parse_u32(&digits(text)), text.parse::<u32>().ok());
    }
}

#[test]
fn the_default_set_is_accepted_in_id_order() {
    let bindings = hotkey_bindings_from_request(&request_of(&default_pairs())).unwrap();
    let defaults = default_hotkeys();
    assert_eq!(bindings.len(), 8);
    for (binding, default) in bindings.iter().zip(defaults.iter()) {
        assert_eq!(binding.id, default.id);
        assert_eq!(binding.modifiers, default.modifiers);
        assert_eq!(binding.vk, default.vk);
        assert_eq!(binding.action, default.action);
        assert_eq!(binding.accelerator, default.accelerator);
    }
    let ids: Vec<i32> = bindings.iter().map(|binding| binding.id).collect();
    assert_eq!(ids, vec![101, 102, 103, 104, 105, 106, 107, 108]);
}

#[test]
fn requests_are_put_in_id_order() {
    let mut pairs = default_pairs();
    pairs.reverse();
    let bindings = hotkey_bindings_from_request(&request_of(&pairs)).unwrap();
    assert_eq!(bindings[0].action, HotkeyAction::Mode1);
    assert_eq!(bindings[7].action, HotkeyAction::ToggleWindow);
}

#[test]
fn invalid_requests_are_refused() {
    let mut pairs = default_pairs();
    pairs.pop();
    assert_eq!(
        hotkey_bindings_from_request(&request_of(&pairs)).unwrap_err(),
        "Shortcut settings must include exactly 8 shortcuts."
    );

    let mut pairs = default_pairs();
    pairs[1] = ("shortcutMode1", "Alt+1");
    assert_eq!(
        hotkey_bindings_from_request(&request_of(&pairs)).unwrap_err(),
        "Duplicate shortcut action `shortcutMode1`."
    );

    let mut pairs = default_pairs();
    pairs[1] = ("shortcutMode2", "control+enter");
    assert_eq!(
        hotkey_bindings_from_request(&request_of(&pairs)).unwrap_err(),
        "Duplicate shortcut `Ctrl+Enter`."
    );

    let mut pairs = default_pairs();
    pairs[0] = ("shortcutMode9", "Alt+1");
    assert_eq!(
        hotkey_bindings_from_request(&request_of(&pairs)).unwrap_err(),
        "Unknown shortcut action `shortcutMode9`."
    );
}

#[test]
fn saved_settings_are_checked_when_merged() {
    let unknown = StoredHotkeySettings {
        bindings: vec![stored("shortcutNope", "Alt+1")],
    };
    assert_eq!(
        merge_saved_hotkey_settings(unknown).unwrap_err(),
        "Unknown shortcut action `shortcutNope`."
    );
    let twice = StoredHotkeySettings {
        bindings: vec![stored("shortcutMode2", "Alt+1"), stored("shortcutMode2", "Alt+2")],
    };
    assert_eq!(
        merge_saved_hotkey_settings(twice).unwrap_err(),
        "Duplicate shortcut action `shortcutMode2`."
    );
}

#[test]
fn stored_settings_reload_to_the_same_bindings() {
    let mut pairs = default_pairs();
    pairs[0] = ("shortcutMode1", "alt + 1");
    let bindings = hotkey_bindings_from_request(&request_of(&pairs)).unwrap();
    let saved = stored_settings_from_bindings(&bindings);
    assert_eq!(saved.bindings[0].action, "shortcutMode1");
    assert_eq!(saved.bindings[0].accelerator, "Alt+1");
    let reloaded =
        hotkey_bindings_from_request(&merge_saved_hotkey_settings(saved).unwrap()).unwrap();
    for (a, b) in reloaded.iter().zip(bindings.iter()) {
        assert_eq!(a.accelerator, b.accelerator);
        assert_eq!(a.modifiers, b.modifiers);
        assert_eq!(a.vk, b.vk);
    }
}

#[test]
fn action_names_round_trip() {
    for binding in default_hotkeys() {
        assert_eq!(HotkeyAction::from_str(binding.action.as_str()), Some(binding.action));
        assert_eq!(binding.action.hotkey_id(), binding.id);
    }
    assert_eq!(HotkeyAction::from_str("shortcutmode1"), None);
}

#[test]
fn default_snapshot_lists_unregistered_defaults() {
    let snapshot = HotkeySnapshot::default();
    assert!(!snapshot.is_running);
    assert_eq!(snapshot.last_error, None);
    assert_eq!(snapshot.bindings.len(), 8);
    assert_eq!(snapshot.bindings[2].action, "shortcutMode3");
    assert_eq!(snapshot.bindings[2].accelerator, "Ctrl+Shift+S");
    assert!(!snapshot.bindings[2].registered);
}

#[test]
fn window_moves_by_one_step_inside_the_work_area() {
    assert_eq!(
        next_window_position(WindowMoveDirection::Right, (100, 100), (400, 300), (0, 0), (1000, 800)),
        (150, 100)
    );
    assert_eq!(
        next_window_position(WindowMoveDirection::Up, (100, 20), (400, 300), (0, 0), (1000, 800)),
        (100, 0)
    );
    assert_eq!(
        next_window_position(WindowMoveDirection::Down, (100, 480), (400, 300), (0, 0), (1000, 800)),
        (100, 500)
    );
    assert_eq!(
        next_window_position(WindowMoveDirection::Left, (-5, 10), (400, 300), (-100, 0), (1000, 800)),
        (-55, 10)
    );
}

#[test]
fn registration_answers_are_sorted_into_rows_and_errors() {
    let defaults = default_hotkeys();
    let mut failures: Vec<Option<String>> = vec![None; 8];
    failures[2] = Some("in use".to_string());
    let (registered, rows, errors) = registration_outcome(&defaults, &failures);
    assert_eq!(registered.len(), 7);
    assert_eq!(rows.len(), 8);
    assert!(rows[0].registered);
    assert!(!rows[2].registered);
    assert_eq!(
        errors,
        vec!["Ctrl+Shift+S could not be registered. The shortcut may already be in use: in use"]
    );
    assert_eq!(rows[2].error.as_deref(), Some(errors[0].as_str()));
}

#[test]
fn apply_failures_mention_the_restore() {
    let errors = vec!["a".to_string(), "b".to_string()];
    assert_eq!(apply_failure_message(&errors, &Vec::new()), "a b");
    assert_eq!(
        apply_failure_message(&errors, &vec!["c".to_string()]),
        "a b The previous shortcuts could not be fully restored: c"
    );
}

#[test]
fn listener_replies_become_command_errors() {
    assert!(apply_reply_outcome(Some(Ok(()))).is_ok());
    let timeout = apply_reply_outcome(None).unwrap_err();
    assert_eq!(timeout.code, "hotkey_apply_timeout");
    assert_eq!(timeout.message, "Timed out while applying shortcut settings.");
    let failed = apply_reply_outcome(Some(Err("x".to_string()))).unwrap_err();
    assert_eq!(failed.code, "hotkey_apply_failed");
    assert_eq!(failed.message, "x");
}

#[test]
fn cancelled_shortcut_workflows_are_not_reported() {
    assert_eq!(hotkey_error_to_report(Ok(())), None);
    assert_eq!(
        hotkey_error_to_report(Err("Automation was cancelled by browser navigation.".to_string())),
        None
    );
    assert_eq!(
        hotkey_error_to_report(Err("boom".to_string())).as_deref(),
        Some("boom")
    );
}

#[test]
fn normalized_accelerators_read_back() {
    for text in ["ctrl+shift+s", " alt + f1 ", "WIN+ALT+arrowup", "Control+Meta+\\", "ctrl+escape"] {
        let (modifiers, vk, normalized) = parse_accelerator(text).unwrap();
        assert_eq!(
            parse_accelerator(&normalized).unwrap(),
            (modifiers, vk, normalized.clone())
        );
    }
}
