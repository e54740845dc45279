use caption_assistant::caption_capture::{
    descendants_to_scan, find_caption_text, is_live_captions_window, is_probable_caption,
    is_text_like_control,
};
use caption_assistant::caption_clean::clean_caption_text;
use caption_assistant::captions::{
    apply_capture_outcome, clear_caption_collection, clear_monitor_if_matches,
    pending_caption_text, push_caption,
    take_caption_batch_from_snapshot, CaptionMonitor, CaptionSnapshot, CaptionStore,
};

#[test]
fn monitor_cleanup_only_removes_the_matching_worker() {
    let mut store = CaptionStore::new();
    let registered_worker = 1;
    let stale_worker = 2;

    store.monitor = Some(CaptionMonitor {
        worker: registered_worker,
    });

    assert!(!clear_monitor_if_matches(&mut store, stale_worker));
    assert!(store.monitor.is_some());

    assert!(clear_monitor_if_matches(&mut store, registered_worker));
    assert!(store.monitor.is_none());
}

#[test]
fn clean_caption_text_removes_duplicate_lines_and_artifacts() {
    let input = "\n  Hello   there.\n[Music]\nHello there.\nthis is still useful\n";

    assert_eq!(
        clean_caption_text(input),
        "Hello there. this is still useful"
    );
}

#[test]
fn clean_caption_text_preserves_punctuation() {
    let input = "Can you hear me?\nYes, I can!\nLet's continue.";

    assert_eq!(
        clean_caption_text(input),
        "Can you hear me? Yes, I can! Let's continue."
    );
}

#[test]
fn pending_caption_text_prefers_unsubmitted_suffix() {
    assert_eq!(
        pending_caption_text("First sentence. Second sentence.", "First sentence."),
        "Second sentence."
    );
}

#[test]
fn pending_caption_text_uses_overlap_when_live_captions_rolls_forward() {
    assert_eq!(
        pending_caption_text(
            "already submitted tail. New sentence.",
            "This was already submitted tail."
        ),
        "New sentence."
    );
}

#[test]
fn pending_caption_text_ignores_case_and_punctuation_revisions() {
    assert_eq!(
        pending_caption_text(
            "The user information is stored in the actual token. Which means it is stored on the client.",
            "the user information is stored in the actual token"
        ),
        "Which means it is stored on the client."
    );
}

#[test]
fn pending_caption_text_tolerates_a_corrected_recognition_word() {
    assert_eq!(
        pending_caption_text(
            "The user information is stored in the JSON Web Token. It has three distinct parts.",
            "The user information is stored in the Jason Web Token."
        ),
        "It has three distinct parts."
    );
}

#[test]
fn pending_caption_text_uses_a_rolling_word_level_boundary() {
    assert_eq!(
        pending_caption_text(
            "The actual token remains visible. New words arrive now.",
            "An older opening rolled away. The actual token remains visible."
        ),
        "New words arrive now."
    );
}

#[test]
fn push_caption_tracks_only_text_after_last_submit_boundary() {
    let mut snapshot = CaptionSnapshot::default();

    push_caption(&mut snapshot, "First sentence.".to_string());
    snapshot.last_submitted_caption_text = snapshot.pending_caption_text.clone();
    snapshot.last_submitted_source_text = clean_caption_text(&snapshot.latest_caption);
    snapshot.current_caption_text.clear();
    snapshot.pending_caption_text.clear();
    snapshot.latest_caption.clear();
    snapshot.caption_buffer.clear();

    push_caption(
        &mut snapshot,
        "First sentence. Second sentence.".to_string(),
    );

    assert_eq!(snapshot.current_caption_text, "Second sentence.");
    assert_eq!(snapshot.pending_caption_text, "Second sentence.");
}

#[test]
fn push_caption_keeps_text_that_rolls_out_of_the_live_captions_window() {
    let mut snapshot = CaptionSnapshot::default();

    push_caption(
        &mut snapshot,
        "First sentence. Second sentence.".to_string(),
    );
    push_caption(
        &mut snapshot,
        "Second sentence. Third sentence.".to_string(),
    );
    push_caption(
        &mut snapshot,
        "Third sentence. Fourth sentence.".to_string(),
    );

    assert_eq!(
        snapshot.pending_caption_text,
        "First sentence. Second sentence. Third sentence. Fourth sentence."
    );
    assert!(snapshot.caption_buffer.is_empty());
}

#[test]
fn push_caption_replaces_an_extended_partial_word_without_adding_a_space() {
    let mut snapshot = CaptionSnapshot::default();

    push_caption(&mut snapshot, "A partial capt".to_string());
    push_caption(&mut snapshot, "A partial caption".to_string());

    assert_eq!(snapshot.pending_caption_text, "A partial caption");
}

#[test]
fn push_caption_replaces_a_short_fragment_with_the_full_snapshot() {
    let mut snapshot = CaptionSnapshot::default();

    push_caption(
        &mut snapshot,
        "Anything which is great because the server".to_string(),
    );
    push_caption(
        &mut snapshot,
        "User information is stored in the token. Anything, which is great because the server does not remember it."
            .to_string(),
    );

    assert_eq!(
        snapshot.pending_caption_text,
        "User information is stored in the token. Anything, which is great because the server does not remember it."
    );
}

#[test]
fn push_caption_replaces_a_growing_snapshot_after_a_word_correction() {
    let mut snapshot = CaptionSnapshot::default();

    push_caption(
        &mut snapshot,
        "User information is stored in the Jason Web Token.".to_string(),
    );
    push_caption(
        &mut snapshot,
        "User information is stored in the JSON Web Token. The server remains stateless."
            .to_string(),
    );

    assert_eq!(
        snapshot.pending_caption_text,
        "User information is stored in the JSON Web Token. The server remains stateless."
    );
}

#[test]
fn push_caption_does_not_append_alternating_fragments_and_full_snapshots() {
    let mut snapshot = CaptionSnapshot::default();

    push_caption(
        &mut snapshot,
        "User information is stored in the actual token.".to_string(),
    );
    push_caption(
        &mut snapshot,
        "actual token. The server does not remember anything.".to_string(),
    );
    push_caption(
        &mut snapshot,
        "User information is stored in the actual token. The server doesn't remember anything. This works across multiple servers."
            .to_string(),
    );
    push_caption(
        &mut snapshot,
        "multiple servers. The token contains a payload.".to_string(),
    );
    push_caption(
        &mut snapshot,
        "User information is stored in the actual token. The server doesn't remember anything. This works across multiple servers. The token contains the payload. The signature verifies it."
            .to_string(),
    );

    assert_eq!(
        snapshot.pending_caption_text,
        "User information is stored in the actual token. The server doesn't remember anything. This works across multiple servers. The token contains the payload. The signature verifies it."
    );
    assert_eq!(
        snapshot
            .pending_caption_text
            .matches("User information is stored")
            .count(),
        1
    );
}

#[test]
fn taking_a_batch_starts_the_next_batch_at_the_hotkey_boundary() {
    let mut snapshot = CaptionSnapshot::default();
    push_caption(&mut snapshot, "Before hotkey.".to_string());

    assert_eq!(
        take_caption_batch_from_snapshot(&mut snapshot, false).expect("caption batch"),
        "Before hotkey."
    );
    assert!(snapshot.pending_caption_text.is_empty());

    push_caption(&mut snapshot, "Before hotkey. After hotkey.".to_string());

    assert_eq!(snapshot.pending_caption_text, "After hotkey.");
}

#[test]
fn taking_a_batch_survives_a_revised_full_snapshot_after_the_hotkey() {
    let mut snapshot = CaptionSnapshot::default();
    push_caption(
        &mut snapshot,
        "The user is identified by the Jason Web Token.".to_string(),
    );

    assert_eq!(
        take_caption_batch_from_snapshot(&mut snapshot, false).expect("caption batch"),
        "The user is identified by the Jason Web Token."
    );

    push_caption(
        &mut snapshot,
        "The user is identified by the JSON Web Token. The server stays stateless.".to_string(),
    );

    assert_eq!(snapshot.pending_caption_text, "The server stays stateless.");
}

#[test]
fn clearing_starts_a_new_batch_at_the_current_live_caption_boundary() {
    let mut snapshot = CaptionSnapshot::default();
    push_caption(&mut snapshot, "Before clear.".to_string());

    clear_caption_collection(&mut snapshot);

    assert!(snapshot.current_caption_text.is_empty());
    assert!(snapshot.pending_caption_text.is_empty());
    assert!(snapshot.latest_caption.is_empty());

    push_caption(
        &mut snapshot,
        "Before clear. Collected after clear.".to_string(),
    );

    assert_eq!(snapshot.pending_caption_text, "Collected after clear.");
}

#[test]
fn mode_2_can_take_an_empty_caption_batch_without_changing_caption_state() {
    let mut snapshot = CaptionSnapshot::default();

    assert_eq!(
        take_caption_batch_from_snapshot(&mut snapshot, true).expect("optional caption batch"),
        ""
    );
    assert_eq!(snapshot, CaptionSnapshot::default());
}

#[test]
fn window_labels_are_not_captions() {
    assert!(is_probable_caption("Hello there"));
    assert!(!is_probable_caption("Live Captions"));
    assert!(!is_probable_caption("SETTINGS"));
    assert!(!is_probable_caption("a"));
    assert!(is_probable_caption("é"));
    assert!(!is_probable_caption(""));
}

#[test]
fn the_longest_caption_of_a_text_element_is_chosen() {
    let elements = vec![
        (Some(50020), "Short".to_string()),
        (Some(50000), "A much longer button label".to_string()),
        (Some(50030), "The longest caption text".to_string()),
        (Some(50004), "Another caption of same".to_string()),
        (None, "Unreadable control type text".to_string()),
        (Some(50020), "Live captions".to_string()),
    ];
    assert_eq!(
        find_caption_text(&elements).as_deref(),
        Some("The longest caption text")
    );
    assert_eq!(find_caption_text(&vec![(Some(50020), "close".to_string())]), None);
    assert!(is_text_like_control(Some(50004)));
    assert!(!is_text_like_control(Some(50000)));
    assert!(!is_text_like_control(None));
    assert_eq!(descendants_to_scan(1200), 600);
    assert_eq!(descendants_to_scan(12), 12);
}

#[test]
fn the_same_snapshot_seen_twice_is_collected_once() {
    let mut once = CaptionSnapshot::default();
    push_caption(&mut once, "First sentence.".to_string());
    let mut twice = CaptionSnapshot::default();
    push_caption(&mut twice, "First sentence.".to_string());
    push_caption(&mut twice, "First sentence.".to_string());
    assert_eq!(once, twice);
    assert_eq!(twice.pending_caption_text, "First sentence.");
}

#[test]
fn the_live_captions_window_is_recognized_by_name_or_class() {
    assert!(is_live_captions_window("Live Captions", "Window"));
    assert!(is_live_captions_window("", "LiveCaptionsDesktopWindow"));
    assert!(is_live_captions_window("Windows Caption host", ""));
    assert!(!is_live_captions_window("Notepad", "Edit"));
}

#[test]
fn each_poll_outcome_updates_the_panel() {
    let mut snapshot = CaptionSnapshot::default();
    apply_capture_outcome(&mut snapshot, Ok(None), false);
    assert!(!snapshot.window_found);
    assert_eq!(snapshot.last_error, None);

    apply_capture_outcome(&mut snapshot, Ok(None), true);
    assert_eq!(
        snapshot.last_error.as_deref(),
        Some("Live Captions window was not found through UI Automation.")
    );

    apply_capture_outcome(&mut snapshot, Ok(Some("Hello there.".to_string())), true);
    assert!(snapshot.window_found);
    assert!(snapshot.text_element_found);
    assert_eq!(snapshot.last_error, None);
    assert_eq!(snapshot.latest_caption, "Hello there.");
    assert_eq!(snapshot.pending_caption_text, "Hello there.");

    apply_capture_outcome(&mut snapshot, Err("UI Automation failed.".to_string()), false);
    assert_eq!(snapshot.last_error.as_deref(), Some("UI Automation failed."));
    assert!(snapshot.window_found);
    assert_eq!(snapshot.pending_caption_text, "Hello there.");
}

#[test]
fn cleaned_text_is_one_line_and_cleans_to_itself() {
    let cleaned = clean_caption_text("  >> Hello   world ♪\n[Music] hello world\r\n| Next line -  ");
    assert_eq!(cleaned, "Hello world Next line");
    assert!(!cleaned.contains('\n'));
    assert_eq!(cleaned.trim(), cleaned);
    assert_eq!(clean_caption_text(&cleaned), cleaned);
}
