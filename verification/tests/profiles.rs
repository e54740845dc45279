use caption_assistant::profiles::{
    activate_profile, active_prompt, add_profile, delete_profile, next_profile_name,
    normalize_snapshot, save_profile, validate_name, validate_prompt, Profile, ProfileStore,
    ProfilesSnapshot, SaveProfileRequest,
};

fn profile(id: u64, name: &str, prompt: &str) -> Profile {
    Profile {
        id,
        name: name.to_string(),
        prompt: prompt.to_string(),
    }
}

#[test]
fn profile_names_are_required_and_trimmed() {
    assert!(validate_name("   ").is_err());
    assert_eq!(validate_name("  Interview  ").unwrap(), "Interview");
}

#[test]
fn new_profile_names_skip_existing_names() {
    let profiles = vec![profile(1, "Default profile", ""), profile(2, "Profile 3", "")];
    assert_eq!(next_profile_name(&profiles), "Profile 4");
}

#[test]
fn stale_active_profile_is_cleared_when_loading() {
    let snapshot = normalize_snapshot(ProfilesSnapshot {
        profiles: vec![profile(7, "Saved", "Prompt")],
        active_profile_id: Some(99),
        next_id: 1,
    });
    assert_eq!(snapshot.active_profile_id, None);
    assert_eq!(snapshot.next_id, 8);
}

#[test]
fn loading_keeps_a_valid_selection_and_a_larger_next_id() {
    let snapshot = normalize_snapshot(ProfilesSnapshot {
        profiles: vec![profile(3, "A", ""), profile(5, "B", "")],
        active_profile_id: Some(3),
        next_id: 40,
    });
    assert_eq!(snapshot.active_profile_id, Some(3));
    assert_eq!(snapshot.next_id, 40);
    let empty = normalize_snapshot(ProfilesSnapshot {
        profiles: Vec::new(),
        active_profile_id: None,
        next_id: 0,
    });
    assert_eq!(empty.next_id, 1);
}

#[test]
fn name_and_prompt_limits_are_enforced() {
    let long_name = "n".repeat(81);
    let error = validate_name(&long_name).unwrap_err();
    assert_eq!(error.code, "validation_error");
    assert_eq!(error.message, "Profile name cannot exceed 80 characters.");
    assert_eq!(validate_name(&"n".repeat(80)).unwrap().len(), 80);
    assert_eq!(
        validate_name(" ").unwrap_err().message,
        "Profile name cannot be empty."
    );
    let long_prompt = "p".repeat(20_001);
    assert_eq!(
        validate_prompt(&long_prompt).unwrap_err().message,
        "Profile prompt cannot exceed 20000 characters."
    );
    assert_eq!(validate_prompt("  keep it short \n").unwrap(), "keep it short");
}

#[test]
fn the_default_store_has_one_profile() {
    let store = ProfileStore::new();
    let snapshot = store.snapshot();
    assert_eq!(snapshot.profiles.len(), 1);
    assert_eq!(snapshot.profiles[0].id, 1);
    assert_eq!(snapshot.profiles[0].name, "Default profile");
    assert_eq!(snapshot.active_profile_id, None);
    assert_eq!(snapshot.next_id, 2);
}

#[test]
fn adding_a_profile_takes_the_next_id_and_a_fresh_name() {
    let mut snapshot = ProfilesSnapshot::default();
    let id = add_profile(&mut snapshot);
    assert_eq!(id, 2);
    assert_eq!(snapshot.next_id, 3);
    assert_eq!(snapshot.profiles.len(), 2);
    assert_eq!(snapshot.profiles[1].name, "Profile 2");
    assert_eq!(snapshot.profiles[1].prompt, "");
    add_profile(&mut snapshot);
    assert_eq!(snapshot.profiles[2].name, "Profile 3");
    assert_eq!(snapshot.profiles[2].id, 3);
}

#[test]
fn saving_updates_only_the_named_profile() {
    let mut snapshot = ProfilesSnapshot::default();
    add_profile(&mut snapshot);
    let request = SaveProfileRequest {
        id: 2,
        name: "  Interview ".to_string(),
        prompt: " Answer briefly ".to_string(),
    };
    save_profile(&mut snapshot, &request).unwrap();
    assert_eq!(snapshot.profiles[1].name, "Interview");
    assert_eq!(snapshot.profiles[1].prompt, "Answer briefly");
    assert_eq!(snapshot.profiles[0].name, "Default profile");

    let missing = SaveProfileRequest {
        id: 9,
        name: "X".to_string(),
        prompt: String::new(),
    };
    let error = save_profile(&mut snapshot, &missing).unwrap_err();
    assert_eq!(error.code, "profile_not_found");
    assert_eq!(error.message, "The selected profile no longer exists.");
}

#[test]
fn activating_and_deleting_follow_the_profiles() {
    let mut snapshot = ProfilesSnapshot::default();
    add_profile(&mut snapshot);
    assert_eq!(
        activate_profile(&mut snapshot, 5).unwrap_err().code,
        "profile_not_found"
    );
    activate_profile(&mut snapshot, 2).unwrap();
    assert_eq!(snapshot.active_profile_id, Some(2));
    let request = SaveProfileRequest {
        id: 2,
        name: "Focus".to_string(),
        prompt: "Answer briefly".to_string(),
    };
    save_profile(&mut snapshot, &request).unwrap();
    assert_eq!(active_prompt(&snapshot).as_deref(), Some("Answer briefly"));

    delete_profile(&mut snapshot, 2).unwrap();
    assert_eq!(snapshot.active_profile_id, None);
    assert_eq!(snapshot.profiles.len(), 1);
    assert_eq!(active_prompt(&snapshot), None);
    assert_eq!(
        delete_profile(&mut snapshot, 2).unwrap_err().code,
        "profile_not_found"
    );
}

#[test]
fn a_saved_snapshot_loads_back_unchanged() {
    let saved = ProfilesSnapshot {
        profiles: vec![profile(1, "Default profile", ""), profile(4, "Focus", "Be brief")],
        active_profile_id: Some(4),
        next_id: 5,
    };
    let loaded = normalize_snapshot(saved.clone());
    assert_eq!(loaded.profiles.len(), 2);
    assert_eq!(loaded.profiles[1].prompt, "Be brief");
    assert_eq!(loaded.active_profile_id, Some(4));
    assert_eq!(loaded.next_id, 5);
}
