use caption_assistant::config::{app_health, config_from_variable, AppEnvironment};
use caption_assistant::diagnostics::{
    clean_field, log_line, should_rotate, DiagnosticCommandError, MAX_LOG_BYTES,
};
use caption_assistant::screenshot::{bgra_to_rgba, encode_png, screenshot_png};

#[test]
fn log_fields_are_kept_on_one_line() {
    assert_eq!(clean_field("timeout\r\nretry"), "timeout  retry");
}

#[test]
fn log_fields_are_cut_to_two_thousand_characters() {
    let long = "é".repeat(2_500);
    assert_eq!(clean_field(&long).chars().count(), 2_000);
    assert_eq!(clean_field("short"), "short");
}

#[test]
fn log_lines_have_a_fixed_shape() {
    assert_eq!(
        log_line(1_700_000_000_123, "INFO", "profiles", "saved\nprofile"),
        "1700000000123 [INFO] profiles: saved profile\n"
    );
    assert_eq!(log_line(0, "", "", ""), "0 [] : \n");
}

#[test]
fn the_log_rotates_at_its_size_limit() {
    assert!(!should_rotate(None));
    assert!(!should_rotate(Some(MAX_LOG_BYTES - 1)));
    assert!(should_rotate(Some(MAX_LOG_BYTES)));
    assert!(should_rotate(Some(MAX_LOG_BYTES + 1)));
    assert_eq!(MAX_LOG_BYTES, 512 * 1024);
}

#[test]
fn diagnostic_errors_carry_their_codes() {
    assert_eq!(DiagnosticCommandError::state_error().code, "state_unavailable");
    let storage = DiagnosticCommandError::storage_error("disk full".to_string());
    assert_eq!(storage.code, "storage_error");
    assert_eq!(storage.message, "disk full");
}

#[test]
fn environments_are_named_in_lowercase() {
    assert_eq!(AppEnvironment::from("staging"), AppEnvironment::Staging);
    assert_eq!(AppEnvironment::from("production"), AppEnvironment::Production);
    assert_eq!(AppEnvironment::from("Production"), AppEnvironment::Development);
    assert_eq!(AppEnvironment::from_name("anything"), AppEnvironment::Development);
    assert_eq!(
        config_from_variable(None).environment,
        AppEnvironment::Development
    );
    assert_eq!(
        config_from_variable(Some("staging")).environment,
        AppEnvironment::Staging
    );
    let health = app_health("0.1.0", config_from_variable(Some("production")));
    assert_eq!(health.status, "ok");
    assert_eq!(health.version, "0.1.0");
    assert_eq!(health.environment, AppEnvironment::Production);
}

#[test]
fn pixels_are_reordered_to_rgba() {
    assert_eq!(
        bgra_to_rgba(&[1, 2, 3, 4, 5, 6, 7, 8, 9]),
        vec![3, 2, 1, 255, 7, 6, 5, 255]
    );
    assert!(bgra_to_rgba(&[1, 2, 3]).is_empty());
}

#[test]
fn screenshots_are_png_files() {
    let bgra = [10u8, 20, 30, 0, 40, 50, 60, 0];
    let png = encode_png(2, 1, &bgra).unwrap();
    assert_eq!(&png[..8], &[137, 80, 78, 71, 13, 10, 26, 10]);
    let shot = screenshot_png(2, 1, &bgra).unwrap();
    assert_eq!(shot.file_name, "assistant-screenshot.png");
    assert_eq!(shot.bytes, png);
}

#[test]
fn screenshot_failures_are_reported() {
    assert_eq!(
        screenshot_png(0, 10, &[]).err().as_deref(),
        Some("Primary display dimensions are unavailable.")
    );
    assert!(encode_png(0, 1, &[])
        .unwrap_err()
        .starts_with("Failed to initialize PNG encoder: "));
    assert!(encode_png(2, 2, &[0; 8])
        .unwrap_err()
        .starts_with("Failed to encode screenshot PNG: "));
}
