use std::cell::Cell;

use caption_assistant::automation::{
    cancelled_error, finish_mode_3_job, format_mode_3_warnings, is_cancelled_error,
    release_caption_workflow_flag, reset_mode_3_state, try_reserve_caption_workflow_flag,
    AutomationMode, AutomationStore, CancellationToken, Mode3CoordinatorState, Mode3FinalizeStep, UploadState,
};
use caption_assistant::caption_submit::{CaptionSubmit, SubmitAction};
use caption_assistant::prompt::{merge_profile_prompt, merge_prompt_text};
use caption_assistant::upload_recovery::{RecoveryAction, UploadRecovery};

/// Runs a caption submission the way the app does, with the page work done
/// by the given closures and no pause between attempts.
fn submit_caption_when_ready(
    caption_text: &str,
    insert: impl Fn(&str) -> Result<(), String>,
    wait_and_submit: impl Fn() -> Result<(), String>,
) -> Result<(), String> {
    let mut submission = CaptionSubmit::new();
    let mut action = SubmitAction::Insert;
    loop {
        action = match action {
            SubmitAction::Insert | SubmitAction::PauseThenInsert => {
                submission.on_insert(insert(caption_text))
            }
            SubmitAction::WaitAndSubmit => submission.on_submit(wait_and_submit()),
            SubmitAction::Finish(result) => return result,
        };
    }
}

#[test]
fn caption_input_retries_twice_then_waits_for_submit() {
    let input_calls = Cell::new(0);
    let submit_calls = Cell::new(0);

    let result = submit_caption_when_ready(
        "caption",
        |_| {
            let call = input_calls.get() + 1;
            input_calls.set(call);
            if call < 3 {
                Err("not ready".to_string())
            } else {
                Ok(())
            }
        },
        || {
            submit_calls.set(submit_calls.get() + 1);
            Ok(())
        },
    );

    assert!(result.is_ok());
    assert_eq!(input_calls.get(), 3);
    assert_eq!(submit_calls.get(), 1);
}

#[test]
fn caption_text_is_restored_when_waiting_for_submit_fails() {
    let input_calls = Cell::new(0);

    let error = submit_caption_when_ready(
        "caption",
        |text| {
            assert_eq!(text, "caption");
            input_calls.set(input_calls.get() + 1);
            Ok(())
        },
        || Err("send remained disabled".to_string()),
    )
    .expect_err("submission should fail");

    assert_eq!(input_calls.get(), 2);
    assert!(error.contains("text was left in the ChatGPT prompt"));
}

#[test]
fn caption_submission_gives_up_after_three_failed_inserts() {
    let submit_calls = Cell::new(0);
    let error = submit_caption_when_ready(
        "caption",
        |_| Err("no composer".to_string()),
        || {
            submit_calls.set(submit_calls.get() + 1);
            Ok(())
        },
    )
    .expect_err("insertion should fail");

    assert_eq!(
        error,
        "The caption text could not be inserted after 3 attempts. attempt 1: no composer; attempt 2: no composer; attempt 3: no composer"
    );
    assert_eq!(submit_calls.get(), 0);
}

#[test]
fn caption_submission_reports_a_lost_text() {
    let input_calls = Cell::new(0);
    let error = submit_caption_when_ready(
        "caption",
        |_| {
            input_calls.set(input_calls.get() + 1);
            if input_calls.get() == 1 {
                Ok(())
            } else {
                Err("composer vanished".to_string())
            }
        },
        || Err("timeout".to_string()),
    )
    .expect_err("submission should fail");

    assert_eq!(
        error,
        "Caption submission failed while waiting for ChatGPT: timeout. The text could not be restored in the ChatGPT prompt: composer vanished."
    );
}

#[test]
fn only_one_caption_workflow_permit_can_exist() {
    let mut reserved = false;
    let epoch = 0;
    let first = try_reserve_caption_workflow_flag(&mut reserved, epoch).expect("first permit");

    assert!(try_reserve_caption_workflow_flag(&mut reserved, epoch).is_none());
    drop(first);
    release_caption_workflow_flag(&mut reserved);
    assert!(try_reserve_caption_workflow_flag(&mut reserved, epoch).is_some());
}

#[test]
fn last_mode_3_job_becomes_the_only_batch_finalizer() {
    let mut state = Mode3CoordinatorState {
        active_jobs: 2,
        generation: 2,
        ..Default::default()
    };
    let epoch = 0;
    let first = CancellationToken { expected: 0 };
    let second = CancellationToken { expected: 0 };

    assert!(!finish_mode_3_job(
        &mut state,
        Err("capture failed".to_string()),
        !first.is_cancelled(epoch)
    ));
    assert!(finish_mode_3_job(&mut state, Ok(()), !second.is_cancelled(epoch)));

    assert_eq!(state.active_jobs, 0);
    assert_eq!(state.successful_injections, 1);
    assert_eq!(state.upload_errors, vec!["capture failed"]);
    assert!(state.finalizing);
}

#[test]
fn cancelled_mode_3_job_does_not_mutate_a_reset_batch() {
    let mut state = Mode3CoordinatorState {
        active_jobs: 1,
        generation: 8,
        ..Default::default()
    };
    let epoch = 1;
    let cancelled_job = CancellationToken { expected: 0 };

    assert!(!finish_mode_3_job(
        &mut state,
        Err("navigation interrupted upload".to_string()),
        !cancelled_job.is_cancelled(epoch),
    ));

    assert_eq!(state.active_jobs, 1);
    assert_eq!(state.generation, 8);
    assert!(state.upload_errors.is_empty());
    assert!(!state.finalizing);
}

#[test]
fn resetting_the_coordinator_clears_the_batch() {
    let mut state = Mode3CoordinatorState {
        active_jobs: 1,
        generation: 3,
        finalizing: true,
        successful_injections: 2,
        upload_errors: vec!["x".to_string()],
    };
    reset_mode_3_state(&mut state);
    assert_eq!(state.active_jobs, 1);
    assert_eq!(state.generation, 3);
    assert!(!state.finalizing);
    assert_eq!(state.successful_injections, 0);
    assert!(state.upload_errors.is_empty());
}

#[test]
fn existing_prompt_is_combined_with_only_the_new_caption_batch() {
    assert_eq!(
        merge_prompt_text("Restored prompt", "New live caption"),
        "Restored prompt\nNew live caption"
    );
    assert_eq!(
        merge_prompt_text("Restored prompt\nNew live caption", "New live caption"),
        "Restored prompt\nNew live caption"
    );
}

#[test]
fn active_profile_prompt_is_prefixed_without_duplication() {
    assert_eq!(
        merge_profile_prompt("Answer briefly", "Live caption"),
        "Answer briefly\nLive caption"
    );
    assert_eq!(
        merge_profile_prompt("Answer briefly", "Answer briefly\nLive caption"),
        "Answer briefly\nLive caption"
    );
}

#[test]
fn changing_the_epoch_cancels_an_existing_worker_token() {
    let mut epoch = 4;
    let token = CancellationToken { expected: 4 };

    assert!(!token.is_cancelled(epoch));
    epoch = 5;
    assert!(token.is_cancelled(epoch));
}

#[test]
fn cancelled_error_is_recognized() {
    let error = cancelled_error();
    assert_eq!(error, "Automation was cancelled by browser navigation.");
    assert!(is_cancelled_error(&error));
    assert!(!is_cancelled_error("Automation failed."));
}

#[test]
fn store_reserves_one_caption_workflow_until_released() {
    let mut store = AutomationStore::new();
    let permit = store.try_reserve_caption_workflow().expect("first permit");
    assert!(!store.is_cancelled(&permit.token));
    assert!(store.try_reserve_caption_workflow().is_err());
    store.release_caption_workflow();
    assert!(store.try_reserve_caption_workflow().is_ok());
}

#[test]
fn navigation_reset_cancels_running_workers() {
    let mut store = AutomationStore::new();
    let permit = store.try_reserve_caption_workflow().expect("permit");
    store.begin_navigation_reset().expect("reset");
    assert!(store.is_cancelled(&permit.token));
    assert!(store.try_reserve_caption_workflow().is_err());
    store.end_navigation_reset();
}

#[test]
fn a_cancelled_worker_stops_with_the_cancellation_error() {
    let mut store = AutomationStore::new();
    let permit = store.try_reserve_caption_workflow().expect("permit");
    assert_eq!(store.ensure_not_cancelled(&permit.token), Ok(()));
    store.begin_navigation_reset().expect("reset");
    assert_eq!(store.ensure_not_cancelled(&permit.token), Err(cancelled_error()));
    store.end_navigation_reset();
}

#[test]
fn workflow_snapshot_reports_its_mode_and_result() {
    let mut store = AutomationStore::new();
    store.begin_workflow(AutomationMode::ScreenshotOnly);
    assert!(store.snapshot.is_running);
    assert_eq!(store.snapshot.last_mode, Some(AutomationMode::ScreenshotOnly));
    assert!(store.finish_workflow(Ok(UploadState::Ready)).is_ok());
    assert!(!store.snapshot.is_running);
    assert_eq!(store.snapshot.upload_state, UploadState::Ready);
    store.begin_workflow(AutomationMode::CaptionSubmit);
    let error = store
        .finish_workflow(Err("boom".to_string()))
        .expect_err("workflow failed");
    assert_eq!(error.code, "automation_failed");
    assert_eq!(error.message, "boom");
    assert_eq!(store.snapshot.last_error.as_deref(), Some("boom"));
}

#[test]
fn mode_3_warnings_list_every_failure() {
    assert_eq!(format_mode_3_warnings(&Vec::new()), None);
    assert_eq!(
        format_mode_3_warnings(&vec!["a".to_string(), "b".to_string()]).as_deref(),
        Some("Mode 3 uploaded the available screenshots and ignored upload failures: a; b")
    );
}

/// Runs Mode 2's recovery from a failed upload with scripted page outcomes.
fn recover(
    injected: bool,
    prompt: &str,
    discard: Result<(), String>,
    leave: Result<(), String>,
    submit: Result<(), String>,
) -> (Vec<&'static str>, RecoveryAction) {
    let (mut recovery, mut action) =
        UploadRecovery::start("no file input".to_string(), false, false, injected, prompt);
    let mut steps = Vec::new();
    loop {
        action = match action {
            RecoveryAction::Discard => {
                steps.push("discard");
                recovery.on_discard(discard.clone())
            }
            RecoveryAction::LeavePrompt => {
                steps.push("leave");
                recovery.on_leave_prompt(leave.clone())
            }
            RecoveryAction::SubmitCaption => {
                steps.push("submit");
                recovery.on_submit(submit.clone())
            }
            finished => return (steps, finished),
        };
    }
}

#[test]
fn failed_upload_falls_back_to_the_caption_text() {
    let (steps, action) = recover(true, "caption", Ok(()), Ok(()), Ok(()));
    assert_eq!(steps, vec!["discard", "submit"]);
    match action {
        RecoveryAction::FinishWithWarning(warning) => assert_eq!(
            warning,
            "Image upload failed, so only the caption text was submitted: no file input"
        ),
        other => panic!("unexpected {other:?}"),
    }
}

#[test]
fn a_stuck_attachment_leaves_the_text_unsent() {
    let (steps, action) = recover(true, "caption", Err("still there".to_string()), Ok(()), Ok(()));
    assert_eq!(steps, vec!["discard", "leave"]);
    match action {
        RecoveryAction::Finish(Err(message)) => assert_eq!(
            message,
            "Image upload failed: no file input. The image attachment could not be removed: still there. The caption text was left in the ChatGPT prompt and was not submitted."
        ),
        other => panic!("unexpected {other:?}"),
    }
}

#[test]
fn recovery_without_caption_text_reports_the_upload_error() {
    let (steps, action) = recover(false, "   ", Ok(()), Ok(()), Ok(()));
    assert!(steps.is_empty());
    match action {
        RecoveryAction::Finish(Err(message)) => assert_eq!(
            message,
            "Image upload failed and no Live Captions text was available to submit: no file input"
        ),
        other => panic!("unexpected {other:?}"),
    }
    let (_, cancelled) = UploadRecovery::start("boom".to_string(), true, false, true, "x");
    assert!(matches!(cancelled, RecoveryAction::Finish(Err(message)) if message == "boom"));
}

#[test]
fn mode_3_finalizer_waits_for_jobs_then_publishes() {
    let mut store = AutomationStore::new();
    let first = store.start_mode_3_job().expect("first job");
    let _second = store.start_mode_3_job().expect("second job");
    assert!(!store.finish_mode_3_job(Ok(()), true));
    assert!(matches!(store.mode_3_finalize_poll(&first), Mode3FinalizeStep::Wait));
    assert!(store.finish_mode_3_job(Err("second failed".to_string()), true));
    let generation = match store.mode_3_finalize_poll(&first) {
        Mode3FinalizeStep::AwaitUploads(generation) => generation,
        other => panic!("unexpected step {other:?}"),
    };
    match store.mode_3_finalize_after_uploads(&first, generation, Err("slow".to_string())) {
        Mode3FinalizeStep::Finish(result) => assert_eq!(result, Ok(())),
        other => panic!("unexpected step {other:?}"),
    }
    assert!(!store.snapshot.is_running);
    assert_eq!(store.snapshot.upload_state, UploadState::Ready);
    assert_eq!(
        store.snapshot.last_error.as_deref(),
        Some("Mode 3 uploaded the available screenshots and ignored upload failures: second failed; slow")
    );
}

#[test]
fn mode_3_finalizer_fails_a_batch_without_screenshots() {
    let mut store = AutomationStore::new();
    let job = store.start_mode_3_job().expect("job");
    assert!(store.finish_mode_3_job(Err("no input".to_string()), true));
    match store.mode_3_finalize_poll(&job) {
        Mode3FinalizeStep::Finish(result) => assert_eq!(
            result,
            Err("Mode 3 could not add any screenshots to the ChatGPT composer.".to_string())
        ),
        other => panic!("unexpected step {other:?}"),
    }
    assert_eq!(store.snapshot.upload_state, UploadState::Failed);
    assert_eq!(store.mode_3_coordinator.active_jobs, 0);
    assert!(!store.mode_3_coordinator.finalizing);
}

#[test]
fn mode_3_finalizer_stops_when_cancelled() {
    let mut store = AutomationStore::new();
    let job = store.start_mode_3_job().expect("job");
    assert!(store.finish_mode_3_job(Ok(()), true));
    store.begin_navigation_reset().expect("reset");
    match store.mode_3_finalize_poll(&job) {
        Mode3FinalizeStep::Finish(result) => assert_eq!(result, Err(cancelled_error())),
        other => panic!("unexpected step {other:?}"),
    }
    assert!(!store.mode_3_coordinator.finalizing);
    store.end_navigation_reset();
}
