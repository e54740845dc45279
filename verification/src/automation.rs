//! Automation state for the three modes: the caption-workflow reservation,
//! cancellation by navigation, prompt memory across Refresh and Home, the
//! Mode 3 batch coordinator, and the published workflow snapshot.
use vstd::prelude::*;

use crate::prompt::{merge_prompt_text_chars, spec_merge_prompt_text};
use crate::text::{append_chars, chars_eq, chars_of, join_with, string_of, trim, trim_chars};

verus! {

// ---------------------------------------------------------------------------
// Published snapshot
// ---------------------------------------------------------------------------

#[derive(Debug, Clone, Copy, PartialEq, Eq, Structural)]
pub enum AutomationMode {
    CaptionSubmit,
    ScreenshotCaptionSubmit,
    ScreenshotOnly,
}

#[derive(Debug, Clone, Copy, PartialEq, Eq, Structural)]
pub enum UploadState {
    Idle,
    Uploading,
    Ready,
    Failed,
}

/// What the toolbar shows about automation.
#[derive(Debug)]
pub struct AutomationSnapshot {
    pub is_running: bool,
    pub last_mode: Option<AutomationMode>,
    pub upload_state: UploadState,
    pub last_error: Option<String>,
}

pub struct SnapshotView {
    pub is_running: bool,
    pub last_mode: Option<AutomationMode>,
    pub upload_state: UploadState,
    pub last_error: Option<Seq<char>>,
}

pub open spec fn opt_string_view(o: Option<String>) -> Option<Seq<char>> {
    match o {
        Some(s) => Some(s@),
        None => None,
    }
}

impl View for AutomationSnapshot {
    type V = SnapshotView;

    open spec fn view(&self) -> SnapshotView {
        SnapshotView {
            is_running: self.is_running,
            last_mode: self.last_mode,
            upload_state: self.upload_state,
            last_error: opt_string_view(self.last_error),
        }
    }
}

pub open spec fn idle_snapshot() -> SnapshotView {
    SnapshotView { is_running: false, last_mode: None, upload_state: UploadState::Idle, last_error: None }
}

impl Default for AutomationSnapshot {
    fn default() -> (r: Self)
        ensures
            r@ == idle_snapshot(),
    {
        AutomationSnapshot {
            is_running: false,
            last_mode: None,
            upload_state: UploadState::Idle,
            last_error: None,
        }
    }
}

fn clone_opt_string(o: &Option<String>) -> (r: Option<String>)
    ensures
        opt_string_view(r) == opt_string_view(*o),
{
    match o {
        Some(s) => Some(s.clone()),
        None => None,
    }
}

impl AutomationSnapshot {
    pub fn duplicate(&self) -> (r: Self)
        ensures
            r@ == self@,
    {
        AutomationSnapshot {
            is_running: self.is_running,
            last_mode: self.last_mode,
            upload_state: self.upload_state,
            last_error: clone_opt_string(&self.last_error),
        }
    }
}

/// Error of an automation command: a machine-readable code and a message.
#[derive(Debug)]
pub struct AutomationCommandError {
    pub code: &'static str,
    pub message: String,
}

impl AutomationCommandError {
    pub fn automation_failed(message: String) -> (r: Self)
        ensures
            r.code@ == "automation_failed"@,
            r.message@ == message@,
    {
        AutomationCommandError { code: "automation_failed", message }
    }

    pub fn state_unavailable() -> (r: Self)
        ensures
            r.code@ == "state_unavailable"@,
            r.message@ == "Automation state is unavailable."@,
    {
        AutomationCommandError {
            code: "state_unavailable",
            message: String::from_str("Automation state is unavailable."),
        }
    }
}

#[derive(Debug, Clone, Copy, Default)]
pub struct AutomationPreferences {
    pub keep_existing_prompt: bool,
}

#[derive(Debug)]
pub struct AutomationPreferencesRequest {
    pub keep_existing_prompt: bool,
}

/// The preferences that a settings request asks for.
pub fn preferences_from_request(request: &AutomationPreferencesRequest) -> (r:
    AutomationPreferences)
    ensures
        r.keep_existing_prompt == request.keep_existing_prompt,
{
    AutomationPreferences { keep_existing_prompt: request.keep_existing_prompt }
}

// ---------------------------------------------------------------------------
// Cancellation
// ---------------------------------------------------------------------------

pub open spec fn cancelled_message() -> Seq<char> {
    "Automation was cancelled by browser navigation."@
}

/// The error that a workflow cancelled by navigation ends with.
pub fn cancelled_error() -> (r: String)
    ensures
        r@ == cancelled_message(),
{
    String::from_str("Automation was cancelled by browser navigation.")
}

/// Whether `message` is the cancellation error.
pub fn is_cancelled_error(message: &str) -> (r: bool)
    ensures
        r == (message@ == cancelled_message()),
{
    let m = chars_of(message);
    let c = chars_of("Automation was cancelled by browser navigation.");
    chars_eq(&m, &c)
}

/// A worker's view of the cancellation epoch when it started.
#[derive(Debug, Clone, Copy)]
pub struct CancellationToken {
    pub expected: u64,
}

impl CancellationToken {
    /// Cancelled once the epoch moved on from the one the worker started in.
    pub fn is_cancelled(&self, epoch: u64) -> (r: bool)
        ensures
            r == (epoch != self.expected),
    {
        epoch != self.expected
    }
}

/// The next cancellation epoch (`AtomicU64::fetch_add` wraps).
pub open spec fn next_epoch(e: u64) -> u64 {
    if e == u64::MAX {
        0
    } else {
        (e + 1) as u64
    }
}

// ---------------------------------------------------------------------------
// Mode 3 coordinator
// ---------------------------------------------------------------------------

/// Shared state of the concurrent Mode 3 capture jobs of one batch.
#[derive(Debug, Default)]
pub struct Mode3CoordinatorState {
    pub active_jobs: usize,
    pub generation: u64,
    pub finalizing: bool,
    pub successful_injections: usize,
    pub upload_errors: Vec<String>,
}

pub struct Mode3View {
    pub active_jobs: int,
    pub generation: int,
    pub finalizing: bool,
    pub successful_injections: int,
    pub upload_errors: Seq<Seq<char>>,
}

pub open spec fn string_seq_view(v: Seq<String>) -> Seq<Seq<char>> {
    Seq::new(v.len(), |i: int| v[i]@)
}

impl View for Mode3CoordinatorState {
    type V = Mode3View;

    open spec fn view(&self) -> Mode3View {
        Mode3View {
            active_jobs: self.active_jobs as int,
            generation: self.generation as int,
            finalizing: self.finalizing,
            successful_injections: self.successful_injections as int,
            upload_errors: string_seq_view(self.upload_errors@),
        }
    }
}

/// The coordinator after one job ended with `error` (`None` for success).
/// A cancelled job (`allow_finalize` false) changes nothing; otherwise the job
/// is counted, and the job that leaves no active jobs behind while nobody is
/// finalizing becomes the batch finalizer (the boolean).
pub open spec fn finish_mode_3_job_spec(v: Mode3View, error: Option<Seq<char>>, allow_finalize: bool) -> (Mode3View, bool) {
    if !allow_finalize {
        (v, false)
    } else {
        let counted = Mode3View {
            active_jobs: if v.active_jobs > 0 {
                v.active_jobs - 1
            } else {
                0
            },
            successful_injections: if error is None {
                v.successful_injections + 1
            } else {
                v.successful_injections
            },
            upload_errors: match error {
                Some(e) => v.upload_errors.push(e),
                None => v.upload_errors,
            },
            ..v
        };
        if counted.active_jobs == 0 && !counted.finalizing {
            (Mode3View { finalizing: true, ..counted }, true)
        } else {
            (counted, false)
        }
    }
}

pub open spec fn err_view(r: Result<(), String>) -> Option<Seq<char>> {
    match r {
        Ok(()) => None,
        Err(e) => Some(e@),
    }
}

/// Records the end of one Mode 3 job; returns whether this job finalizes the
/// batch. See `finish_mode_3_job_spec`.
pub fn finish_mode_3_job(
    state: &mut Mode3CoordinatorState,
    upload_result: Result<(), String>,
    allow_finalize: bool,
) -> (r: bool)
    requires
        old(state).successful_injections < usize::MAX,
    ensures
        (final(state)@, r) == finish_mode_3_job_spec(old(state)@, err_view(upload_result), allow_finalize),
{
    if !allow_finalize {
        return false;
    }
    state.active_jobs = if state.active_jobs > 0 {
        state.active_jobs - 1
    } else {
        0
    };
    match upload_result {
        Ok(()) => {
            state.successful_injections = state.successful_injections + 1;
        },
        Err(error) => {
            let ghost old_errors = state.upload_errors@;
            let ghost e = error@;
            state.upload_errors.push(error);
            assert(string_seq_view(state.upload_errors@) =~= string_seq_view(old_errors).push(e));
        },
    }
    if state.active_jobs == 0 && !state.finalizing {
        state.finalizing = true;
        true
    } else {
        false
    }
}

/// The coordinator without a finalizer, successes or errors.
pub open spec fn reset_mode_3_spec(v: Mode3View) -> Mode3View {
    Mode3View { finalizing: false, successful_injections: 0, upload_errors: Seq::empty(), ..v }
}

pub fn reset_mode_3_state(state: &mut Mode3CoordinatorState)
    ensures
        final(state)@ == reset_mode_3_spec(old(state)@),
{
    state.finalizing = false;
    state.successful_injections = 0;
    state.upload_errors = Vec::new();
    assert(string_seq_view(state.upload_errors@) =~= Seq::<Seq<char>>::empty());
}

/// Law: a cancelled Mode 3 job leaves the coordinator untouched.
pub proof fn law_cancelled_job_changes_nothing(v: Mode3View, error: Option<Seq<char>>)
    ensures
        finish_mode_3_job_spec(v, error, false) == (v, false),
{
}

/// Law: a job becomes the finalizer only when no other job is active and no
/// finalizer exists, and afterwards the batch has one; so of any two jobs
/// finishing one after the other, at most one finalizes.
pub proof fn law_single_mode_3_finalizer(
    v: Mode3View,
    first: Option<Seq<char>>,
    second: Option<Seq<char>>,
    allow_first: bool,
    allow_second: bool,
)
    ensures
        finish_mode_3_job_spec(v, first, allow_first).1 ==> {
            &&& !v.finalizing
            &&& finish_mode_3_job_spec(v, first, allow_first).0.finalizing
            &&& finish_mode_3_job_spec(v, first, allow_first).0.active_jobs == 0
        },
        !(finish_mode_3_job_spec(v, first, allow_first).1 && finish_mode_3_job_spec(
            finish_mode_3_job_spec(v, first, allow_first).0,
            second,
            allow_second,
        ).1),
{
}

} // verus!

verus! {

// ---------------------------------------------------------------------------
// Shared automation state
// ---------------------------------------------------------------------------

/// The shared state of all automation workflows.
#[derive(Debug)]
pub struct AutomationStore {
    pub snapshot: AutomationSnapshot,
    /// A Mode 1 or Mode 2 workflow holds the caption batch.
    pub caption_workflow_reserved: bool,
    pub mode_3_coordinator: Mode3CoordinatorState,
    /// Advanced by every navigation reset; workers started in an older epoch
    /// are cancelled.
    pub cancellation_epoch: u64,
    pub resetting: bool,
    /// The prompt of the Mode 1/2 workflow in progress.
    pub prepared_prompt: String,
    /// The draft to put back into ChatGPT after Refresh.
    pub refresh_prompt: String,
    pub refresh_restore_pending: bool,
    pub refresh_prompt_restored: bool,
    /// The last submitted Mode 1/2 prompt.
    pub previous_submitted_prompt: String,
    pub preferences: AutomationPreferences,
}

pub struct AutomationView {
    pub snapshot: SnapshotView,
    pub reserved: bool,
    pub mode_3: Mode3View,
    pub epoch: u64,
    pub resetting: bool,
    pub prepared: Seq<char>,
    pub refresh: Seq<char>,
    pub restore_pending: bool,
    pub restored: bool,
    pub previous: Seq<char>,
    pub keep_existing: bool,
}

impl View for AutomationStore {
    type V = AutomationView;

    open spec fn view(&self) -> AutomationView {
        AutomationView {
            snapshot: self.snapshot@,
            reserved: self.caption_workflow_reserved,
            mode_3: self.mode_3_coordinator@,
            epoch: self.cancellation_epoch,
            resetting: self.resetting,
            prepared: self.prepared_prompt@,
            refresh: self.refresh_prompt@,
            restore_pending: self.refresh_restore_pending,
            restored: self.refresh_prompt_restored,
            previous: self.previous_submitted_prompt@,
            keep_existing: self.preferences.keep_existing_prompt,
        }
    }
}

pub open spec fn resetting_message() -> Seq<char> {
    "Automation is resetting. Try the shortcut again after navigation finishes."@
}

pub open spec fn busy_message() -> Seq<char> {
    "Mode 1 or Mode 2 automation is already running. The new request was ignored."@
}

pub open spec fn reset_busy_message() -> Seq<char> {
    "Automation reset is already in progress."@
}

pub open spec fn mode_3_warning_prefix() -> Seq<char> {
    "Mode 3 uploaded the available screenshots and ignored upload failures: "@
}

/// The permission of one Mode 1/2 workflow to take the caption batch.
#[derive(Debug)]
pub struct CaptionWorkflowPermit {
    pub token: CancellationToken,
}

pub open spec fn permit_view(r: Result<CaptionWorkflowPermit, String>) -> Result<u64, Seq<char>> {
    match r {
        Ok(p) => Ok(p.token.expected),
        Err(e) => Err(e@),
    }
}

pub open spec fn token_view(r: Result<CancellationToken, String>) -> Result<u64, Seq<char>> {
    match r {
        Ok(t) => Ok(t.expected),
        Err(e) => Err(e@),
    }
}

pub open spec fn unit_view(r: Result<(), String>) -> Result<(), Seq<char>> {
    match r {
        Ok(()) => Ok(()),
        Err(e) => Err(e@),
    }
}

/// Reserving the caption workflow: refused while resetting or while another
/// Mode 1/2 workflow holds it; otherwise held, with a token of the current epoch.
pub open spec fn reserve_spec(v: AutomationView) -> (AutomationView, Result<u64, Seq<char>>) {
    if v.resetting {
        (v, Err(resetting_message()))
    } else if v.reserved {
        (v, Err(busy_message()))
    } else {
        (AutomationView { reserved: true, ..v }, Ok(v.epoch))
    }
}

pub open spec fn release_spec(v: AutomationView) -> AutomationView {
    AutomationView { reserved: false, ..v }
}

/// Starting a navigation reset: refused while one runs; otherwise every worker
/// of the current epoch is cancelled.
pub open spec fn begin_reset_spec(v: AutomationView) -> (AutomationView, Result<(), Seq<char>>) {
    if v.resetting {
        (v, Err(reset_busy_message()))
    } else {
        (AutomationView { resetting: true, epoch: next_epoch(v.epoch), ..v }, Ok(()))
    }
}

/// No workflow holds the caption batch and no Mode 3 job or finalizer runs.
pub open spec fn workers_idle_spec(v: AutomationView) -> bool {
    !v.reserved && !(v.mode_3.active_jobs > 0 || v.mode_3.finalizing)
}

/// The Mode 3 batch and the published snapshot reset to idle.
pub open spec fn reset_runtime_spec(v: AutomationView) -> AutomationView {
    AutomationView {
        mode_3: reset_mode_3_spec(Mode3View { active_jobs: 0, ..v.mode_3 }),
        snapshot: idle_snapshot(),
        ..v
    }
}

/// Refresh: the prompt of the workflow in progress, or else the draft read
/// from the page, is kept for restoring after the reload.
pub open spec fn store_refresh_prompt_spec(v: AutomationView, page_prompt: Seq<char>) -> AutomationView {
    let restore = if trim(v.prepared).len() == 0 {
        page_prompt
    } else {
        v.prepared
    };
    reset_runtime_spec(
        AutomationView {
            refresh: restore,
            restore_pending: trim(restore).len() > 0,
            restored: false,
            prepared: Seq::empty(),
            ..v
        },
    )
}

/// Home: all prompt memory is forgotten and the runtime reset.
pub open spec fn reset_for_home_spec(v: AutomationView) -> AutomationView {
    reset_runtime_spec(
        AutomationView {
            prepared: Seq::empty(),
            refresh: Seq::empty(),
            previous: Seq::empty(),
            restore_pending: false,
            restored: false,
            ..v
        },
    )
}

/// The prompt body of a Mode 1/2 run for the new caption batch, given what the
/// ChatGPT composer shows (`live`, read only while a Refresh draft exists).
pub open spec fn prompt_body_spec(v: AutomationView, new_caption: Seq<char>, live: Option<Seq<char>>) -> (AutomationView, Seq<char>) {
    if trim(v.refresh).len() > 0 && (live is None || trim(live->0).len() > 0 || !v.restored) {
        match live {
            Some(lp) => if trim(lp).len() > 0 {
                (v, spec_merge_prompt_text(lp, new_caption))
            } else {
                (v, spec_merge_prompt_text(v.refresh, new_caption))
            },
            None => (v, spec_merge_prompt_text(v.refresh, new_caption)),
        }
    } else {
        // No draft, or the restored draft was submitted or cleared by hand.
        let v2 = if trim(v.refresh).len() > 0 {
            AutomationView { refresh: Seq::empty(), ..v }
        } else {
            v
        };
        if !v.keep_existing {
            (v2, new_caption)
        } else {
            (v2, spec_merge_prompt_text(v.previous, new_caption))
        }
    }
}

/// After a Mode 1/2 run: the prepared prompt is dropped unless the run was
/// cancelled without submitting; a submitted prompt becomes the previous one
/// and ends any Refresh draft.
pub open spec fn finish_prepared_spec(v: AutomationView, prompt: Seq<char>, submitted: bool, cancelled: bool) -> AutomationView {
    let v1 = if submitted || !cancelled {
        AutomationView { prepared: Seq::empty(), ..v }
    } else {
        v
    };
    if submitted {
        AutomationView {
            previous: prompt,
            refresh: Seq::empty(),
            restore_pending: false,
            restored: false,
            ..v1
        }
    } else {
        v1
    }
}

/// Starting a Mode 3 job: refused while resetting; otherwise counted in the
/// batch, with a token of the current epoch.
pub open spec fn start_mode_3_spec(v: AutomationView) -> (AutomationView, Result<u64, Seq<char>>) {
    if v.resetting {
        (v, Err(resetting_message()))
    } else {
        (
            AutomationView {
                mode_3: Mode3View {
                    active_jobs: v.mode_3.active_jobs + 1,
                    generation: if v.mode_3.generation == u64::MAX {
                        0
                    } else {
                        v.mode_3.generation + 1
                    },
                    ..v.mode_3
                },
                snapshot: SnapshotView {
                    is_running: true,
                    last_mode: Some(AutomationMode::ScreenshotOnly),
                    upload_state: UploadState::Uploading,
                    last_error: None,
                },
                ..v
            },
            Ok(v.epoch),
        )
    }
}

pub open spec fn format_mode_3_warnings_spec(warnings: Seq<Seq<char>>) -> Option<Seq<char>> {
    if warnings.len() == 0 {
        None
    } else {
        Some(mode_3_warning_prefix() + join_with(warnings, "; "@))
    }
}

/// Publishing a finished Mode 3 batch of `generation`; refused when jobs are
/// still active or a newer batch began.
pub open spec fn complete_mode_3_spec(v: AutomationView, generation: u64, warning: Option<Seq<char>>) -> (AutomationView, bool) {
    if v.mode_3.active_jobs != 0 || v.mode_3.generation != generation {
        (v, false)
    } else {
        let warnings = match warning {
            Some(w) => v.mode_3.upload_errors.push(w),
            None => v.mode_3.upload_errors,
        };
        (
            AutomationView {
                mode_3: reset_mode_3_spec(v.mode_3),
                snapshot: SnapshotView {
                    is_running: false,
                    upload_state: UploadState::Ready,
                    last_error: format_mode_3_warnings_spec(warnings),
                    ..v.snapshot
                },
                ..v
            },
            true,
        )
    }
}

/// The outcome of a Mode 1/2 or submit workflow, published.
pub open spec fn finish_workflow_spec(v: AutomationView, result: Result<UploadState, Seq<char>>) -> (AutomationView, Result<(), (Seq<char>, Seq<char>)>) {
    match result {
        Ok(u) => (
            AutomationView {
                snapshot: SnapshotView { is_running: false, upload_state: u, ..v.snapshot },
                ..v
            },
            Ok(()),
        ),
        Err(m) => if m == cancelled_message() {
            (v, Err(("automation_cancelled"@, m)))
        } else {
            (
                AutomationView {
                    snapshot: SnapshotView {
                        is_running: false,
                        upload_state: UploadState::Failed,
                        last_error: Some(m),
                        ..v.snapshot
                    },
                    ..v
                },
                Err(("automation_failed"@, m)),
            )
        },
    }
}

pub open spec fn workflow_result_view(r: Result<UploadState, String>) -> Result<UploadState, Seq<char>> {
    match r {
        Ok(u) => Ok(u),
        Err(e) => Err(e@),
    }
}

pub open spec fn command_error_view(r: Result<(), AutomationCommandError>) -> Result<(), (Seq<char>, Seq<char>)> {
    match r {
        Ok(()) => Ok(()),
        Err(e) => Err((e.code@, e.message@)),
    }
}

/// Reserves the caption flag alone: `None` when it is already held.
pub fn try_reserve_caption_workflow_flag(reserved: &mut bool, cancellation_epoch: u64) -> (r:
    Option<CaptionWorkflowPermit>)
    ensures
        *old(reserved) ==> r is None && *final(reserved),
        !*old(reserved) ==> (r matches Some(p) && p.token.expected == cancellation_epoch)
            && *final(reserved),
{
    if *reserved {
        None
    } else {
        *reserved = true;
        Some(CaptionWorkflowPermit { token: CancellationToken { expected: cancellation_epoch } })
    }
}

/// Gives the caption flag back (a permit's end).
pub fn release_caption_workflow_flag(reserved: &mut bool)
    ensures
        !*final(reserved),
{
    *reserved = false;
}

/// What the Mode 3 finalizer does next.
#[derive(Debug)]
pub enum Mode3FinalizeStep {
    /// Jobs are still active: wait a moment, then poll again.
    Wait,
    /// The last attempt to publish lost to a newer batch: poll again now.
    PollAgain,
    /// The batch of this generation is in: wait for its uploads to settle.
    AwaitUploads(u64),
    /// The finalizer is done, with its outcome.
    Finish(Result<(), String>),
}

pub enum Mode3StepView {
    Wait,
    PollAgain,
    AwaitUploads(u64),
    Finish(Result<(), Seq<char>>),
}

pub open spec fn mode_3_step_view(s: Mode3FinalizeStep) -> Mode3StepView {
    match s {
        Mode3FinalizeStep::Wait => Mode3StepView::Wait,
        Mode3FinalizeStep::PollAgain => Mode3StepView::PollAgain,
        Mode3FinalizeStep::AwaitUploads(g) => Mode3StepView::AwaitUploads(g),
        Mode3FinalizeStep::Finish(Ok(())) => Mode3StepView::Finish(Ok(())),
        Mode3FinalizeStep::Finish(Err(e)) => Mode3StepView::Finish(Err(e@)),
    }
}

pub open spec fn no_screenshot_message() -> Seq<char> {
    "Mode 3 could not add any screenshots to the ChatGPT composer."@
}

/// The store after a cancelled finalizer dropped its batch.
pub open spec fn cancel_finalizer_spec(v: AutomationView) -> AutomationView {
    AutomationView { mode_3: reset_mode_3_spec(v.mode_3), ..v }
}

/// One poll of the finalizer of a worker whose token expects epoch `expected`:
/// cancelled, it drops the batch and ends with the cancellation error; while
/// jobs are active it waits; a batch in which no screenshot reached the
/// composer fails with an error; otherwise it goes on to wait for the uploads
/// of the batch's generation.
pub open spec fn finalize_poll_spec(v: AutomationView, expected: u64) -> (AutomationView, Mode3StepView) {
    if v.epoch != expected {
        (cancel_finalizer_spec(v), Mode3StepView::Finish(Err(cancelled_message())))
    } else if v.mode_3.active_jobs != 0 {
        (v, Mode3StepView::Wait)
    } else if v.mode_3.successful_injections == 0 {
        (
            AutomationView {
                mode_3: reset_mode_3_spec(v.mode_3),
                snapshot: SnapshotView {
                    is_running: false,
                    upload_state: UploadState::Failed,
                    last_error: Some(no_screenshot_message()),
                    ..v.snapshot
                },
                ..v
            },
            Mode3StepView::Finish(Err(no_screenshot_message())),
        )
    } else {
        (v, Mode3StepView::AwaitUploads(v.mode_3.generation as u64))
    }
}

/// After waiting for the uploads of `generation` (`readiness` is how that
/// wait ended): cancelled, the finalizer drops the batch; otherwise it
/// publishes the batch, a failed wait only adding a warning, and is done, or,
/// when a newer batch began meanwhile, polls again.
pub open spec fn finalize_after_uploads_spec(v: AutomationView, expected: u64, generation: u64, readiness: Result<(), Seq<char>>) -> (AutomationView, Mode3StepView) {
    if v.epoch != expected {
        (cancel_finalizer_spec(v), Mode3StepView::Finish(Err(cancelled_message())))
    } else {
        let warning = match readiness {
            Ok(()) => None,
            Err(e) => Some(e),
        };
        let (w, published) = complete_mode_3_spec(v, generation, warning);
        (w, if published {
            Mode3StepView::Finish(Ok(()))
        } else {
            Mode3StepView::PollAgain
        })
    }
}

impl AutomationStore {
    pub fn new() -> (r: Self)
        ensures
            r@.snapshot == idle_snapshot(),
            !r@.reserved,
            !r@.resetting,
            r@.epoch == 0,
            r@.prepared.len() == 0,
            r@.refresh.len() == 0,
            r@.previous.len() == 0,
            !r@.restore_pending,
            !r@.restored,
            !r@.keep_existing,
            r@.mode_3.active_jobs == 0,
            r@.mode_3.generation == 0,
            !r@.mode_3.finalizing,
            r@.mode_3.successful_injections == 0,
            r@.mode_3.upload_errors.len() == 0,
    {
        let r = AutomationStore {
            snapshot: AutomationSnapshot::default(),
            caption_workflow_reserved: false,
            mode_3_coordinator: Mode3CoordinatorState {
                active_jobs: 0,
                generation: 0,
                finalizing: false,
                successful_injections: 0,
                upload_errors: Vec::new(),
            },
            cancellation_epoch: 0,
            resetting: false,
            prepared_prompt: String::new(),
            refresh_prompt: String::new(),
            refresh_restore_pending: false,
            refresh_prompt_restored: false,
            previous_submitted_prompt: String::new(),
            preferences: AutomationPreferences { keep_existing_prompt: false },
        };
        r
    }

    /// See `reserve_spec`.
    pub fn try_reserve_caption_workflow(&mut self) -> (r: Result<CaptionWorkflowPermit, String>)
        ensures
            (final(self)@, permit_view(r)) == reserve_spec(old(self)@),
    {
        if self.resetting {
            return Err(
                String::from_str(
                    "Automation is resetting. Try the shortcut again after navigation finishes.",
                ),
            );
        }
        match try_reserve_caption_workflow_flag(
            &mut self.caption_workflow_reserved,
            self.cancellation_epoch,
        ) {
            Some(permit) => Ok(permit),
            None => Err(
                String::from_str(
                    "Mode 1 or Mode 2 automation is already running. The new request was ignored.",
                ),
            ),
        }
    }

    pub fn release_caption_workflow(&mut self)
        ensures
            final(self)@ == release_spec(old(self)@),
    {
        self.caption_workflow_reserved = false;
    }

    /// Whether a worker holding `token` was cancelled.
    pub fn is_cancelled(&self, token: &CancellationToken) -> (r: bool)
        ensures
            r == (self.cancellation_epoch != token.expected),
    {
        token.is_cancelled(self.cancellation_epoch)
    }

    /// A worker's check before its next step: the cancellation error once
    /// navigation cancelled it.
    pub fn ensure_not_cancelled(&self, token: &CancellationToken) -> (r: Result<(), String>)
        ensures
            r is Ok <==> self.cancellation_epoch == token.expected,
            r matches Err(e) ==> e@ == cancelled_message(),
    {
        if self.is_cancelled(token) {
            Err(cancelled_error())
        } else {
            Ok(())
        }
    }

    /// See `begin_reset_spec`.
    pub fn begin_navigation_reset(&mut self) -> (r: Result<(), String>)
        ensures
            (final(self)@, unit_view(r)) == begin_reset_spec(old(self)@),
    {
        if self.resetting {
            return Err(String::from_str("Automation reset is already in progress."));
        }
        self.resetting = true;
        self.cancellation_epoch = if self.cancellation_epoch == u64::MAX {
            0
        } else {
            self.cancellation_epoch + 1
        };
        Ok(())
    }

    pub fn end_navigation_reset(&mut self)
        ensures
            final(self)@ == (AutomationView { resetting: false, ..old(self)@ }),
    {
        self.resetting = false;
    }

    /// See `workers_idle_spec`.
    pub fn workers_idle(&self) -> (r: bool)
        ensures
            r == workers_idle_spec(self@),
    {
        !self.caption_workflow_reserved && !(self.mode_3_coordinator.active_jobs > 0
            || self.mode_3_coordinator.finalizing)
    }

    /// See `reset_runtime_spec`.
    pub fn reset_automation_runtime(&mut self)
        ensures
            final(self)@ == reset_runtime_spec(old(self)@),
    {
        self.mode_3_coordinator.active_jobs = 0;
        reset_mode_3_state(&mut self.mode_3_coordinator);
        self.snapshot = AutomationSnapshot::default();
    }

    /// Whether Refresh must read the draft from the page (no workflow prompt
    /// is in progress).
    pub fn refresh_needs_page_prompt(&self) -> (r: bool)
        ensures
            r == (trim(self@.prepared).len() == 0),
    {
        let p = chars_of(self.prepared_prompt.as_str());
        trim_chars(&p).len() == 0
    }

    /// See `store_refresh_prompt_spec`.
    pub fn store_refresh_prompt(&mut self, page_prompt: String)
        ensures
            final(self)@ == store_refresh_prompt_spec(old(self)@, page_prompt@),
    {
        let needs_page = self.refresh_needs_page_prompt();
        let restore = if needs_page {
            page_prompt
        } else {
            self.prepared_prompt.clone()
        };
        let r = chars_of(restore.as_str());
        let has_prompt = trim_chars(&r).len() > 0;
        self.refresh_prompt = restore;
        self.refresh_restore_pending = has_prompt;
        self.refresh_prompt_restored = false;
        self.prepared_prompt = String::new();
        self.reset_automation_runtime();
    }

    /// See `reset_for_home_spec`.
    pub fn reset_for_home(&mut self)
        ensures
            final(self)@ == reset_for_home_spec(old(self)@),
    {
        self.prepared_prompt = String::new();
        self.refresh_prompt = String::new();
        self.previous_submitted_prompt = String::new();
        self.refresh_restore_pending = false;
        self.refresh_prompt_restored = false;
        self.reset_automation_runtime();
    }

    /// Takes the pending-restore flag after a page load.
    pub fn take_refresh_restore(&mut self) -> (r: bool)
        ensures
            r == old(self)@.restore_pending,
            final(self)@ == (AutomationView { restore_pending: false, ..old(self)@ }),
    {
        let r = self.refresh_restore_pending;
        self.refresh_restore_pending = false;
        r
    }

    /// The draft that the restore worker should put back, if it should go on.
    pub fn refresh_prompt_for_restore(&self) -> (r: Option<String>)
        ensures
            (self@.resetting || trim(self@.refresh).len() == 0) ==> r is None,
            !(self@.resetting || trim(self@.refresh).len() == 0) ==> (r matches Some(p) && p@
                == self@.refresh),
    {
        if self.resetting {
            return None;
        }
        let p = chars_of(self.refresh_prompt.as_str());
        if trim_chars(&p).len() == 0 {
            None
        } else {
            Some(self.refresh_prompt.clone())
        }
    }

    pub fn mark_refresh_prompt_restored(&mut self)
        ensures
            final(self)@ == (AutomationView { restored: true, ..old(self)@ }),
    {
        self.refresh_prompt_restored = true;
    }

    /// Whether a Refresh draft exists (so the composer must be read first).
    pub fn has_refresh_prompt(&self) -> (r: bool)
        ensures
            r == (trim(self@.refresh).len() > 0),
    {
        let p = chars_of(self.refresh_prompt.as_str());
        trim_chars(&p).len() > 0
    }

    /// See `prompt_body_spec`.
    pub fn prepare_caption_prompt_body(&mut self, new_caption_text: &str, live_refresh_prompt: Option<&str>) -> (r: String)
        ensures
            (final(self)@, r@) == prompt_body_spec(
                old(self)@,
                new_caption_text@,
                match live_refresh_prompt {
                    Some(s) => Some(s@),
                    None => None,
                },
            ),
    {
        let caption = chars_of(new_caption_text);
        let refresh = chars_of(self.refresh_prompt.as_str());
        if trim_chars(&refresh).len() > 0 {
            match live_refresh_prompt {
                Some(live) => {
                    let lp = chars_of(live);
                    if trim_chars(&lp).len() > 0 {
                        return string_of(&merge_prompt_text_chars(&lp, &caption));
                    }
                    if self.refresh_prompt_restored {
                        self.refresh_prompt = String::new();
                    } else {
                        return string_of(&merge_prompt_text_chars(&refresh, &caption));
                    }
                },
                None => {
                    return string_of(&merge_prompt_text_chars(&refresh, &caption));
                },
            }
        }
        if !self.preferences.keep_existing_prompt {
            return String::from_str(new_caption_text);
        }
        let existing = chars_of(self.previous_submitted_prompt.as_str());
        string_of(&merge_prompt_text_chars(&existing, &caption))
    }

    pub fn remember_prepared_prompt(&mut self, prompt_text: &str)
        ensures
            final(self)@ == (AutomationView { prepared: prompt_text@, ..old(self)@ }),
    {
        self.prepared_prompt = String::from_str(prompt_text);
    }

    /// See `finish_prepared_spec`.
    pub fn finish_prepared_prompt(&mut self, prompt_text: &str, submitted: bool, cancelled: bool)
        ensures
            final(self)@ == finish_prepared_spec(old(self)@, prompt_text@, submitted, cancelled),
    {
        if submitted || !cancelled {
            self.prepared_prompt = String::new();
        }
        if submitted {
            self.previous_submitted_prompt = String::from_str(prompt_text);
            self.refresh_prompt = String::new();
            self.refresh_restore_pending = false;
            self.refresh_prompt_restored = false;
        }
    }

    /// See `start_mode_3_spec`.
    pub fn start_mode_3_job(&mut self) -> (r: Result<CancellationToken, String>)
        requires
            old(self).mode_3_coordinator.active_jobs < usize::MAX,
        ensures
            (final(self)@, token_view(r)) == start_mode_3_spec(old(self)@),
    {
        if self.resetting {
            return Err(
                String::from_str(
                    "Automation is resetting. Try the shortcut again after navigation finishes.",
                ),
            );
        }
        self.mode_3_coordinator.active_jobs = self.mode_3_coordinator.active_jobs + 1;
        self.mode_3_coordinator.generation = if self.mode_3_coordinator.generation == u64::MAX {
            0
        } else {
            self.mode_3_coordinator.generation + 1
        };
        self.snapshot = AutomationSnapshot {
            is_running: true,
            last_mode: Some(AutomationMode::ScreenshotOnly),
            upload_state: UploadState::Uploading,
            last_error: None,
        };
        Ok(CancellationToken { expected: self.cancellation_epoch })
    }

    /// Records the end of one Mode 3 job; see `finish_mode_3_job_spec`.
    pub fn finish_mode_3_job(&mut self, upload_result: Result<(), String>, allow_finalize: bool) -> (r: bool)
        requires
            old(self).mode_3_coordinator.successful_injections < usize::MAX,
        ensures
            final(self)@ == (AutomationView {
                mode_3: finish_mode_3_job_spec(old(self)@.mode_3, err_view(upload_result), allow_finalize).0,
                ..old(self)@
            }),
            r == finish_mode_3_job_spec(old(self)@.mode_3, err_view(upload_result), allow_finalize).1,
    {
        finish_mode_3_job(&mut self.mode_3_coordinator, upload_result, allow_finalize)
    }

    /// The generation and success count of the batch once no job is active.
    pub fn mode_3_batch_ready(&self) -> (r: Option<(u64, usize)>)
        ensures
            self@.mode_3.active_jobs == 0 ==> r == Some(
                (self.mode_3_coordinator.generation, self.mode_3_coordinator.successful_injections),
            ),
            self@.mode_3.active_jobs != 0 ==> r is None,
    {
        if self.mode_3_coordinator.active_jobs == 0 {
            Some((self.mode_3_coordinator.generation, self.mode_3_coordinator.successful_injections))
        } else {
            None
        }
    }

    /// See `complete_mode_3_spec`.
    pub fn complete_mode_3_upload_batch(&mut self, generation: u64, readiness_warning: Option<String>) -> (r: bool)
        ensures
            (final(self)@, r) == complete_mode_3_spec(
                old(self)@,
                generation,
                opt_string_view(readiness_warning),
            ),
    {
        if self.mode_3_coordinator.active_jobs != 0 || self.mode_3_coordinator.generation
            != generation {
            return false;
        }
        let mut warnings: Vec<String> = Vec::new();
        let mut i: usize = 0;
        while i < self.mode_3_coordinator.upload_errors.len()
            invariant
                i <= self.mode_3_coordinator.upload_errors@.len(),
                string_seq_view(warnings@) =~= string_seq_view(
                    self.mode_3_coordinator.upload_errors@,
                ).take(i as int),
            decreases self.mode_3_coordinator.upload_errors@.len() - i,
        {
            let w = self.mode_3_coordinator.upload_errors[i].clone();
            let ghost before = warnings@;
            warnings.push(w);
            assert(string_seq_view(warnings@) =~= string_seq_view(before).push(w@));
            assert(string_seq_view(self.mode_3_coordinator.upload_errors@).take(i as int + 1)
                =~= string_seq_view(self.mode_3_coordinator.upload_errors@).take(i as int).push(
                w@,
            ));
            i = i + 1;
        }
        assert(string_seq_view(self.mode_3_coordinator.upload_errors@).take(
            self.mode_3_coordinator.upload_errors@.len() as int,
        ) =~= string_seq_view(self.mode_3_coordinator.upload_errors@));
        if let Some(w) = readiness_warning {
            let ghost before = warnings@;
            let ghost wv = w@;
            warnings.push(w);
            assert(string_seq_view(warnings@) =~= string_seq_view(before).push(wv));
        }
        let message = format_mode_3_warnings(&warnings);
        reset_mode_3_state(&mut self.mode_3_coordinator);
        self.snapshot.is_running = false;
        self.snapshot.upload_state = UploadState::Ready;
        self.snapshot.last_error = message;
        true
    }

    /// Drops a finalizer that was cancelled.
    pub fn cancel_mode_3_finalizer(&mut self)
        ensures
            final(self)@ == (AutomationView {
                mode_3: reset_mode_3_spec(old(self)@.mode_3),
                ..old(self)@
            }),
    {
        reset_mode_3_state(&mut self.mode_3_coordinator);
    }

    /// Ends a Mode 3 batch in which no screenshot reached the composer; returns
    /// the error.
    pub fn fail_mode_3_batch_without_submission(&mut self, message: String) -> (r: String)
        ensures
            r@ == message@,
            final(self)@ == (AutomationView {
                mode_3: reset_mode_3_spec(old(self)@.mode_3),
                snapshot: SnapshotView {
                    is_running: false,
                    upload_state: UploadState::Failed,
                    last_error: Some(message@),
                    ..old(self)@.snapshot
                },
                ..old(self)@
            }),
    {
        reset_mode_3_state(&mut self.mode_3_coordinator);
        self.snapshot.is_running = false;
        self.snapshot.upload_state = UploadState::Failed;
        self.snapshot.last_error = Some(message.clone());
        message
    }

    /// See `finalize_poll_spec`.
    pub fn mode_3_finalize_poll(&mut self, token: &CancellationToken) -> (r: Mode3FinalizeStep)
        ensures
            (final(self)@, mode_3_step_view(r)) == finalize_poll_spec(old(self)@, token.expected),
    {
        if self.is_cancelled(token) {
            self.cancel_mode_3_finalizer();
            return Mode3FinalizeStep::Finish(Err(cancelled_error()));
        }
        match self.mode_3_batch_ready() {
            None => Mode3FinalizeStep::Wait,
            Some((generation, successful_injections)) => {
                if successful_injections == 0 {
                    let message = self.fail_mode_3_batch_without_submission(
                        string_of(
                            &chars_of("Mode 3 could not add any screenshots to the ChatGPT composer."),
                        ),
                    );
                    Mode3FinalizeStep::Finish(Err(message))
                } else {
                    Mode3FinalizeStep::AwaitUploads(generation)
                }
            },
        }
    }

    /// See `finalize_after_uploads_spec`.
    pub fn mode_3_finalize_after_uploads(
        &mut self,
        token: &CancellationToken,
        generation: u64,
        readiness: Result<(), String>,
    ) -> (r: Mode3FinalizeStep)
        ensures
            (final(self)@, mode_3_step_view(r)) == finalize_after_uploads_spec(
                old(self)@,
                token.expected,
                generation,
                match readiness {
                    Ok(()) => Ok(()),
                    Err(e) => Err(e@),
                },
            ),
    {
        if self.is_cancelled(token) {
            self.cancel_mode_3_finalizer();
            return Mode3FinalizeStep::Finish(Err(cancelled_error()));
        }
        let warning = match readiness {
            Ok(()) => None,
            Err(e) => Some(e),
        };
        if self.complete_mode_3_upload_batch(generation, warning) {
            Mode3FinalizeStep::Finish(Ok(()))
        } else {
            Mode3FinalizeStep::PollAgain
        }
    }

    /// Publishes the start of a workflow.
    pub fn begin_workflow(&mut self, mode: AutomationMode)
        ensures
            final(self)@ == (AutomationView {
                snapshot: SnapshotView {
                    is_running: true,
                    last_mode: Some(mode),
                    last_error: None,
                    ..old(self)@.snapshot
                },
                ..old(self)@
            }),
    {
        self.snapshot.is_running = true;
        self.snapshot.last_mode = Some(mode);
        self.snapshot.last_error = None;
    }

    pub fn set_upload_state(&mut self, upload_state: UploadState)
        ensures
            final(self)@ == (AutomationView {
                snapshot: SnapshotView { upload_state, ..old(self)@.snapshot },
                ..old(self)@
            }),
    {
        self.snapshot.upload_state = upload_state;
    }

    pub fn set_last_error(&mut self, message: String)
        ensures
            final(self)@ == (AutomationView {
                snapshot: SnapshotView { last_error: Some(message@), ..old(self)@.snapshot },
                ..old(self)@
            }),
    {
        self.snapshot.last_error = Some(message);
    }

    /// See `finish_workflow_spec`.
    pub fn finish_workflow(&mut self, result: Result<UploadState, String>) -> (r: Result<(), AutomationCommandError>)
        ensures
            (final(self)@, command_error_view(r)) == finish_workflow_spec(
                old(self)@,
                workflow_result_view(result),
            ),
    {
        match result {
            Ok(upload_state) => {
                self.snapshot.is_running = false;
                self.snapshot.upload_state = upload_state;
                Ok(())
            },
            Err(message) => {
                if is_cancelled_error(message.as_str()) {
                    return Err(AutomationCommandError { code: "automation_cancelled", message });
                }
                self.snapshot.is_running = false;
                self.snapshot.upload_state = UploadState::Failed;
                self.snapshot.last_error = Some(message.clone());
                Err(AutomationCommandError::automation_failed(message))
            },
        }
    }

    pub fn apply_preferences(&mut self, preferences: AutomationPreferences)
        ensures
            final(self)@ == (AutomationView {
                keep_existing: preferences.keep_existing_prompt,
                ..old(self)@
            }),
    {
        self.preferences = preferences;
    }
}

/// `None` without warnings; otherwise the warnings after a fixed explanation,
/// separated by "; ".
pub fn format_mode_3_warnings(warnings: &Vec<String>) -> (r: Option<String>)
    ensures
        opt_string_view(r) == format_mode_3_warnings_spec(string_seq_view(warnings@)),
{
    if warnings.len() == 0 {
        assert(string_seq_view(warnings@).len() == 0);
        return None;
    }
    let ghost ws = string_seq_view(warnings@);
    let mut out = chars_of(
        "Mode 3 uploaded the available screenshots and ignored upload failures: ",
    );
    let sep = chars_of("; ");
    let ghost prefix = out@;
    let first = chars_of(warnings[0].as_str());
    append_chars(&mut out, &first);
    assert(ws.take(1) =~= seq![ws[0]]);
    assert(join_with(ws.take(1), sep@) == ws[0]);
    let mut i: usize = 1;
    while i < warnings.len()
        invariant
            ws == string_seq_view(warnings@),
            1 <= i <= warnings@.len(),
            sep@ == "; "@,
            prefix == mode_3_warning_prefix(),
            out@ == prefix + join_with(ws.take(i as int), sep@),
        decreases warnings@.len() - i,
    {
        let w = chars_of(warnings[i].as_str());
        assert(ws.take(i as int + 1).drop_last() =~= ws.take(i as int));
        append_chars(&mut out, &sep);
        append_chars(&mut out, &w);
        assert(out@ =~= prefix + join_with(ws.take(i as int + 1), sep@));
        i = i + 1;
    }
    assert(ws.take(warnings@.len() as int) =~= ws);
    Some(string_of(&out))
}

// ---------------------------------------------------------------------------
// Laws
// ---------------------------------------------------------------------------

/// Law: only one Mode 1/2 workflow can hold the caption batch; once released,
/// the next request can take it again unless a reset is running.
pub proof fn law_single_caption_workflow(v: AutomationView)
    ensures
        reserve_spec(v).1 is Ok ==> reserve_spec(reserve_spec(v).0).1 == Err::<u64, Seq<char>>(
            busy_message(),
        ),
        reserve_spec(v).1 is Ok ==> reserve_spec(release_spec(reserve_spec(v).0)).1 is Ok,
{
}

/// Law: a navigation reset cancels every worker started before it.
pub proof fn law_reset_cancels_earlier_workers(v: AutomationView, token: CancellationToken)
    requires
        token.expected == v.epoch,
    ensures
        begin_reset_spec(v).1 is Ok ==> begin_reset_spec(v).0.epoch != token.expected,
{
}

/// Law: Refresh keeps the prompt of a Mode 1/2 workflow in progress, and the
/// next Mode 1/2 run before the restore combines the new captions with it.
pub proof fn law_refresh_keeps_prepared_prompt(v: AutomationView, page_prompt: Seq<char>, new_caption: Seq<char>)
    requires
        trim(v.prepared).len() > 0,
    ensures
        store_refresh_prompt_spec(v, page_prompt).refresh == v.prepared,
        store_refresh_prompt_spec(v, page_prompt).restore_pending,
        prompt_body_spec(store_refresh_prompt_spec(v, page_prompt), new_caption, None).1
            == spec_merge_prompt_text(v.prepared, new_caption),
{
}

/// Law: with "keep existing prompt" off, the previously submitted prompt plays
/// no part in the next prompt: without a Refresh draft the prompt body is
/// exactly the new caption batch, and in every case two stores that differ
/// only in the previous prompt build the same body.
pub proof fn law_previous_prompt_needs_keep_existing(
    v: AutomationView,
    other_previous: Seq<char>,
    new_caption: Seq<char>,
    live: Option<Seq<char>>,
)
    requires
        !v.keep_existing,
    ensures
        trim(v.refresh).len() == 0 ==> prompt_body_spec(v, new_caption, live).1 == new_caption,
        prompt_body_spec(AutomationView { previous: other_previous, ..v }, new_caption, live).1
            == prompt_body_spec(v, new_caption, live).1,
{
}

/// Law: Home forgets every kept prompt, so the next run starts from the new
/// captions alone.
pub proof fn law_home_forgets_prompts(v: AutomationView, new_caption: Seq<char>)
    ensures
        reset_for_home_spec(v).prepared.len() == 0,
        reset_for_home_spec(v).refresh.len() == 0,
        reset_for_home_spec(v).previous.len() == 0,
        reset_for_home_spec(v).snapshot == idle_snapshot(),
        workers_idle_spec(reset_for_home_spec(v)) == !v.reserved,
        !v.keep_existing ==> prompt_body_spec(reset_for_home_spec(v), new_caption, None).1
            == new_caption,
        v.keep_existing ==> prompt_body_spec(reset_for_home_spec(v), new_caption, None).1
            == spec_merge_prompt_text(Seq::empty(), new_caption),
{
    assert(trim(Seq::<char>::empty()) =~= Seq::<char>::empty());
}

/// Law: with "keep existing prompt" on, a submitted prompt is the base that
/// the next run adds its new captions to.
pub proof fn law_submitted_prompt_is_kept(v: AutomationView, prompt: Seq<char>, new_caption: Seq<char>, cancelled: bool)
    requires
        v.keep_existing,
    ensures
        prompt_body_spec(finish_prepared_spec(v, prompt, true, cancelled), new_caption, None).1
            == spec_merge_prompt_text(prompt, new_caption),
{
    assert(trim(Seq::<char>::empty()) =~= Seq::<char>::empty());
}

} // verus!
