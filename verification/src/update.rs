//! The decisions of the desktop update check. The application performs each
//! action (checking the release, asking the user, installing, restarting)
//! and hands back what came of it; this module says what to do next. Nothing
//! is installed unless the user agreed to that very version.
use vstd::prelude::*;

use crate::text::owned;
use vstd::string::StringExecFns;

verus! {

/// Where the update check stands.
#[derive(Clone, Copy, Debug, PartialEq, Eq, Structural)]
pub enum UpdateState {
    /// Waiting for the release check.
    Checking,
    /// Waiting for the user's answer to the prompt.
    Asking,
    /// Waiting for the installation.
    Installing,
    /// Finished.
    Done,
}

/// What came of the last action.
#[derive(Debug)]
pub enum UpdateEvent {
    /// The release check found this newer version, or none.
    Checked(Option<String>),
    /// The release check failed with this message.
    CheckFailed(String),
    /// The user agreed to install, or declined.
    Answered(bool),
    /// The installation finished, or failed with this message.
    Installed(Result<(), String>),
}

pub enum UpdateEventView {
    Checked(Option<Seq<char>>),
    CheckFailed(Seq<char>),
    Answered(bool),
    Installed(Result<(), Seq<char>>),
}

impl DeepView for UpdateEvent {
    type V = UpdateEventView;

    open spec fn deep_view(&self) -> UpdateEventView {
        match self {
            UpdateEvent::Checked(v) => UpdateEventView::Checked(v.deep_view()),
            UpdateEvent::CheckFailed(e) => UpdateEventView::CheckFailed(e@),
            UpdateEvent::Answered(yes) => UpdateEventView::Answered(*yes),
            UpdateEvent::Installed(r) => UpdateEventView::Installed(
                match r {
                    Ok(()) => Ok(()),
                    Err(e) => Err(e@),
                },
            ),
        }
    }
}

/// What the application does next.
#[derive(Debug)]
pub enum UpdateAction {
    /// Nothing more.
    Stop,
    /// Log this warning and stop.
    Warn(String),
    /// Log that `version` is available and ask the user, in a dialog with
    /// this title and message, whether to install it; `install` and `later`
    /// label the two buttons.
    Ask { version: String, title: String, message: String, install: String, later: String },
    /// Download and install the update.
    Install,
    /// Show this error dialog, then log `error` as a warning and stop.
    ReportFailure { title: String, message: String, error: String },
    /// Restart into the new version.
    Restart,
}

pub enum UpdateActionView {
    Stop,
    Warn(Seq<char>),
    Ask { version: Seq<char>, title: Seq<char>, message: Seq<char>, install: Seq<char>, later: Seq<char> },
    Install,
    ReportFailure { title: Seq<char>, message: Seq<char>, error: Seq<char> },
    Restart,
}

impl DeepView for UpdateAction {
    type V = UpdateActionView;

    open spec fn deep_view(&self) -> UpdateActionView {
        match self {
            UpdateAction::Stop => UpdateActionView::Stop,
            UpdateAction::Warn(w) => UpdateActionView::Warn(w@),
            UpdateAction::Ask { version, title, message, install, later } => UpdateActionView::Ask {
                version: version@,
                title: title@,
                message: message@,
                install: install@,
                later: later@,
            },
            UpdateAction::Install => UpdateActionView::Install,
            UpdateAction::ReportFailure { title, message, error } => UpdateActionView::ReportFailure {
                title: title@,
                message: message@,
                error: error@,
            },
            UpdateAction::Restart => UpdateActionView::Restart,
        }
    }
}

pub const TITLE: &'static str = "Güncelleme";
pub const PROMPT_START: &'static str = "Verditum ";
pub const PROMPT_END: &'static str = " sürümü yayımlandı. Şimdi yüklensin mi? Uygulama, yükleme bitince yeniden başlatılacak.";
pub const INSTALL: &'static str = "Yükle";
pub const LATER: &'static str = "Sonra";
pub const INSTALL_FAILED: &'static str = "Güncelleme yüklenemedi. Uygulama bir sonraki açılışta yeniden deneyecek.";

/// The state after the event.
pub open spec fn next_state(state: UpdateState, event: UpdateEventView) -> UpdateState {
    match (state, event) {
        (UpdateState::Checking, UpdateEventView::Checked(Some(_))) => UpdateState::Asking,
        (UpdateState::Asking, UpdateEventView::Answered(true)) => UpdateState::Installing,
        _ => UpdateState::Done,
    }
}

/// The action that the event calls for. An event that the state does not
/// wait for ends the check.
pub open spec fn action_for(state: UpdateState, event: UpdateEventView) -> UpdateActionView {
    match (state, event) {
        (UpdateState::Checking, UpdateEventView::Checked(Some(version))) => UpdateActionView::Ask {
            version,
            title: TITLE@,
            message: PROMPT_START@ + version + PROMPT_END@,
            install: INSTALL@,
            later: LATER@,
        },
        (UpdateState::Checking, UpdateEventView::CheckFailed(e)) => UpdateActionView::Warn(e),
        (UpdateState::Asking, UpdateEventView::Answered(true)) => UpdateActionView::Install,
        (UpdateState::Installing, UpdateEventView::Installed(Ok(()))) => UpdateActionView::Restart,
        (UpdateState::Installing, UpdateEventView::Installed(Err(e))) => UpdateActionView::ReportFailure {
            title: TITLE@,
            message: INSTALL_FAILED@,
            error: e,
        },
        _ => UpdateActionView::Stop,
    }
}

/// The next state and the action to perform after an event.
pub fn step(state: UpdateState, event: UpdateEvent) -> (next: (UpdateState, UpdateAction))
    ensures
        next.0 == next_state(state, event.deep_view()),
        next.1.deep_view() == action_for(state, event.deep_view()),
{
    match (state, event) {
        (UpdateState::Checking, UpdateEvent::Checked(Some(version))) => {
            let mut message = owned(PROMPT_START);
            message.append(version.as_str());
            message.append(PROMPT_END);
            (
                UpdateState::Asking,
                UpdateAction::Ask {
                    version,
                    title: owned(TITLE),
                    message,
                    install: owned(INSTALL),
                    later: owned(LATER),
                },
            )
        },
        (UpdateState::Checking, UpdateEvent::CheckFailed(e)) => (UpdateState::Done, UpdateAction::Warn(e)),
        (UpdateState::Asking, UpdateEvent::Answered(true)) => (UpdateState::Installing, UpdateAction::Install),
        (UpdateState::Installing, UpdateEvent::Installed(Ok(()))) => (UpdateState::Done, UpdateAction::Restart),
        (UpdateState::Installing, UpdateEvent::Installed(Err(e))) => (
            UpdateState::Done,
            UpdateAction::ReportFailure { title: owned(TITLE), message: owned(INSTALL_FAILED), error: e },
        ),
        _ => (UpdateState::Done, UpdateAction::Stop),
    }
}

/// The actions that a sequence of events calls for, from `state` on.
pub open spec fn run(state: UpdateState, events: Seq<UpdateEventView>) -> Seq<UpdateActionView>
    decreases events.len(),
{
    if events.len() == 0 {
        Seq::empty()
    } else {
        seq![action_for(state, events[0])] + run(next_state(state, events[0]), events.drop_first())
    }
}

proof fn lemma_run_index(state: UpdateState, events: Seq<UpdateEventView>, i: int)
    requires
        0 <= i < events.len(),
    ensures
        run(state, events).len() == events.len(),
        i == 0 ==> run(state, events)[i] == action_for(state, events[0]),
        i > 0 ==> run(state, events)[i] == run(next_state(state, events[0]), events.drop_first())[i - 1],
    decreases events.len(),
{
    lemma_run_len(next_state(state, events[0]), events.drop_first());
}

proof fn lemma_run_len(state: UpdateState, events: Seq<UpdateEventView>)
    ensures
        run(state, events).len() == events.len(),
    decreases events.len(),
{
    if events.len() > 0 {
        lemma_run_len(next_state(state, events[0]), events.drop_first());
    }
}

/// Every installation answers the user's consent: the event that calls for
/// it is the user agreeing.
pub proof fn lemma_install_needs_consent(state: UpdateState, events: Seq<UpdateEventView>, i: int)
    requires
        0 <= i < events.len(),
        run(state, events)[i] is Install,
    ensures
        events[i] == UpdateEventView::Answered(true),
    decreases events.len(),
{
    lemma_run_index(state, events, i);
    if i > 0 {
        lemma_install_needs_consent(next_state(state, events[0]), events.drop_first(), i - 1);
    }
}

/// Once installing or finished, nothing is installed again.
pub proof fn lemma_no_install_after(state: UpdateState, events: Seq<UpdateEventView>, i: int)
    requires
        state == UpdateState::Installing || state == UpdateState::Done,
        0 <= i < events.len(),
    ensures
        !(run(state, events)[i] is Install),
    decreases events.len(),
{
    lemma_run_index(state, events, i);
    if i > 0 {
        lemma_no_install_after(next_state(state, events[0]), events.drop_first(), i - 1);
    }
}

/// A check installs at most once, whatever happens.
pub proof fn lemma_install_at_most_once(state: UpdateState, events: Seq<UpdateEventView>, i: int, j: int)
    requires
        0 <= i < j < events.len(),
        run(state, events)[i] is Install,
    ensures
        !(run(state, events)[j] is Install),
    decreases events.len(),
{
    lemma_run_index(state, events, i);
    lemma_run_index(state, events, j);
    let next = next_state(state, events[0]);
    if i == 0 {
        lemma_no_install_after(next, events.drop_first(), j - 1);
    } else {
        lemma_install_at_most_once(next, events.drop_first(), i - 1, j - 1);
    }
}

/// A restart comes only after an installation that the same check asked for.
pub proof fn lemma_restart_follows_install(state: UpdateState, events: Seq<UpdateEventView>, i: int)
    requires
        state != UpdateState::Installing,
        0 <= i < events.len(),
        run(state, events)[i] is Restart,
    ensures
        exists|j: int| 0 <= j < i && #[trigger] run(state, events)[j] is Install,
    decreases events.len(),
{
    lemma_run_index(state, events, i);
    lemma_run_index(state, events, 0);
    let next = next_state(state, events[0]);
    let rest = events.drop_first();
    if next == UpdateState::Installing {
        assert(run(state, events)[0] is Install);
    } else {
        lemma_restart_follows_install(next, rest, i - 1);
        let j = choose|j: int| 0 <= j < i - 1 && #[trigger] run(next, rest)[j] is Install;
        lemma_run_index(state, events, j + 1);
        assert(run(state, events)[j + 1] is Install);
    }
}

/// Once finished, every further event is answered by doing nothing.
pub proof fn lemma_done_stays_done(events: Seq<UpdateEventView>, i: int)
    requires
        0 <= i < events.len(),
    ensures
        run(UpdateState::Done, events)[i] is Stop,
    decreases events.len(),
{
    lemma_run_index(UpdateState::Done, events, i);
    if i > 0 {
        lemma_done_stays_done(events.drop_first(), i - 1);
    }
}

} // verus!
