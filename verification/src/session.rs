//! A run of the application on a device, as a sequence of actions.
//!
//! The run waits until the device is unlocked, copies directories to it, launches the
//! application, copies the directories back and reports how the application ended. Each action
//! is carried out outside; its result decides on the next one.

use vstd::prelude::*;

use crate::device::DeviceError;

verus! {

/// How a run ends.
#[derive(Clone, Copy, Debug, PartialEq, Eq, Structural)]
pub enum Outcome {
    /// The application ended well and the directories are copied back.
    Success,
    /// The bundle has no identifier of the application.
    NoAppId,
    /// The last action failed, and its error is the error of the run.
    Failure,
    /// The application failed. Where copying back failed too, that is only a warning.
    RunFailed { code: Option<i32>, sync_failed: bool },
}

/// What is told of a run that has ended.
pub enum Report {
    Success,
    /// The error of the last action that failed.
    LastError,
    Error {
        error: DeviceError,
        /// Whether the error of the last action that failed is told as a warning.
        warns: bool,
    },
}

impl Outcome {
    /// What is told of a run that ended like this.
    pub fn report(self) -> (report: Report)
        ensures
            report == (match self {
                Outcome::Success => Report::Success,
                Outcome::Failure => Report::LastError,
                Outcome::NoAppId => Report::Error { error: DeviceError::NoAppId, warns: false },
                Outcome::RunFailed { code, sync_failed } => Report::Error {
                    error: DeviceError::RunFailed { code },
                    warns: sync_failed,
                },
            }),
    {
        match self {
            Outcome::Success => Report::Success,
            Outcome::Failure => Report::LastError,
            Outcome::NoAppId => Report::Error { error: DeviceError::NoAppId, warns: false },
            Outcome::RunFailed { code, sync_failed } => Report::Error {
                error: DeviceError::RunFailed { code },
                warns: sync_failed,
            },
        }
    }
}

/// What is to be done next. A directory is given by its place in the list of those that are
/// kept in step.
#[derive(Clone, Copy, Debug, PartialEq, Eq, Structural)]
pub enum Action {
    /// Ask whether the device is locked.
    QueryLock,
    /// Ask the user to unlock the device.
    Prompt,
    /// Let some time pass.
    Sleep,
    /// Ask once more whether the device is locked.
    QueryLockAgain,
    /// Tell the user that the device is unlocked.
    Thank,
    /// Find out whether the directory is on the host.
    FindHost(usize),
    /// Create the directory on the host.
    CreateHost(usize),
    /// Copy the directory to the device.
    CopyTo(usize),
    /// Launch the application and wait for its end.
    Launch,
    /// Find out whether the directory is on the device.
    FindDevice(usize),
    /// Find out whether the directory is still on the host.
    FindStale(usize),
    /// Remove the directory from the host.
    RemoveHost(usize),
    /// Create the directory on the host again.
    RecreateHost(usize),
    /// Copy the directory from the device.
    CopyFrom(usize),
    /// Nothing: the run has ended.
    Finish(Outcome),
}

/// The result of an action.
#[derive(Clone, Copy, Debug, PartialEq, Eq, Structural)]
pub struct Event {
    /// Whether it was carried out without an error.
    pub ok: bool,
    /// Whether the device is locked, the directory is there, or the application ended well.
    pub answer: bool,
    /// The exit code of the application, if it has one.
    pub code: Option<i32>,
}

/// A run.
#[derive(Clone, Copy, Debug, PartialEq, Eq, Structural)]
pub struct Session {
    /// The number of directories.
    pub dirs: usize,
    /// Whether the bundle has an identifier of the application.
    pub has_app_id: bool,
    /// How the application ended, once it has.
    pub ended_well: bool,
    pub code: Option<i32>,
    pub action: Action,
}

impl Session {
    /// How the run ends once the directories are copied back, or once copying them has failed.
    pub open spec fn outcome(self, sync_failed: bool) -> Outcome {
        if !self.ended_well {
            Outcome::RunFailed { code: self.code, sync_failed }
        } else if sync_failed {
            Outcome::Failure
        } else {
            Outcome::Success
        }
    }

    /// What is done once the device is unlocked.
    pub open spec fn when_unlocked(self) -> Action {
        if !self.has_app_id {
            Action::Finish(Outcome::NoAppId)
        } else {
            self.copy_to_from(0)
        }
    }

    /// Copying to the device, from the directory at `place` on.
    pub open spec fn copy_to_from(self, place: int) -> Action {
        if place < self.dirs {
            Action::FindHost(place as usize)
        } else {
            Action::Launch
        }
    }

    /// Copying from the device, from the directory at `place` on.
    pub open spec fn copy_back_from(self, place: int) -> Action {
        if place < self.dirs {
            Action::FindDevice(place as usize)
        } else {
            Action::Finish(self.outcome(false))
        }
    }

    /// The action that follows the current one.
    pub open spec fn following(self, event: Event) -> Action {
        let failure = Action::Finish(Outcome::Failure);
        let sync_failure = Action::Finish(self.outcome(true));
        match self.action {
            Action::QueryLock => if !event.ok {
                failure
            } else if event.answer {
                Action::Prompt
            } else {
                self.when_unlocked()
            },
            Action::Prompt => Action::Sleep,
            Action::Sleep => Action::QueryLockAgain,
            Action::QueryLockAgain => if !event.ok {
                failure
            } else if event.answer {
                Action::Sleep
            } else {
                Action::Thank
            },
            Action::Thank => self.when_unlocked(),
            Action::FindHost(place) => if event.answer {
                Action::CopyTo(place)
            } else {
                Action::CreateHost(place)
            },
            Action::CreateHost(place) => if event.ok {
                Action::CopyTo(place)
            } else {
                failure
            },
            Action::CopyTo(place) => if event.ok {
                self.copy_to_from(place + 1)
            } else {
                failure
            },
            Action::Launch => if event.ok {
                self.with_end(event).copy_back_from(0)
            } else {
                failure
            },
            Action::FindDevice(place) => if !event.ok {
                sync_failure
            } else if event.answer {
                Action::FindStale(place)
            } else {
                self.copy_back_from(place + 1)
            },
            Action::FindStale(place) => if event.answer {
                Action::RemoveHost(place)
            } else {
                Action::RecreateHost(place)
            },
            Action::RemoveHost(place) => if event.ok {
                Action::RecreateHost(place)
            } else {
                sync_failure
            },
            Action::RecreateHost(place) => if event.ok {
                Action::CopyFrom(place)
            } else {
                sync_failure
            },
            Action::CopyFrom(place) => if event.ok {
                self.copy_back_from(place + 1)
            } else {
                sync_failure
            },
            Action::Finish(outcome) => Action::Finish(outcome),
        }
    }

    /// The run once the end of the application is noted.
    pub open spec fn with_end(self, event: Event) -> Session {
        if self.action is Launch && event.ok {
            Session { ended_well: event.answer, code: event.code, ..self }
        } else {
            self
        }
    }

    /// The run after the current action.
    pub open spec fn next(self, event: Event) -> Session {
        Session { action: self.following(event), ..self.with_end(event) }
    }

    /// A run that has yet to begin.
    pub open spec fn fresh(dirs: usize, has_app_id: bool) -> Session {
        Session { dirs, has_app_id, ended_well: false, code: None, action: Action::QueryLock }
    }

    /// The run after as many actions as there are events.
    pub open spec fn after(self, events: Seq<Event>) -> Session
        decreases events.len(),
    {
        if events.len() == 0 {
            self
        } else {
            self.after(events.drop_last()).next(events.last())
        }
    }

    /// A run that begins with the question whether the device is locked.
    pub fn new(dirs: usize, has_app_id: bool) -> (session: Session)
        ensures
            session == Session::fresh(dirs, has_app_id),
    {
        Session { dirs, has_app_id, ended_well: false, code: None, action: Action::QueryLock }
    }

    fn end(&self, sync_failed: bool) -> (action: Action)
        ensures
            action == Action::Finish(self.outcome(sync_failed)),
    {
        if !self.ended_well {
            Action::Finish(Outcome::RunFailed { code: self.code, sync_failed })
        } else if sync_failed {
            Action::Finish(Outcome::Failure)
        } else {
            Action::Finish(Outcome::Success)
        }
    }

    fn begin(&self) -> (action: Action)
        ensures
            action == self.when_unlocked(),
    {
        if !self.has_app_id {
            Action::Finish(Outcome::NoAppId)
        } else if 0 < self.dirs {
            Action::FindHost(0)
        } else {
            Action::Launch
        }
    }

    fn copy_next_to(&self, place: usize) -> (action: Action)
        ensures
            action == self.copy_to_from(place + 1),
    {
        if self.dirs > 0 && place < self.dirs - 1 {
            Action::FindHost(place + 1)
        } else {
            Action::Launch
        }
    }

    fn copy_next_back(&self, place: usize) -> (action: Action)
        ensures
            action == self.copy_back_from(place + 1),
    {
        if self.dirs > 0 && place < self.dirs - 1 {
            Action::FindDevice(place + 1)
        } else {
            self.end(false)
        }
    }

    /// Takes the result of the current action and moves on to the next one.
    pub fn advance(&mut self, event: Event) -> (action: Action)
        ensures
            *final(self) == old(self).next(event),
            action == final(self).action,
    {
        let failure = Action::Finish(Outcome::Failure);
        let action = match self.action {
            Action::QueryLock => if !event.ok {
                failure
            } else if event.answer {
                Action::Prompt
            } else {
                self.begin()
            },
            Action::Prompt => Action::Sleep,
            Action::Sleep => Action::QueryLockAgain,
            Action::QueryLockAgain => if !event.ok {
                failure
            } else if event.answer {
                Action::Sleep
            } else {
                Action::Thank
            },
            Action::Thank => self.begin(),
            Action::FindHost(place) => if event.answer {
                Action::CopyTo(place)
            } else {
                Action::CreateHost(place)
            },
            Action::CreateHost(place) => if event.ok {
                Action::CopyTo(place)
            } else {
                failure
            },
            Action::CopyTo(place) => if event.ok {
                self.copy_next_to(place)
            } else {
                failure
            },
            Action::Launch => if event.ok {
                self.ended_well = event.answer;
                self.code = event.code;
                if 0 < self.dirs {
                    Action::FindDevice(0)
                } else {
                    self.end(false)
                }
            } else {
                failure
            },
            Action::FindDevice(place) => if !event.ok {
                self.end(true)
            } else if event.answer {
                Action::FindStale(place)
            } else {
                self.copy_next_back(place)
            },
            Action::FindStale(place) => if event.answer {
                Action::RemoveHost(place)
            } else {
                Action::RecreateHost(place)
            },
            Action::RemoveHost(place) => if event.ok {
                Action::RecreateHost(place)
            } else {
                self.end(true)
            },
            Action::RecreateHost(place) => if event.ok {
                Action::CopyFrom(place)
            } else {
                self.end(true)
            },
            Action::CopyFrom(place) => if event.ok {
                self.copy_next_back(place)
            } else {
                self.end(true)
            },
            Action::Finish(outcome) => Action::Finish(outcome),
        };
        self.action = action;
        action
    }
}

/// What has happened in a run after the given events.
impl Session {
    /// The action that the event at `k` is the result of.
    pub open spec fn action_at(self, events: Seq<Event>, k: int) -> Action {
        self.after(events.take(k)).action
    }

    /// Whether the event at `k` says that the action was carried out.
    pub open spec fn did(self, events: Seq<Event>, action: Action, k: int) -> bool {
        0 <= k < events.len() && self.action_at(events, k) == action && events[k].ok
    }

    /// Whether the event at `k` gives this answer to the action.
    pub open spec fn said(self, events: Seq<Event>, action: Action, answer: bool, k: int) -> bool {
        0 <= k < events.len() && self.action_at(events, k) == action && events[k].answer == answer
    }

    /// Whether the event at `k` is the end of the application.
    pub open spec fn ended(
        self,
        events: Seq<Event>,
        ended_well: bool,
        code: Option<i32>,
        k: int,
    ) -> bool {
        self.did(events, Action::Launch, k) && events[k].answer == ended_well && events[k].code
            == code
    }

    /// Whether the action was carried out.
    pub open spec fn has_done(self, events: Seq<Event>, action: Action) -> bool {
        exists|k: int| self.did(events, action, k)
    }

    /// Whether the action was answered like this.
    pub open spec fn has_said(self, events: Seq<Event>, action: Action, answer: bool) -> bool {
        exists|k: int| self.said(events, action, answer, k)
    }

    /// Whether the action was carried out and answered like this.
    pub open spec fn has_learned(self, events: Seq<Event>, action: Action, answer: bool) -> bool {
        exists|k: int| #[trigger]
            self.said(events, action, answer, k) && self.did(events, action, k)
    }

    /// Whether the application has ended like this.
    pub open spec fn has_ended(
        self,
        events: Seq<Event>,
        ended_well: bool,
        code: Option<i32>,
    ) -> bool {
        exists|k: int| self.ended(events, ended_well, code, k)
    }

    /// Whether the device was found to be unlocked.
    pub open spec fn was_unlocked(self, events: Seq<Event>) -> bool {
        self.has_learned(events, Action::QueryLock, false) || self.has_learned(
            events,
            Action::QueryLockAgain,
            false,
        )
    }

    /// Whether the event at `k` is an error of an action that can fail.
    pub open spec fn failed(self, events: Seq<Event>, k: int) -> bool {
        let action = self.action_at(events, k);
        0 <= k < events.len() && !events[k].ok && !(action is Prompt || action is Sleep
            || action is Thank || action is FindHost || action is FindStale || action is Finish)
    }

    /// Whether an action that can fail has failed.
    pub open spec fn has_failed(self, events: Seq<Event>) -> bool {
        exists|k: int| self.failed(events, k)
    }

    /// Whether the first `count` directories were copied to the device.
    pub open spec fn copied_to(self, events: Seq<Event>, count: int) -> bool {
        forall|i: usize| i < count ==> #[trigger] self.has_done(events, Action::CopyTo(i))
    }

    /// Whether the directory was copied from the device, or was not there.
    pub open spec fn came_back(self, events: Seq<Event>, place: usize) -> bool {
        self.has_done(events, Action::CopyFrom(place)) || self.has_learned(
            events,
            Action::FindDevice(place),
            false,
        )
    }

    /// Whether the first `count` directories came back.
    pub open spec fn copied_back(self, events: Seq<Event>, count: int) -> bool {
        forall|i: usize| i < count ==> #[trigger] self.came_back(events, i)
    }

    /// The directory that is being copied to the device.
    pub open spec fn place_to(self) -> Option<usize> {
        match self.action {
            Action::FindHost(place) => Some(place),
            Action::CreateHost(place) => Some(place),
            Action::CopyTo(place) => Some(place),
            _ => None,
        }
    }

    /// The directory that is being copied from the device.
    pub open spec fn place_back(self) -> Option<usize> {
        match self.action {
            Action::FindDevice(place) => Some(place),
            Action::FindStale(place) => Some(place),
            Action::RemoveHost(place) => Some(place),
            Action::RecreateHost(place) => Some(place),
            Action::CopyFrom(place) => Some(place),
            _ => None,
        }
    }

    /// The directory on the host that is being replaced.
    pub open spec fn place_replaced(self) -> Option<usize> {
        match self.action {
            Action::RemoveHost(place) => Some(place),
            Action::RecreateHost(place) => Some(place),
            Action::CopyFrom(place) => Some(place),
            _ => None,
        }
    }

    /// Whether the outcome of the application is reported.
    pub open spec fn reports(self) -> bool {
        self.action == Action::Finish(Outcome::Success) || (self.action matches Action::Finish(
            outcome,
        ) && outcome is RunFailed)
    }

    spec fn history(self, events: Seq<Event>) -> bool {
        let now = self.after(events);
        let dirs = now.dirs;
        &&& now.dirs == self.dirs
        &&& now.has_app_id == self.has_app_id
        &&& now.action is Thank ==> self.was_unlocked(events)
        &&& now.place_to() matches Some(place) ==> {
            &&& self.was_unlocked(events)
            &&& now.has_app_id
            &&& place < dirs
            &&& self.copied_to(events, place as int)
        }
        &&& now.action matches Action::CopyTo(place) ==> self.has_said(
            events,
            Action::FindHost(place),
            true,
        ) || self.has_done(events, Action::CreateHost(place))
        &&& now.action matches Action::CreateHost(place) ==> self.has_said(
            events,
            Action::FindHost(place),
            false,
        )
        &&& now.action matches Action::RemoveHost(place) ==> self.has_said(
            events,
            Action::FindStale(place),
            true,
        )
        &&& now.action matches Action::RecreateHost(place) ==> self.has_said(
            events,
            Action::FindStale(place),
            false,
        ) || self.has_done(events, Action::RemoveHost(place))
        &&& now.action matches Action::CopyFrom(place) ==> self.has_done(
            events,
            Action::RecreateHost(place),
        )
        &&& now.action == Action::Finish(Outcome::NoAppId) ==> !now.has_app_id
            && self.was_unlocked(events)
        &&& now.action == Action::Finish(Outcome::Failure) ==> self.has_failed(events)
        &&& (now.action is Launch || now.place_back() is Some || now.reports()) ==> {
            &&& self.was_unlocked(events)
            &&& now.has_app_id
            &&& self.copied_to(events, dirs as int)
        }
        &&& (now.place_back() is Some || now.reports()) ==> self.has_ended(
            events,
            now.ended_well,
            now.code,
        )
        &&& now.place_back() matches Some(place) ==> place < dirs && self.copied_back(
            events,
            place as int,
        )
        &&& now.action matches Action::FindStale(place) ==> self.has_learned(
            events,
            Action::FindDevice(place),
            true,
        )
        &&& now.place_replaced() matches Some(place) ==> self.has_learned(
            events,
            Action::FindDevice(place),
            true,
        )
        &&& now.action == Action::Finish(Outcome::Success) ==> now.ended_well && self.copied_back(
            events,
            dirs as int,
        )
        &&& now.action matches Action::Finish(Outcome::RunFailed { code, sync_failed }) ==> {
            &&& !now.ended_well
            &&& code == now.code
            &&& sync_failed ==> self.has_failed(events)
            &&& !sync_failed ==> self.copied_back(events, dirs as int)
        }
    }
}

proof fn lemma_kept(start: Session, events: Seq<Event>)
    requires
        events.len() > 0,
    ensures
        forall|action: Action|
            start.has_done(events.drop_last(), action) ==> #[trigger] start.has_done(
                events,
                action,
            ),
        forall|action: Action, answer: bool|
            start.has_said(events.drop_last(), action, answer) ==> #[trigger] start.has_said(
                events,
                action,
                answer,
            ),
        forall|action: Action, answer: bool|
            start.has_learned(events.drop_last(), action, answer) ==> #[trigger] start.has_learned(
                events,
                action,
                answer,
            ),
        forall|ended_well: bool, code: Option<i32>|
            start.has_ended(events.drop_last(), ended_well, code) ==> #[trigger] start.has_ended(
                events,
                ended_well,
                code,
            ),
        forall|place: usize|
            start.came_back(events.drop_last(), place) ==> #[trigger] start.came_back(
                events,
                place,
            ),
        start.has_failed(events.drop_last()) ==> start.has_failed(events),
{
    let before = events.drop_last();
    assert forall|k: int| 0 <= k < before.len() implies #[trigger] start.action_at(events, k)
        == start.action_at(before, k) && events[k] == before[k] by {
        assert(events.take(k) =~= before.take(k));
    }
    assert forall|action: Action| start.has_done(before, action) implies #[trigger] start.has_done(
        events,
        action,
    ) by {
        let k = choose|k: int| start.did(before, action, k);
        assert(start.action_at(events, k) == start.action_at(before, k));
        assert(start.did(events, action, k));
    }
    assert forall|action: Action, answer: bool|
        start.has_said(before, action, answer) implies #[trigger] start.has_said(
        events,
        action,
        answer,
    ) by {
        let k = choose|k: int| start.said(before, action, answer, k);
        assert(start.action_at(events, k) == start.action_at(before, k));
        assert(start.said(events, action, answer, k));
    }
    assert forall|action: Action, answer: bool|
        start.has_learned(before, action, answer) implies #[trigger] start.has_learned(
        events,
        action,
        answer,
    ) by {
        let k = choose|k: int| #[trigger]
            start.said(before, action, answer, k) && start.did(before, action, k);
        assert(start.action_at(events, k) == start.action_at(before, k));
        assert(start.said(events, action, answer, k) && start.did(events, action, k));
    }
    assert forall|ended_well: bool, code: Option<i32>|
        start.has_ended(before, ended_well, code) implies #[trigger] start.has_ended(
        events,
        ended_well,
        code,
    ) by {
        let k = choose|k: int| start.ended(before, ended_well, code, k);
        assert(start.action_at(events, k) == start.action_at(before, k));
        assert(start.ended(events, ended_well, code, k));
    }
    if start.has_failed(before) {
        let k = choose|k: int| start.failed(before, k);
        assert(start.action_at(events, k) == start.action_at(before, k));
        assert(start.failed(events, k));
    }
}

proof fn lemma_now(start: Session, events: Seq<Event>)
    requires
        events.len() > 0,
    ensures
        ({
            let action = start.after(events.drop_last()).action;
            let event = events.last();
            &&& event.ok ==> start.has_done(events, action)
            &&& start.has_said(events, action, event.answer)
            &&& event.ok ==> start.has_learned(events, action, event.answer)
            &&& event.ok && action is Launch ==> start.has_ended(events, event.answer, event.code)
            &&& !event.ok && !(action is Prompt || action is Sleep || action is Thank
                || action is FindHost || action is FindStale || action is Finish)
                ==> start.has_failed(events)
        }),
{
    let k = events.len() - 1;
    assert(events.take(k) =~= events.drop_last());
    let action = start.action_at(events, k);
    assert(start.said(events, action, events.last().answer, k));
    if events.last().ok {
        assert(start.did(events, action, k));
        if action is Launch {
            assert(start.ended(events, events.last().answer, events.last().code, k));
        }
    } else if !(action is Prompt || action is Sleep || action is Thank || action is FindHost
        || action is FindStale || action is Finish) {
        assert(start.failed(events, k));
    }
}

proof fn lemma_history(dirs: usize, has_app_id: bool, events: Seq<Event>)
    ensures
        Session::fresh(dirs, has_app_id).history(events),
    decreases events.len(),
{
    let start = Session::fresh(dirs, has_app_id);
    if events.len() > 0 {
        let before = events.drop_last();
        lemma_history(dirs, has_app_id, before);
        lemma_kept(start, events);
        lemma_now(start, events);
        let last = start.after(before);
        let now = start.after(events);
        assert(now == last.next(events.last()));
        assert(start.was_unlocked(before) ==> start.was_unlocked(events));
        if let Action::CopyTo(place) = last.action {
            if events.last().ok {
                assert forall|i: usize| i < place + 1 implies #[trigger] start.has_done(
                    events,
                    Action::CopyTo(i),
                ) by {
                    if i < place {
                        assert(start.has_done(before, Action::CopyTo(i)));
                    }
                }
            }
        }
        assert(forall|count: int|
            start.copied_to(before, count) ==> #[trigger] start.copied_to(events, count));
        assert(forall|count: int|
            start.copied_back(before, count) ==> #[trigger] start.copied_back(events, count));
        if let Some(place) = last.place_back() {
            assert(start.came_back(events, place) ==> start.copied_back(events, place + 1)) by {
                if start.came_back(events, place) {
                    assert forall|i: usize| i < place + 1 implies #[trigger] start.came_back(
                        events,
                        i,
                    ) by {
                        if i < place {
                            assert(start.came_back(before, i));
                        }
                    }
                }
            }
        }
    }
}

/// The application is launched only on a device that was found to be unlocked, and only once
/// all directories were copied to it.
pub proof fn launch_needs_all_copies(dirs: usize, has_app_id: bool, events: Seq<Event>)
    requires
        Session::fresh(dirs, has_app_id).after(events).action is Launch,
    ensures
        has_app_id,
        Session::fresh(dirs, has_app_id).was_unlocked(events),
        Session::fresh(dirs, has_app_id).copied_to(events, dirs as int),
{
    lemma_history(dirs, has_app_id, events);
}

/// A directory is copied to the device only if it was found on the host or created there, and
/// the directories before it were copied.
pub proof fn copied_directory_is_there(
    dirs: usize,
    has_app_id: bool,
    events: Seq<Event>,
    place: usize,
)
    requires
        Session::fresh(dirs, has_app_id).after(events).action == Action::CopyTo(place),
    ensures
        place < dirs,
        Session::fresh(dirs, has_app_id).was_unlocked(events),
        Session::fresh(dirs, has_app_id).copied_to(events, place as int),
        Session::fresh(dirs, has_app_id).has_said(events, Action::FindHost(place), true)
            || Session::fresh(dirs, has_app_id).has_done(events, Action::CreateHost(place)),
{
    lemma_history(dirs, has_app_id, events);
}

/// A directory on the host is touched after the launch only if it was found on the device.
pub proof fn missing_directory_leaves_host_untouched(
    dirs: usize,
    has_app_id: bool,
    events: Seq<Event>,
    place: usize,
)
    requires
        Session::fresh(dirs, has_app_id).after(events).place_replaced() == Some(place),
    ensures
        place < dirs,
        Session::fresh(dirs, has_app_id).has_learned(events, Action::FindDevice(place), true),
{
    lemma_history(dirs, has_app_id, events);
}

/// A directory is created on the host only if it was not found there. After the launch it is
/// removed only if it was found there, created again only if it was not or once it was removed,
/// and copied from the device only once it was created again.
pub proof fn host_directory_is_made_anew(
    dirs: usize,
    has_app_id: bool,
    events: Seq<Event>,
    place: usize,
)
    ensures
        ({
            let start = Session::fresh(dirs, has_app_id);
            let action = start.after(events).action;
            &&& action == Action::CreateHost(place) ==> start.has_said(
                events,
                Action::FindHost(place),
                false,
            )
            &&& action == Action::RemoveHost(place) ==> start.has_said(
                events,
                Action::FindStale(place),
                true,
            )
            &&& action == Action::RecreateHost(place) ==> start.has_said(
                events,
                Action::FindStale(place),
                false,
            ) || start.has_done(events, Action::RemoveHost(place))
            &&& action == Action::CopyFrom(place) ==> start.has_done(
                events,
                Action::RecreateHost(place),
            )
        }),
{
    lemma_history(dirs, has_app_id, events);
}

/// A run fails, or warns of a directory, only after an action that failed. It misses the
/// identifier of the application only if there is none and the device is unlocked.
pub proof fn bad_ends_have_their_causes(dirs: usize, has_app_id: bool, events: Seq<Event>)
    ensures
        ({
            let start = Session::fresh(dirs, has_app_id);
            match start.after(events).action {
                Action::Finish(Outcome::Failure) => start.has_failed(events),
                Action::Finish(Outcome::RunFailed { sync_failed, .. }) => sync_failed
                    ==> start.has_failed(events),
                Action::Finish(Outcome::NoAppId) => !has_app_id && start.was_unlocked(events),
                _ => true,
            }
        }),
{
    lemma_history(dirs, has_app_id, events);
}

/// A run without errors ends as the application has ended, or without it where that has no
/// identifier.
pub proof fn run_without_errors_ends_as_the_application(
    dirs: usize,
    has_app_id: bool,
    events: Seq<Event>,
)
    requires
        forall|k: int| 0 <= k < events.len() ==> (#[trigger] events[k]).ok,
        Session::fresh(dirs, has_app_id).after(events).action is Finish,
    ensures
        ({
            let start = Session::fresh(dirs, has_app_id);
            let action = start.after(events).action;
            &&& !has_app_id ==> action == Action::Finish(Outcome::NoAppId)
            &&& has_app_id ==> {
                ||| action == Action::Finish(Outcome::Success) && exists|code: Option<i32>|
                    start.has_ended(events, true, code)
                ||| exists|code: Option<i32>| #[trigger]
                    start.has_ended(events, false, code) && action == Action::Finish(
                        (Outcome::RunFailed { code, sync_failed: false }),
                    )
            }
        }),
{
    let start = Session::fresh(dirs, has_app_id);
    let now = start.after(events);
    lemma_history(dirs, has_app_id, events);
    if start.has_failed(events) {
        let k = choose|k: int| start.failed(events, k);
        assert(events[k].ok);
    }
    if has_app_id {
        assert(start.has_ended(events, now.ended_well, now.code));
    }
}

/// An error of an action that can fail ends the run. Before the end of the application the run
/// fails; behind it, it fails if the application has ended well, and else reports its code and
/// warns.
pub proof fn failed_action_ends_the_run(session: Session, event: Event)
    requires
        !event.ok,
    ensures
        ({
            let action = session.action;
            let now = session.next(event).action;
            &&& action is QueryLock || action is QueryLockAgain || action is CreateHost
                || action is CopyTo || action is Launch ==> now == Action::Finish(Outcome::Failure)
            &&& action is FindDevice || action is RemoveHost || action is RecreateHost
                || action is CopyFrom ==> {
                &&& session.ended_well ==> now == Action::Finish(Outcome::Failure)
                &&& !session.ended_well ==> now == Action::Finish(
                    (Outcome::RunFailed { code: session.code, sync_failed: true }),
                )
            }
        }),
{
}

/// Of the other actions it does not matter whether they were carried out without an error, and
/// only the end of the application has a code that matters.
pub proof fn other_results_do_not_matter(
    session: Session,
    first: Event,
    second: Event,
)
    requires
        first.answer == second.answer,
    ensures
        session.action is Prompt || session.action is Sleep || session.action is Thank
            || session.action is FindHost || session.action is FindStale ==> session.next(first)
            == session.next(second),
        first.ok == second.ok && !(session.action is Launch) ==> session.next(first)
            == session.next(second),
        !(session.action is Launch && first.ok) ==> session.next(first).ended_well
            == session.ended_well && session.next(first).code == session.code,
{
}

proof fn lemma_step(start: Session, events: Seq<Event>, k: int)
    requires
        0 <= k < events.len(),
    ensures
        start.after(events.take(k + 1)) == start.after(events.take(k)).next(events[k]),
        start.after(events.take(0)) == start,
{
    assert(events.take(k + 1).drop_last() =~= events.take(k));
    assert(events.take(k + 1).last() == events[k]);
}

/// A device that stays locked is asked again and again: the user is asked once to unlock it,
/// and some time passes before each further question.
pub proof fn locked_device_is_asked_again(
    dirs: usize,
    has_app_id: bool,
    events: Seq<Event>,
    k: int,
)
    requires
        forall|i: int|
            0 <= i < events.len() ==> (#[trigger] events[i]).ok && events[i].answer,
        0 <= k < events.len(),
    ensures
        ({
            let action = Session::fresh(dirs, has_app_id).action_at(events, k);
            &&& k == 0 ==> action is QueryLock
            &&& k == 1 ==> action is Prompt
            &&& k >= 2 && k % 2 == 0 ==> action is Sleep
            &&& k >= 2 && k % 2 == 1 ==> action is QueryLockAgain
        }),
    decreases k,
{
    let start = Session::fresh(dirs, has_app_id);
    if k == 0 {
        lemma_step(start, events, 0);
    } else {
        locked_device_is_asked_again(dirs, has_app_id, events, k - 1);
        lemma_step(start, events, k - 1);
        assert(events[k - 1].ok && events[k - 1].answer);
    }
}

/// A device that is found unlocked later is used as one that is found unlocked at once, but the
/// user is thanked.
pub proof fn unlocked_device_is_used(
    dirs: usize,
    has_app_id: bool,
    session: Session,
    event: Event,
    thanked: Event,
)
    requires
        event.ok,
        !event.answer,
        session == (Session { action: Action::QueryLockAgain, ..Session::fresh(dirs, has_app_id) }),
    ensures
        session.next(event).action is Thank,
        session.next(event).next(thanked) == Session::fresh(dirs, has_app_id).next(event),
        !has_app_id ==> session.next(event).next(thanked).action == Action::Finish(
            Outcome::NoAppId,
        ),
        has_app_id && dirs > 0 ==> session.next(event).next(thanked).action == Action::FindHost(0),
        has_app_id && dirs == 0 ==> session.next(event).next(thanked).action is Launch,
{
}

/// Where the device is unlocked, every directory is found and nothing fails, each directory is
/// copied to the device in turn; then the application is launched; then each is looked for on
/// the device and on the host, removed from the host, created again and copied back in turn.
#[verifier::spinoff_prover]
#[verifier::rlimit(40)]
pub proof fn directories_go_there_and_back(dirs: usize, events: Seq<Event>, place: usize)
    requires
        events.len() == 2 + 7 * dirs,
        forall|k: int|
            0 <= k < events.len() ==> (#[trigger] events[k]).ok && (events[k].answer <==> k > 0),
    ensures
        ({
            let start = Session::fresh(dirs, true);
            let launch = 1 + 2 * dirs;
            &&& place < dirs ==> {
                let to = 1 + 2 * place;
                let back = launch + 1 + 5 * place;
                &&& start.action_at(events, to) == Action::FindHost(place)
                &&& start.action_at(events, to + 1) == Action::CopyTo(place)
                &&& start.action_at(events, back) == Action::FindDevice(place)
                &&& start.action_at(events, back + 1) == Action::FindStale(place)
                &&& start.action_at(events, back + 2) == Action::RemoveHost(place)
                &&& start.action_at(events, back + 3) == Action::RecreateHost(place)
                &&& start.action_at(events, back + 4) == Action::CopyFrom(place)
            }
            &&& start.action_at(events, launch) is Launch
            &&& start.after(events).action == Action::Finish(Outcome::Success)
        }),
{
    let start = Session::fresh(dirs, true);
    lemma_there(dirs, events, dirs as int);
    lemma_back(dirs, events, dirs as int);
    assert(events.take(events.len() as int) =~= events);
    if place < dirs {
        let to = 1 + 2 * place;
        let back = 2 + 2 * dirs + 5 * place;
        lemma_there(dirs, events, place as int);
        lemma_step(start, events, to);
        lemma_back(dirs, events, place as int);
        lemma_step(start, events, back);
        lemma_step(start, events, back + 1);
        lemma_step(start, events, back + 2);
        lemma_step(start, events, back + 3);
    }
}

proof fn lemma_there(dirs: usize, events: Seq<Event>, count: int)
    requires
        0 <= count <= dirs,
        events.len() == 2 + 7 * dirs,
        forall|k: int|
            0 <= k < events.len() ==> (#[trigger] events[k]).ok && (events[k].answer <==> k > 0),
    ensures
        ({
            let now = Session::fresh(dirs, true).after(events.take(1 + 2 * count));
            &&& now.dirs == dirs
            &&& now.action == now.copy_to_from(count)
        }),
    decreases count,
{
    let start = Session::fresh(dirs, true);
    if count == 0 {
        lemma_step(start, events, 0);
    } else {
        lemma_there(dirs, events, count - 1);
        lemma_step(start, events, 2 * count - 1);
        lemma_step(start, events, 2 * count);
    }
}

proof fn lemma_back(dirs: usize, events: Seq<Event>, count: int)
    requires
        0 <= count <= dirs,
        events.len() == 2 + 7 * dirs,
        forall|k: int|
            0 <= k < events.len() ==> (#[trigger] events[k]).ok && (events[k].answer <==> k > 0),
    ensures
        ({
            let now = Session::fresh(dirs, true).after(events.take(2 + 2 * dirs + 5 * count));
            &&& now.dirs == dirs
            &&& now.ended_well
            &&& now.action == now.copy_back_from(count)
        }),
    decreases count,
{
    let start = Session::fresh(dirs, true);
    let launch = 1 + 2 * dirs;
    if count == 0 {
        lemma_there(dirs, events, dirs as int);
        lemma_step(start, events, launch);
    } else {
        let back = launch + 1 + 5 * (count - 1);
        lemma_back(dirs, events, count - 1);
        lemma_step(start, events, back);
        lemma_step(start, events, back + 1);
        lemma_step(start, events, back + 2);
        lemma_step(start, events, back + 3);
        lemma_step(start, events, back + 4);
    }
}

/// A run that succeeds has launched an application that ended well, and every directory was
/// copied from the device or was not there.
pub proof fn success_means_all_done(dirs: usize, has_app_id: bool, events: Seq<Event>)
    requires
        Session::fresh(dirs, has_app_id).after(events).action == Action::Finish(Outcome::Success),
    ensures
        has_app_id,
        exists|code: Option<i32>|
            Session::fresh(dirs, has_app_id).has_ended(events, true, code),
        Session::fresh(dirs, has_app_id).copied_to(events, dirs as int),
        Session::fresh(dirs, has_app_id).copied_back(events, dirs as int),
{
    lemma_history(dirs, has_app_id, events);
    let now = Session::fresh(dirs, has_app_id).after(events);
    assert(Session::fresh(dirs, has_app_id).has_ended(events, true, now.code));
}

/// A run that reports a failed application has launched one that failed with this code.
/// Where it warns of no directory, all were copied from the device or were not there.
pub proof fn failed_run_gives_its_code(
    dirs: usize,
    has_app_id: bool,
    events: Seq<Event>,
    code: Option<i32>,
    sync_failed: bool,
)
    requires
        Session::fresh(dirs, has_app_id).after(events).action == Action::Finish(
            (Outcome::RunFailed { code, sync_failed }),
        ),
    ensures
        Session::fresh(dirs, has_app_id).has_ended(events, false, code),
        !sync_failed ==> Session::fresh(dirs, has_app_id).copied_back(events, dirs as int),
{
    lemma_history(dirs, has_app_id, events);
}

/// Once the application has failed, the run ends with its code and in no other way, whatever
/// comes of copying back.
pub proof fn failure_of_the_application_is_reported(
    session: Session,
    event: Event,
    events: Seq<Event>,
)
    requires
        session.action is Launch,
        event.ok,
        !event.answer,
    ensures
        ({
            let now = session.next(event).after(events);
            &&& !now.ended_well
            &&& now.code == event.code
            &&& now.place_back() is Some || now.action == Action::Finish(
                (Outcome::RunFailed { code: event.code, sync_failed: true }),
            ) || now.action == Action::Finish(
                (Outcome::RunFailed { code: event.code, sync_failed: false }),
            )
        }),
    decreases events.len(),
{
    if events.len() > 0 {
        failure_of_the_application_is_reported(session, event, events.drop_last());
    }
}

/// A run that has ended stays as it is.
pub proof fn ended_run_stays(session: Session, events: Seq<Event>)
    requires
        session.action is Finish,
    ensures
        session.after(events) == session,
    decreases events.len(),
{
    if events.len() > 0 {
        ended_run_stays(session, events.drop_last());
    }
}

impl Session {
    /// How many actions are left at most once the device is unlocked.
    pub open spec fn actions_left(self) -> nat {
        let back = 5 * self.dirs;
        let whole = 3 * self.dirs + 1 + back;
        (match self.action {
            Action::Thank => whole + 1,
            Action::FindHost(place) => whole - 3 * place,
            Action::CreateHost(place) => whole - 3 * place - 1,
            Action::CopyTo(place) => whole - 3 * place - 2,
            Action::Launch => back + 1,
            Action::FindDevice(place) => back - 5 * place,
            Action::FindStale(place) => back - 5 * place - 1,
            Action::RemoveHost(place) => back - 5 * place - 2,
            Action::RecreateHost(place) => back - 5 * place - 3,
            Action::CopyFrom(place) => back - 5 * place - 4,
            _ => 0,
        }) as nat
    }

    /// Whether the run still waits for the device to be unlocked.
    pub open spec fn waits(self) -> bool {
        self.action is QueryLock || self.action is Prompt || self.action is Sleep
            || self.action is QueryLockAgain
    }
}

/// Once the device is unlocked the run comes to an end: after as many actions as are left at
/// most, whatever their results.
pub proof fn unlocked_run_ends(dirs: usize, has_app_id: bool, events: Seq<Event>, more: Seq<Event>)
    requires
        !Session::fresh(dirs, has_app_id).after(events).waits(),
        more.len() >= Session::fresh(dirs, has_app_id).after(events).actions_left(),
    ensures
        Session::fresh(dirs, has_app_id).after(events + more).action is Finish,
{
    let start = Session::fresh(dirs, has_app_id);
    lemma_countdown(dirs, has_app_id, events, more);
    let now = start.after(events + more);
    lemma_history(dirs, has_app_id, events + more);
    assert(!(now.action is Finish) ==> now.actions_left() > 0);
}

proof fn lemma_countdown(dirs: usize, has_app_id: bool, events: Seq<Event>, more: Seq<Event>)
    requires
        !Session::fresh(dirs, has_app_id).after(events).waits(),
    ensures
        ({
            let start = Session::fresh(dirs, has_app_id);
            let now = start.after(events + more);
            &&& !now.waits()
            &&& now.action is Finish || now.actions_left() + more.len() <= start.after(
                events,
            ).actions_left()
        }),
    decreases more.len(),
{
    let start = Session::fresh(dirs, has_app_id);
    if more.len() > 0 {
        let before = more.drop_last();
        lemma_countdown(dirs, has_app_id, events, before);
        assert((events + more).drop_last() =~= events + before);
        lemma_history(dirs, has_app_id, events + before);
    } else {
        assert(events + more =~= events);
    }
}

} // verus!
