//! Background sync supervisor: a periodic action raced against a one-shot
//! shutdown signal, with outcomes reported to the UI layer.
//!
//! The supervisor itself is a sequential decision core.  The surrounding
//! runtime owns the timer, the eligibility probe, the action and the event
//! sink; it feeds each observation to the core and carries out the returned
//! directive.  The guarantees are stated over `Model`, the ghost state of a
//! run, whose transition function `next` stutters on observations the
//! current phase does not expect: the supervisor never dies and never emits
//! for them.

use vstd::prelude::*;

verus! {

/// Result of one sync attempt.
#[derive(Debug, Clone)]
pub enum SyncOutcome {
    Success { changes_count: u32 },
    Failure { message: String },
}

/// Ghost image of a `SyncOutcome`.
pub enum OutcomeModel {
    Success { changes_count: u32 },
    Failure { message: Seq<char> },
}

impl View for SyncOutcome {
    type V = OutcomeModel;

    open spec fn view(&self) -> OutcomeModel {
        match self {
            SyncOutcome::Success { changes_count } => OutcomeModel::Success {
                changes_count: *changes_count,
            },
            SyncOutcome::Failure { message } => OutcomeModel::Failure { message: message@ },
        }
    }
}

/// Event handed to the UI layer after a tick that produced something to say.
#[derive(Debug, Clone)]
pub enum Emission {
    Completed { changes: u32 },
    SyncError { message: String },
}

/// Ghost image of an `Emission`.
pub enum Notice {
    Completed { changes: u32 },
    SyncError { message: Seq<char> },
}

impl View for Emission {
    type V = Notice;

    open spec fn view(&self) -> Notice {
        match self {
            Emission::Completed { changes } => Notice::Completed { changes: *changes },
            Emission::SyncError { message } => Notice::SyncError { message: message@ },
        }
    }
}

/// Lifecycle phase of the supervisor.
#[derive(Debug, Clone, Copy, PartialEq, Eq, Structural)]
pub enum Phase {
    Waiting,
    Running,
    Stopped,
}

/// What the runtime must do after reporting a timer tick.
#[derive(Debug, Clone, Copy, PartialEq, Eq, Structural)]
pub enum TickDirective {
    Invoke,
    Skip,
}

/// One observation fed to the supervisor.
pub enum Step {
    TimerTick { eligible: bool },
    ActionDone { outcome: OutcomeModel },
    Shutdown,
}

/// Ghost state of a supervisor run: its phase, the number of times the
/// action has been invoked, and the notices emitted so far, oldest first.
#[verifier::ext_equal]
pub struct Model {
    pub phase: Phase,
    pub invocations: nat,
    pub notices: Seq<Notice>,
}

/// State of a supervisor that has just been started: waiting for the first
/// tick, nothing invoked, nothing emitted.
pub open spec fn init_model() -> Model {
    Model { phase: Phase::Waiting, invocations: 0, notices: Seq::empty() }
}

/// The notice owed for an action outcome: nothing on a success without
/// changes, `Completed` on a success with changes, `SyncError` on a failure.
pub open spec fn notice_of(outcome: OutcomeModel) -> Option<Notice> {
    match outcome {
        OutcomeModel::Success { changes_count } => if changes_count == 0 {
            None
        } else {
            Some(Notice::Completed { changes: changes_count })
        },
        OutcomeModel::Failure { message } => Some(Notice::SyncError { message }),
    }
}

/// Transition function of the supervisor.
pub open spec fn next(m: Model, s: Step) -> Model {
    match s {
        Step::TimerTick { eligible } => if m.phase == Phase::Waiting && eligible {
            Model { phase: Phase::Running, invocations: m.invocations + 1, notices: m.notices }
        } else {
            m
        },
        Step::ActionDone { outcome } => if m.phase == Phase::Running {
            Model {
                phase: Phase::Waiting,
                invocations: m.invocations,
                notices: match notice_of(outcome) {
                    Some(n) => m.notices.push(n),
                    None => m.notices,
                },
            }
        } else {
            m
        },
        Step::Shutdown => if m.phase != Phase::Running {
            Model { phase: Phase::Stopped, invocations: m.invocations, notices: m.notices }
        } else {
            m
        },
    }
}

/// State reached after feeding `steps` to a freshly started supervisor.
pub open spec fn run(steps: Seq<Step>) -> Model
    decreases steps.len(),
{
    if steps.len() == 0 {
        init_model()
    } else {
        next(run(steps.drop_last()), steps.last())
    }
}

/// `s`, taken in state `m`, starts an invocation of the action.
pub open spec fn begins_invocation(m: Model, s: Step) -> bool {
    m.phase == Phase::Waiting && match s {
        Step::TimerTick { eligible } => eligible,
        _ => false,
    }
}

/// `s`, taken in state `m`, completes the invocation in flight.
pub open spec fn completes_invocation(m: Model, s: Step) -> bool {
    m.phase == Phase::Running && s is ActionDone
}

proof fn lemma_running_persists(steps: Seq<Step>, a: int, b: int)
    requires
        0 <= a <= b <= steps.len(),
        run(steps.take(a)).phase == Phase::Running,
        forall|k: int|
            a <= k < b ==> !completes_invocation(run(#[trigger] steps.take(k)), steps[k]),
    ensures
        run(steps.take(b)).phase == Phase::Running,
    decreases b - a,
{
    if a < b {
        lemma_running_persists(steps, a, b - 1);
        assert(steps.take(b).drop_last() =~= steps.take(b - 1));
        assert(steps.take(b).last() == steps[b - 1]);
        assert(!completes_invocation(run(steps.take(b - 1)), steps[b - 1]));
    }
}

proof fn lemma_stopped_persists(steps: Seq<Step>, a: int, b: int)
    requires
        0 <= a <= b <= steps.len(),
        run(steps.take(a)).phase == Phase::Stopped,
    ensures
        run(steps.take(b)) == run(steps.take(a)),
    decreases b - a,
{
    if a < b {
        lemma_stopped_persists(steps, a, b - 1);
        assert(steps.take(b).drop_last() =~= steps.take(b - 1));
        assert(steps.take(b).last() == steps[b - 1]);
        assert(run(steps.take(b)) =~= run(steps.take(b - 1)));
    }
}

/// The action never runs concurrently with itself: between any two steps
/// that begin an invocation stands a step that completes the earlier one,
/// in every run of the supervisor.
pub proof fn lemma_action_invocations_sequential(steps: Seq<Step>, i: int, j: int)
    requires
        0 <= i < j < steps.len(),
        begins_invocation(run(steps.take(i)), steps[i]),
        begins_invocation(run(steps.take(j)), steps[j]),
    ensures
        exists|k: int| i < k < j && completes_invocation(run(#[trigger] steps.take(k)), steps[k]),
{
    if !(exists|k: int|
        i < k < j && completes_invocation(run(#[trigger] steps.take(k)), steps[k]))
    {
        assert(steps.take(i + 1).drop_last() =~= steps.take(i));
        assert(steps.take(i + 1).last() == steps[i]);
        assert(run(steps.take(i + 1)).phase == Phase::Running);
        assert forall|k: int|
            i + 1 <= k < j implies !completes_invocation(
            run(#[trigger] steps.take(k)),
            steps[k],
        ) by {
            assert(!(i < k < j && completes_invocation(run(steps.take(k)), steps[k])));
        }
        lemma_running_persists(steps, i + 1, j);
        assert(false);
    }
}

/// If the shutdown signal fires before the first tick, the action is never
/// invoked, nothing is emitted, and the supervisor terminates.
pub proof fn lemma_shutdown_before_first_tick(steps: Seq<Step>)
    requires
        steps.len() > 0,
        steps[0] == Step::Shutdown,
    ensures
        run(steps).invocations == 0,
        run(steps).notices == Seq::<Notice>::empty(),
        run(steps).phase == Phase::Stopped,
{
    assert(steps.take(1).len() == 1);
    assert(steps.take(1).drop_last() =~= Seq::<Step>::empty());
    assert(steps.take(1).last() == steps[0]);
    assert(run(steps.take(1)) == next(run(Seq::<Step>::empty()), steps[0]));
    assert(run(Seq::<Step>::empty()) == init_model());
    assert(run(steps.take(1)).phase == Phase::Stopped);
    lemma_stopped_persists(steps, 1, steps.len() as int);
    assert(steps.take(steps.len() as int) =~= steps);
}

/// An ineligible tick changes nothing: the action is not invoked and no
/// notice is emitted for that tick, whatever the state.
pub proof fn lemma_ineligible_tick_skips(m: Model)
    ensures
        next(m, (Step::TimerTick { eligible: false })) == m,
{
}

/// A successful action that applied no changes emits nothing, and the
/// supervisor goes back to waiting.
pub proof fn lemma_silent_success(m: Model)
    requires
        m.phase == Phase::Running,
    ensures
        next(m, (Step::ActionDone { outcome: (OutcomeModel::Success { changes_count: 0 }) })).notices
            == m.notices,
        next(m, (Step::ActionDone { outcome: (OutcomeModel::Success { changes_count: 0 }) })).phase
            == Phase::Waiting,
{
}

/// A successful action with `changes > 0` emits exactly one `Completed`
/// notice carrying that count.
pub proof fn lemma_success_emits_exactly_one(m: Model, changes: u32)
    requires
        m.phase == Phase::Running,
        changes > 0,
    ensures
        next(m, (Step::ActionDone { outcome: (OutcomeModel::Success { changes_count: changes }) })).notices
            == m.notices.push((Notice::Completed { changes })),
        next(m, (Step::ActionDone { outcome: (OutcomeModel::Success { changes_count: changes }) })).phase
            == Phase::Waiting,
{
}

/// A failed action emits exactly one `SyncError` notice carrying the
/// failure's message, the loop survives, and a later eligible tick whose
/// action succeeds with changes still emits its `Completed` notice.
pub proof fn lemma_failure_reports_and_recovers(m: Model, message: Seq<char>, changes: u32)
    requires
        m.phase == Phase::Running,
        changes > 0,
    ensures
        ({
            let m1 = next(m, (Step::ActionDone { outcome: (OutcomeModel::Failure { message }) }));
            let m2 = next(m1, (Step::TimerTick { eligible: true }));
            let m3 = next(
                m2,
                (Step::ActionDone { outcome: (OutcomeModel::Success { changes_count: changes }) }),
            );
            &&& m1.notices == m.notices.push((Notice::SyncError { message }))
            &&& m1.phase == Phase::Waiting
            &&& m2.invocations == m1.invocations + 1
            &&& m3.notices == m1.notices.push((Notice::Completed { changes }))
            &&& m3.phase == Phase::Waiting
        }),
{
}

/// Observing the shutdown signal twice is a no-op: the second observation
/// changes nothing, and neither observation emits a notice.
pub proof fn lemma_second_shutdown_noop(m: Model)
    ensures
        next(next(m, Step::Shutdown), Step::Shutdown) == next(m, Step::Shutdown),
        next(m, Step::Shutdown).notices == m.notices,
{
}

/// Classify an action outcome: no event for a success without changes, a
/// `Completed` event for a success with changes, a `SyncError` event with
/// the failure's message for a failure.
pub fn outcome_emission(outcome: SyncOutcome) -> (e: Option<Emission>)
    ensures
        match e {
            Some(em) => notice_of(outcome@) == Some(em@),
            None => notice_of(outcome@) is None,
        },
{
    match outcome {
        SyncOutcome::Success { changes_count } => if changes_count == 0 {
            None
        } else {
            Some(Emission::Completed { changes: changes_count })
        },
        SyncOutcome::Failure { message } => Some(Emission::SyncError { message }),
    }
}

/// The supervisor's decision core.  Each `on_*` method reports one
/// observation; the caller performs the wait, the eligibility probe, the
/// action and the event delivery.
pub struct Supervisor {
    phase: Phase,
    invocations: Ghost<nat>,
    notices: Ghost<Seq<Notice>>,
}

impl View for Supervisor {
    type V = Model;

    closed spec fn view(&self) -> Model {
        Model { phase: self.phase, invocations: self.invocations@, notices: self.notices@ }
    }
}

impl Supervisor {
    /// Start a supervisor: it waits for the first tick or the shutdown
    /// signal, whichever comes first.
    pub fn new() -> (s: Supervisor)
        ensures
            s@ == init_model(),
    {
        Supervisor {
            phase: Phase::Waiting,
            invocations: Ghost(0nat),
            notices: Ghost(Seq::empty()),
        }
    }

    /// Current lifecycle phase.
    pub fn phase(&self) -> (p: Phase)
        ensures
            p == self@.phase,
    {
        self.phase
    }

    /// Whether the supervisor has observed the shutdown signal.
    pub fn is_stopped(&self) -> (b: bool)
        ensures
            b == (self@.phase == Phase::Stopped),
    {
        self.phase == Phase::Stopped
    }

    /// The timer fired and the eligibility probe answered `eligible`.
    /// Directs the caller to invoke the action exactly when the supervisor
    /// was waiting and the tick is eligible; an ineligible tick is skipped
    /// with no invocation and no event.
    pub fn on_timer(&mut self, eligible: bool) -> (d: TickDirective)
        requires
            old(self)@.phase != Phase::Running,
        ensures
            final(self)@ == next(old(self)@, (Step::TimerTick { eligible })),
            (d == TickDirective::Invoke) == (old(self)@.phase == Phase::Waiting && eligible),
    {
        if eligible && self.phase == Phase::Waiting {
            self.phase = Phase::Running;
            self.invocations = Ghost(self.invocations@ + 1);
            TickDirective::Invoke
        } else {
            TickDirective::Skip
        }
    }

    /// The invoked action finished with `outcome`.  Returns the event owed
    /// to the UI layer, if any; the supervisor goes back to waiting, so a
    /// failure never terminates the loop.
    pub fn on_outcome(&mut self, outcome: SyncOutcome) -> (e: Option<Emission>)
        requires
            old(self)@.phase == Phase::Running,
        ensures
            final(self)@ == next(old(self)@, (Step::ActionDone { outcome: outcome@ })),
            match e {
                Some(em) => notice_of(outcome@) == Some(em@),
                None => notice_of(outcome@) is None,
            },
    {
        self.phase = Phase::Waiting;
        let e = outcome_emission(outcome);
        match &e {
            Some(em) => {
                self.notices = Ghost(self.notices@.push(em@));
            },
            None => {},
        }
        e
    }

    /// The shutdown signal was observed at a wait point.  The supervisor
    /// stops; observing it again keeps it stopped and emits nothing.
    pub fn on_shutdown(&mut self)
        requires
            old(self)@.phase != Phase::Running,
        ensures
            final(self)@ == next(old(self)@, Step::Shutdown),
            final(self)@.phase == Phase::Stopped,
            final(self)@.notices == old(self)@.notices,
            final(self)@.invocations == old(self)@.invocations,
    {
        self.phase = Phase::Stopped;
    }
}

/// Payload of a `sync-completed` event as the UI layer receives it.
#[derive(Debug, Clone)]
pub struct SyncResult {
    pub success: bool,
    pub changes: u32,
    pub timestamp: String,
}

/// Relies on chrono's `Utc::now().to_rfc3339()`: an RFC 3339 rendering of
/// the current time, never empty.  The clock decides the content, so
/// nothing more is assumed of it.
#[verifier::external_body]
fn now_rfc3339() -> (r: String)
    ensures
        r@.len() > 0,
{
    chrono::Utc::now().to_rfc3339()
}

/// Build the `sync-completed` payload for a tick that applied `changes`
/// changes, stamped with the current wall-clock time.
pub fn completed_payload(changes: u32) -> (r: SyncResult)
    ensures
        r.success,
        r.changes == changes,
        r.timestamp@.len() > 0,
{
    SyncResult { success: true, changes, timestamp: now_rfc3339() }
}

/// One-shot cancellation token: armed until fired; firing it a second
/// time has no further effect.
pub struct ShutdownToken {
    fired: bool,
}

impl ShutdownToken {
    /// Whether the token has been fired.
    pub closed spec fn spec_fired(&self) -> bool {
        self.fired
    }

    /// A fresh, armed token.
    pub fn new() -> (t: ShutdownToken)
        ensures
            !t.spec_fired(),
    {
        ShutdownToken { fired: false }
    }

    /// Fire the token.  Returns whether this call is the one that fired it:
    /// firing an already-fired token is a no-op, never an error.
    pub fn fire(&mut self) -> (first: bool)
        ensures
            final(self).spec_fired(),
            first == !old(self).spec_fired(),
    {
        let first = !self.fired;
        self.fired = true;
        first
    }

    /// Whether the token has been fired.
    pub fn is_fired(&self) -> (b: bool)
        ensures
            b == self.spec_fired(),
    {
        self.fired
    }
}

} // verus!
