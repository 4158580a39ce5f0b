//! The debounce batcher: coalesces bursts of pull-diagnostics events into a
//! single delayed sweep. Any event (re)starts a fixed quiet-period timer;
//! when the timer elapses with no further event, the batcher fires once and
//! sweeps every open document.
//!
//! The surrounding application owns the clock: it hands event and tick times
//! in as plain values and performs the sweep when the batcher fires.

use vstd::prelude::*;

use crate::driver::PullRequest;
use crate::driver::pull_diagnostics_for_open_documents;
use crate::driver::count_for;
use crate::driver::requests_pairwise_distinct;
use crate::driver::servers_stable_grown;
use crate::driver::sweep_complete_upto;
use crate::driver::sweep_request_sound;
use crate::model::Editor;
use crate::model::same_but_servers;

verus! {

/// The quiet period, in milliseconds, that must elapse after the last pull
/// event before the debounced sweep fires.
pub const DEBOUNCE_TIMEOUT_MS: u64 = 125;

/// A request to pull diagnostics for a document, fed into the batcher by
/// the document-changed trigger.
#[derive(Clone, Copy, PartialEq, Eq, Structural, Debug)]
pub struct PullDiagnosticsEvent {
    pub document_id: u64,
}

/// The debounce timer: idle, or armed with a deadline.
#[derive(Clone, Copy, PartialEq, Eq, Structural, Debug)]
pub enum DebounceState {
    Idle,
    Pending { deadline: u64 },
}

/// One input to the debounce loop: an event arriving at a time, or the
/// clock reaching a time with no event pending.
#[derive(Clone, Copy, PartialEq, Eq, Structural, Debug)]
pub enum DebounceInput {
    Event { at: u64 },
    Tick { at: u64 },
}

/// The time an input carries.
pub open spec fn input_time(i: DebounceInput) -> u64 {
    match i {
        DebounceInput::Event { at } => at,
        DebounceInput::Tick { at } => at,
    }
}

/// The deadline the quiet period sets for an event at `at`, pinned to the
/// clock's range.
pub open spec fn quiet_deadline(at: u64) -> u64 {
    if at + DEBOUNCE_TIMEOUT_MS <= u64::MAX {
        (at + DEBOUNCE_TIMEOUT_MS) as u64
    } else {
        u64::MAX
    }
}

/// One step of the debounce loop: any event (re)arms the quiet-period
/// timer; a tick at or past an armed deadline fires the sweep, exactly
/// once, and disarms.
pub open spec fn debounce_step(s: DebounceState, input: DebounceInput) -> (DebounceState, bool) {
    match input {
        DebounceInput::Event { at } => (DebounceState::Pending { deadline: quiet_deadline(at) }, false),
        DebounceInput::Tick { at } => match s {
            DebounceState::Pending { deadline } => if at >= deadline {
                (DebounceState::Idle, true)
            } else {
                (s, false)
            },
            DebounceState::Idle => (s, false),
        },
    }
}

/// Runs the debounce loop over a whole input sequence, counting how often
/// it fires.
pub open spec fn debounce_run(s: DebounceState, inputs: Seq<DebounceInput>) -> (DebounceState, nat)
    decreases inputs.len(),
{
    if inputs.len() == 0 {
        (s, 0nat)
    } else {
        let first = debounce_step(s, inputs[0]);
        let rest = debounce_run(first.0, inputs.drop_first());
        (rest.0, rest.1 + if first.1 { 1nat } else { 0nat })
    }
}

/// Running the loop over a concatenation runs it over both halves in turn.
pub proof fn lemma_debounce_run_concat(s: DebounceState, a: Seq<DebounceInput>, b: Seq<DebounceInput>)
    ensures
        debounce_run(s, a + b).0 == debounce_run(debounce_run(s, a).0, b).0,
        debounce_run(s, a + b).1 == debounce_run(s, a).1 + debounce_run(debounce_run(s, a).0, b).1,
    decreases a.len(),
{
    if a.len() == 0 {
        assert(a + b =~= b);
    } else {
        let s1 = debounce_step(s, a[0]).0;
        assert((a + b)[0] == a[0]);
        assert((a + b).drop_first() =~= a.drop_first() + b);
        lemma_debounce_run_concat(s1, a.drop_first(), b);
    }
}

/// A burst of events alone never fires: it only leaves the timer armed with
/// the last event's deadline.
pub proof fn lemma_debounce_events_pend(s: DebounceState, events: Seq<DebounceInput>)
    requires
        events.len() > 0,
        forall|k: int| 0 <= k < events.len() ==> events[k] is Event,
    ensures
        debounce_run(s, events).1 == 0,
        debounce_run(s, events).0 == (DebounceState::Pending {
            deadline: quiet_deadline(input_time(events.last())),
        }),
    decreases events.len(),
{
    if events.len() == 1 {
        assert(events[0] is Event);
        assert(events.drop_first().len() == 0);
    } else {
        assert(events[0] is Event);
        let s1 = debounce_step(s, events[0]).0;
        lemma_debounce_events_pend(s1, events.drop_first());
        assert(events.drop_first().last() == events.last());
    }
}

/// Debounce coalescing: however many pull events arrive in a burst, the
/// first tick at or past the last event's quiet-period deadline fires
/// exactly one sweep, and the timer is disarmed afterwards.
pub proof fn lemma_debounce_coalesces(s: DebounceState, events: Seq<DebounceInput>, tick_at: u64)
    requires
        events.len() > 0,
        forall|k: int| 0 <= k < events.len() ==> events[k] is Event,
        tick_at >= quiet_deadline(input_time(events.last())),
    ensures
        debounce_run(s, events.push(DebounceInput::Tick { at: tick_at })).1 == 1,
        debounce_run(s, events.push(DebounceInput::Tick { at: tick_at })).0 == DebounceState::Idle,
{
    reveal_with_fuel(debounce_run, 3);
    let tick = DebounceInput::Tick { at: tick_at };
    lemma_debounce_events_pend(s, events);
    assert(events.push(tick) =~= events + seq![tick]);
    lemma_debounce_run_concat(s, events, seq![tick]);
    let pend = debounce_run(s, events).0;
    assert(seq![tick][0] == tick);
    assert(seq![tick].drop_first().len() == 0);
    assert(debounce_step(pend, tick).1);
    assert(debounce_run(pend, seq![tick]).1 == 1);
}

/// No input in the sequence fires: every tick arrives while the timer is
/// disarmed or strictly before the armed deadline.
pub open spec fn no_input_fires(s: DebounceState, inputs: Seq<DebounceInput>) -> bool
    decreases inputs.len(),
{
    if inputs.len() == 0 {
        true
    } else {
        let first = debounce_step(s, inputs[0]);
        !first.1 && no_input_fires(first.0, inputs.drop_first())
    }
}

/// A run in which no input fires counts no firings.
proof fn lemma_no_input_fires_zero(s: DebounceState, inputs: Seq<DebounceInput>)
    requires
        no_input_fires(s, inputs),
    ensures
        debounce_run(s, inputs).1 == 0,
    decreases inputs.len(),
{
    if inputs.len() > 0 {
        lemma_no_input_fires_zero(debounce_step(s, inputs[0]).0, inputs.drop_first());
    }
}

/// Debounce coalescing over an arbitrary interleaving of events and ticks:
/// as long as every intermediate tick comes before the deadline armed at
/// that moment, the whole burst fires nothing, and the first tick at or
/// past the final deadline fires exactly once.
pub proof fn lemma_debounce_coalesces_interleaved(
    s: DebounceState,
    inputs: Seq<DebounceInput>,
    tick_at: u64,
    deadline: u64,
)
    requires
        no_input_fires(s, inputs),
        debounce_run(s, inputs).0 == (DebounceState::Pending { deadline }),
        tick_at >= deadline,
    ensures
        debounce_run(s, inputs.push(DebounceInput::Tick { at: tick_at })).1 == 1,
{
    reveal_with_fuel(debounce_run, 3);
    let tick = DebounceInput::Tick { at: tick_at };
    lemma_no_input_fires_zero(s, inputs);
    assert(inputs.push(tick) =~= inputs + seq![tick]);
    lemma_debounce_run_concat(s, inputs, seq![tick]);
    let pend = debounce_run(s, inputs).0;
    assert(seq![tick][0] == tick);
    assert(seq![tick].drop_first().len() == 0);
    assert(debounce_step(pend, tick).1);
    assert(debounce_run(pend, seq![tick]).1 == 1);
}

/// Two bursts separated by a quiet period fire two separate sweeps: one
/// event, a tick past its deadline, a second event and a tick past that
/// one's deadline fire exactly twice.
pub proof fn lemma_debounce_two_bursts(s: DebounceState, t1: u64, tick1: u64, t2: u64, tick2: u64)
    requires
        tick1 >= quiet_deadline(t1),
        tick2 >= quiet_deadline(t2),
    ensures
        debounce_run(
            s,
            seq![
                DebounceInput::Event { at: t1 },
                DebounceInput::Tick { at: tick1 },
                DebounceInput::Event { at: t2 },
                DebounceInput::Tick { at: tick2 },
            ],
        ).1 == 2,
{
    let a = seq![DebounceInput::Event { at: t1 }, DebounceInput::Tick { at: tick1 }];
    let b = seq![DebounceInput::Event { at: t2 }, DebounceInput::Tick { at: tick2 }];
    let whole = seq![
        DebounceInput::Event { at: t1 },
        DebounceInput::Tick { at: tick1 },
        DebounceInput::Event { at: t2 },
        DebounceInput::Tick { at: tick2 },
    ];
    assert(whole =~= a + b);
    lemma_debounce_run_concat(s, a, b);
    lemma_debounce_coalesces(s, seq![DebounceInput::Event { at: t1 }], tick1);
    assert(seq![DebounceInput::Event { at: t1 }].push(DebounceInput::Tick { at: tick1 }) =~= a);
    lemma_debounce_coalesces(
        DebounceState::Idle,
        seq![DebounceInput::Event { at: t2 }],
        tick2,
    );
    assert(seq![DebounceInput::Event { at: t2 }].push(DebounceInput::Tick { at: tick2 }) =~= b);
}

/// The executable debounce timer the event loop drives.
#[derive(Clone, Copy, PartialEq, Eq, Structural, Debug)]
pub struct Debouncer {
    pub state: DebounceState,
}

impl Debouncer {
    /// A disarmed timer.
    pub fn new() -> (r: Debouncer)
        ensures
            r.state == DebounceState::Idle,
    {
        Debouncer { state: DebounceState::Idle }
    }

    /// An event arrived: (re)arm the quiet-period timer.
    pub fn on_event(&mut self, at: u64)
        ensures
            final(self).state == debounce_step(old(self).state, DebounceInput::Event { at }).0,
            final(self).state == (DebounceState::Pending { deadline: quiet_deadline(at) }),
    {
        let deadline = if at <= u64::MAX - DEBOUNCE_TIMEOUT_MS {
            at + DEBOUNCE_TIMEOUT_MS
        } else {
            u64::MAX
        };
        self.state = DebounceState::Pending { deadline };
    }

    /// The clock reached `at` with no event: fire if the deadline passed.
    pub fn on_tick(&mut self, at: u64) -> (fired: bool)
        ensures
            final(self).state == debounce_step(old(self).state, DebounceInput::Tick { at }).0,
            fired == debounce_step(old(self).state, DebounceInput::Tick { at }).1,
    {
        match self.state {
            DebounceState::Pending { deadline } => {
                if at >= deadline {
                    self.state = DebounceState::Idle;
                    true
                } else {
                    false
                }
            },
            DebounceState::Idle => false,
        }
    }
}

/// The debounced batching hook for pull-diagnostics events.
#[derive(Debug)]
pub struct PullDiagnosticsHandler {}

impl PullDiagnosticsHandler {
    pub fn new() -> (r: PullDiagnosticsHandler) {
        PullDiagnosticsHandler {}
    }

    /// Any event (re)starts the quiet-period timer: whatever the event and
    /// whatever deadline was already armed, the new deadline is one quiet
    /// period from now.
    pub fn handle_event(
        &mut self,
        _event: PullDiagnosticsEvent,
        _timeout: Option<u64>,
        now: u64,
    ) -> (r: Option<u64>)
        ensures
            r == Some(quiet_deadline(now)),
    {
        let deadline = if now <= u64::MAX - DEBOUNCE_TIMEOUT_MS {
            now + DEBOUNCE_TIMEOUT_MS
        } else {
            u64::MAX
        };
        Some(deadline)
    }

    /// The quiet period elapsed: sweep every open document.
    pub fn finish_debounce(&mut self, editor: &mut Editor) -> (requests: Vec<PullRequest>)
        requires
            old(editor).wf(),
        ensures
            final(editor).wf(),
            same_but_servers(*old(editor), *final(editor)),
            servers_stable_grown(old(editor).language_servers@, final(editor).language_servers@),
            forall|k: int|
                0 <= k < requests@.len() ==> sweep_request_sound(
                    *old(editor),
                    final(editor).language_servers@,
                    #[trigger] requests@[k],
                    true,
                    None,
                ),
            forall|k1: int, k2: int|
                0 <= k1 < k2 < requests@.len() && (#[trigger] requests@[k1]).server_id
                    == (#[trigger] requests@[k2]).server_id ==> requests@[k1].token
                    != requests@[k2].token,
            requests_pairwise_distinct(requests@),
            forall|i: int|
                0 <= i < old(editor).language_servers@.len()
                    ==> (#[trigger] final(editor).language_servers@[i]).next_work_token
                    == old(editor).language_servers@[i].next_work_token + count_for(
                    requests@,
                    old(editor).language_servers@[i].id,
                ),
            sweep_complete_upto(
                *old(editor),
                final(editor).language_servers@,
                requests@,
                0,
                old(editor).documents@.len() as int,
                0,
                true,
                None,
            ),
    {
        pull_diagnostics_for_open_documents(editor)
    }
}

} // verus!
