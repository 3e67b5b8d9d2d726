//! What a thread's store contributes to its turns.

use vstd::prelude::*;

use crate::context::{
    should_include_goal_in_capsule, ContextView, LinkContextState, ThreadGoal,
};
use crate::pending::event_views;
use crate::split::{join, join_strings};
use crate::store::{EventMsg, LinkContextStore};
use crate::text::{lemma_texts_push, texts};
use crate::trigger_events::{BackgroundTriggerEvent, EventView};

verus! {

/// Input supplied when the host emits one model/tool/runtime event for a turn.
pub struct TurnEventInput<'a> {
    /// Current turn submission id.
    pub turn_id: &'a str,
    /// Event being emitted by the host.
    pub event: &'a EventMsg,
}

/// The facts that a turn shows: those of the thread, what was recorded, those
/// of the turn and those of a goal that is not complete, each over the ones
/// before it.
pub open spec fn turn_facts(
    thread: Option<ContextView>,
    recorded: Option<ContextView>,
    turn: Option<ContextView>,
    goal: Option<ThreadGoal>,
) -> ContextView {
    let first = match thread {
        Some(facts) => facts,
        None => ContextView::empty(),
    };
    let second = match recorded {
        Some(facts) => first.merged(facts),
        None => first,
    };
    let third = match turn {
        Some(facts) => second.merged(facts),
        None => second,
    };
    match goal {
        Some(goal) => if goal.status is Complete {
            third
        } else {
            third.with_goal(goal)
        },
        None => third,
    }
}

/// The facts of an optional state.
pub open spec fn opt_facts(state: Option<LinkContextState>) -> Option<ContextView> {
    match state {
        Some(state) => Some(state@),
        None => None,
    }
}

/// The rendered events, in order.
pub open spec fn rendered_events(events: Seq<EventView>) -> Seq<Seq<char>> {
    Seq::new(events.len(), |i: int| events[i].rendered())
}

/// The text that brings events before the model.
pub open spec fn steering_text(events: Seq<EventView>) -> Seq<char> {
    join(rendered_events(events), "\n\n"@)
}

/// The facts that a turn shows.
pub fn contribute_turn_context(
    thread_state: Option<LinkContextState>,
    recorded: Option<LinkContextState>,
    turn_state: Option<LinkContextState>,
    goal: Option<ThreadGoal>,
) -> (r: LinkContextState)
    ensures
        r@ == turn_facts(
            opt_facts(thread_state),
            opt_facts(recorded),
            opt_facts(turn_state),
            goal,
        ),
{
    let mut state = match thread_state {
        Some(state) => state,
        None => LinkContextState::default(),
    };
    match &recorded {
        Some(facts) => state.merge_from(facts),
        None => {},
    }
    match &turn_state {
        Some(facts) => state.merge_from(facts),
        None => {},
    }
    match &goal {
        Some(goal) => {
            if should_include_goal_in_capsule(goal.status) {
                state = state.merged_with_goal(goal);
            }
        },
        None => {},
    }
    state
}

/// Renders the text that brings events before the model.
pub fn background_event_steering_text(events: &Vec<BackgroundTriggerEvent>) -> (r: String)
    ensures
        r@ == steering_text(event_views(events@)),
{
    let ghost goal = rendered_events(event_views(events@));
    let mut parts: Vec<String> = Vec::new();
    let mut i: usize = 0;
    assert(texts(parts@) =~= goal.take(0));
    while i < events.len()
        invariant
            i <= events.len(),
            goal == rendered_events(event_views(events@)),
            texts(parts@) == goal.take(i as int),
        decreases events.len() - i,
    {
        let part = events[i].render();
        proof {
            lemma_texts_push(parts@, part);
            assert(goal.take(i + 1) =~= goal.take(i as int).push(goal[i as int]));
        }
        parts.push(part);
        i += 1;
    }
    assert(goal.take(i as int) =~= goal);
    join_strings(&parts, "\n\n")
}

/// A turn that shows background events, before it is started.
pub struct PendingTurn {
    pub events: Vec<BackgroundTriggerEvent>,
    /// The text of its one message.
    pub body: String,
}

/// What came of starting a turn.
#[derive(Clone, Copy, Debug, PartialEq, Eq, Structural)]
pub enum StartOutcome {
    /// The manager of threads is gone.
    NoThreadManager,
    /// The manager does not know the thread.
    NoThread,
    /// The thread did not take on idle work.
    Rejected,
    Started,
}

impl LinkContextStore {
    /// Records an event of a turn, and tells whether events that wait may now
    /// be shown.
    pub fn on_turn_event(&mut self, input: &TurnEventInput) -> (r: bool)
        requires
            old(self).wf(),
        ensures
            final(self).wf(),
            final(self)@ == old(self)@.turn_event(*input.event),
            r == (input.event is ExecBackgroundTrigger || input.event is ExecCommandEnd),
    {
        self.record_turn_event(input.event);
        match input.event {
            EventMsg::ExecBackgroundTrigger(_) => true,
            EventMsg::ExecCommandEnd(_) => true,
            _ => false,
        }
    }

    /// Takes the events that wait, as a turn to start.
    pub fn take_pending_turn(&mut self) -> (r: Option<PendingTurn>)
        requires
            old(self).wf(),
        ensures
            final(self).wf(),
            final(self)@ == old(self)@.popped(),
            r is None <==> old(self)@.pending.len() == 0,
            r matches Some(turn) ==> event_views(turn.events@) == old(self)@.pending
                && turn.body@ == steering_text(old(self)@.pending),
    {
        let events = self.pop_pending_background_events();
        assert(event_views(events@).len() == events.len());
        if events.len() == 0 {
            return None;
        }
        let body = background_event_steering_text(&events);
        Some(PendingTurn { events, body })
    }

    /// Puts the events of a turn back, unless it was started.
    pub fn finish_pending_turn(&mut self, turn: PendingTurn, outcome: StartOutcome)
        requires
            old(self).wf(),
        ensures
            final(self).wf(),
            final(self)@ == if outcome is Started {
                old(self)@
            } else {
                old(self)@.requeued(event_views(turn.events@))
            },
    {
        match outcome {
            StartOutcome::Started => {},
            StartOutcome::NoThreadManager
            | StartOutcome::NoThread
            | StartOutcome::Rejected => {
                self.requeue_background_events_front(turn.events);
            },
        }
    }
}

} // verus!
