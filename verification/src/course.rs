//! The course of an operation as a whole: its own state, the state of the
//! request that it waits for, and whether the user has cancelled. Each part
//! moves as its own module says; the laws here are about all of them together.

use vstd::prelude::*;

use crate::exchange::{answer_of, begun, exchange_next, ExchangeEventView, ExchangeView};
use crate::run::{run_next, RunEventView, RunView};

verus! {

/// How far an operation has come: its state, the request that is under way,
/// whether it is cancelled, and how many requests went out.
pub struct CourseView {
    pub run: RunView,
    pub exchange: Option<ExchangeView>,
    pub cancelled: bool,
    pub sent: nat,
}

/// What happens in the course of an operation.
#[allow(inconsistent_fields)]
pub enum CourseEvent {
    /// The user cancels.
    Cancel,
    /// Something happened to the operation.
    Run { event: RunEventView },
    /// The request to execute is started; its URL gave this origin or none.
    Begin { target: Option<Seq<char>> },
    /// Something happened to the request that is under way.
    Exchange { event: ExchangeEventView },
    /// What the request came to is handed back.
    Finish,
}

/// How an operation starts, after one that was cancelled or was not.
pub open spec fn course_begun(
    operation: Seq<char>,
    input: Seq<char>,
    cancelled: bool,
) -> CourseView {
    CourseView {
        run: RunView::ClearCancel { operation, input },
        exchange: None,
        cancelled,
        sent: 0,
    }
}

/// What follows, in a session with the origin `own`. A cancellation stands until
/// an operation takes it back at its start, and a request is started in the
/// sight of it.
pub open spec fn course_next(state: CourseView, own: Seq<char>, event: CourseEvent) -> CourseView {
    match event {
        CourseEvent::Cancel => CourseView { cancelled: true, ..state },
        CourseEvent::Run { event } => if event is Executed {
            state
        } else {
            CourseView {
                run: run_next(state.run, event),
                cancelled: state.cancelled && !(state.run is ClearCancel && event is Cleared),
                ..state
            }
        },
        CourseEvent::Begin { target } => match (state.run, state.exchange) {
            (RunView::Execute { request, .. }, None) => {
                let exchange = begun(request, state.cancelled, own, target);
                CourseView {
                    exchange: Some(exchange),
                    sent: if exchange is Send {
                        state.sent + 1
                    } else {
                        state.sent
                    },
                    ..state
                }
            },
            _ => state,
        },
        CourseEvent::Exchange { event } => match state.exchange {
            Some(exchange) => CourseView {
                exchange: Some(exchange_next(exchange, event)),
                ..state
            },
            None => state,
        },
        CourseEvent::Finish => match state.exchange {
            Some(exchange) => if exchange is Done || exchange is Refused {
                CourseView {
                    run: run_next(
                        state.run,
                        RunEventView::Executed { answer: answer_of(exchange) },
                    ),
                    exchange: None,
                    ..state
                }
            } else {
                state
            },
            None => state,
        },
    }
}

/// How far an operation has come after all of `events`.
pub open spec fn course_after(
    state: CourseView,
    own: Seq<char>,
    events: Seq<CourseEvent>,
) -> CourseView
    decreases events.len(),
{
    if events.len() == 0 {
        state
    } else {
        course_next(course_after(state, own, events.drop_last()), own, events.last())
    }
}

/// Whether a wait for a television ends as cancelled exactly if the user has
/// cancelled.
pub open spec fn heeds_cancel(state: CourseView, event: CourseEvent) -> bool {
    event matches CourseEvent::Exchange { event } ==> event is Cancelled == state.cancelled
}

/// Whether every wait in these events does.
pub open spec fn all_heed_cancel(
    state: CourseView,
    own: Seq<char>,
    events: Seq<CourseEvent>,
) -> bool
    decreases events.len(),
{
    events.len() > 0 ==> all_heed_cancel(state, own, events.drop_last()) && heeds_cancel(
        course_after(state, own, events.drop_last()),
        events.last(),
    )
}

/// A cancellation from before an operation plays no part in it: whatever
/// happens, its course is the same as without one, once it has started.
pub proof fn law_past_cancel_plays_no_part(
    operation: Seq<char>,
    input: Seq<char>,
    own: Seq<char>,
    events: Seq<CourseEvent>,
)
    ensures
        ({
            let after = course_after(course_begun(operation, input, true), own, events);
            let without = course_after(course_begun(operation, input, false), own, events);
            &&& after.run == without.run
            &&& after.exchange == without.exchange
            &&& after.sent == without.sent
            &&& !(after.run is ClearCancel) ==> after == without
            &&& after.run is ClearCancel ==> after.exchange is None && after.sent == 0
        }),
    decreases events.len(),
{
    if events.len() > 0 {
        law_past_cancel_plays_no_part(operation, input, own, events.drop_last());
    }
}

/// An operation that has started is cancelled only if the user cancels it: no
/// wait in it ends as cancelled otherwise.
pub proof fn law_only_the_user_cancels(
    operation: Seq<char>,
    input: Seq<char>,
    cancelled: bool,
    own: Seq<char>,
    events: Seq<CourseEvent>,
)
    requires
        forall|i: int| 0 <= i < events.len() ==> !(#[trigger] events[i] is Cancel),
    ensures
        ({
            let after = course_after(course_begun(operation, input, cancelled), own, events);
            &&& !(after.run is ClearCancel) ==> !after.cancelled
            &&& after.run is ClearCancel ==> after.exchange is None
            &&& forall|event: ExchangeEventView| #[trigger]
                heeds_cancel(after, CourseEvent::Exchange { event }) && after.exchange is Some
                    ==> !(event is Cancelled)
        }),
    decreases events.len(),
{
    if events.len() > 0 {
        let earlier = events.drop_last();
        assert forall|i: int| 0 <= i < earlier.len() implies !(#[trigger] earlier[i] is Cancel) by {
            assert(earlier[i] == events[i]);
        }
        assert(!(events[events.len() - 1] is Cancel));
        law_only_the_user_cancels(operation, input, cancelled, own, earlier);
    }
}

/// A cancellation while an operation waits for a television ends the wait, and
/// the core hears under the number of its request that there is no response.
pub proof fn law_cancel_ends_the_wait(state: CourseView, own: Seq<char>)
    requires
        state.run is Execute,
        state.exchange matches Some(exchange) && (exchange is Send || exchange is Read),
    ensures
        ({
            let events = seq![
                CourseEvent::Cancel,
                CourseEvent::Exchange { event: ExchangeEventView::Cancelled },
                CourseEvent::Finish,
            ];
            let after = course_after(state, own, events);
            &&& after.run == (RunView::Reject { request_id: state.run->Execute_request_id })
            &&& after.exchange is None
            &&& after.cancelled
            &&& after.sent == state.sent
        }),
{
    let cancelled = CourseEvent::Exchange { event: ExchangeEventView::Cancelled };
    let e3 = seq![CourseEvent::Cancel, cancelled, CourseEvent::Finish];
    let e2 = e3.drop_last();
    let e1 = e2.drop_last();
    assert(e1.drop_last() =~= Seq::empty());
    assert(course_after(state, own, e1.drop_last()) == state);
    assert(course_after(state, own, e1) == course_next(state, own, CourseEvent::Cancel));
    assert(course_after(state, own, e2) == course_next(
        course_after(state, own, e1),
        own,
        cancelled,
    ));
}

/// Once an operation is cancelled, no further request goes out, and no response
/// reaches the core: each request that the core still asks for comes to nothing
/// and is rejected under its number.
pub proof fn law_nothing_goes_out_once_cancelled(
    state: CourseView,
    own: Seq<char>,
    events: Seq<CourseEvent>,
)
    requires
        state.cancelled,
        !(state.run is ClearCancel),
        !(state.exchange matches Some(exchange) && exchange is Done),
        all_heed_cancel(state, own, events),
    ensures
        ({
            let after = course_after(state, own, events);
            &&& after.cancelled
            &&& after.sent == state.sent
            &&& !(after.run is ClearCancel)
            &&& !(after.exchange matches Some(exchange) && exchange is Done)
            &&& after.run is Resolve ==> after.run == state.run
            &&& after.run is Execute && after.exchange == Some(ExchangeView::Refused)
                ==> course_next(after, own, CourseEvent::Finish).run == (RunView::Reject {
                request_id: after.run->Execute_request_id,
            })
        }),
    decreases events.len(),
{
    if events.len() > 0 {
        law_nothing_goes_out_once_cancelled(state, own, events.drop_last());
    }
}

} // verus!
