//! What a connection does with the bytes of one read.

use vstd::prelude::*;
use crate::clock::{is_instant, Timestamp};
use crate::redis::{evaluate, writes_view, Redis, RedisError, RedisView};

verus! {

/// What to do after a read.
#[derive(Debug, PartialEq, Eq)]
pub enum ConnectionStep {
    /// The peer has closed: end the connection.
    Close,
    /// Write these chunks in order, then read again.
    Respond(Vec<Vec<u8>>),
    /// The request could not be carried out: give the connection up.
    Abort(RedisError),
}

/// The mathematical content of a step.
pub enum StepView {
    Close,
    Respond(Seq<Seq<u8>>),
    Abort(RedisError),
}

impl View for ConnectionStep {
    type V = StepView;

    open spec fn view(&self) -> StepView {
        match self {
            ConnectionStep::Close => StepView::Close,
            ConnectionStep::Respond(writes) => StepView::Respond(writes_view(*writes)),
            ConnectionStep::Abort(e) => StepView::Abort(*e),
        }
    }
}

/// The step after a read that brought `data`, at the time `now`: a read of
/// nothing ends the connection; anything else is taken as one request from
/// the start of the bytes.
pub open spec fn step_after_read(state: RedisView, data: Seq<u8>, now: int) -> (
    RedisView,
    StepView,
) {
    if data.len() == 0 {
        (state, StepView::Close)
    } else {
        match evaluate(state, data, now) {
            (after, Ok(writes)) => (after, StepView::Respond(writes)),
            (after, Err(e)) => (after, StepView::Abort(e)),
        }
    }
}

/// Decides the step after a read that brought `data`, as of the time `now`.
pub fn handle_read_at(redis: &mut Redis, data: &[u8], now: Timestamp) -> (step: ConnectionStep)
    ensures
        (final(redis)@, step@) == step_after_read(old(redis)@, data@, now@),
{
    if data.len() == 0 {
        return ConnectionStep::Close;
    }
    match redis.eval_at(data, now) {
        Ok(writes) => ConnectionStep::Respond(writes),
        Err(e) => ConnectionStep::Abort(e),
    }
}

/// Decides the step after a read that brought `data`, as of now, by the
/// wall clock: the outcome is that of `handle_read_at` for whatever the
/// clock reads.
pub fn handle_read(redis: &mut Redis, data: &[u8]) -> (step: ConnectionStep)
    ensures
        exists|now: int|
            is_instant(now) && #[trigger] step_after_read(old(redis)@, data@, now) == (
                final(redis)@,
                step@,
            ),
{
    if data.len() == 0 {
        assert(step_after_read(old(redis)@, data@, 0) == (redis@, StepView::Close));
        return ConnectionStep::Close;
    }
    let ghost before = redis@;
    match redis.eval(data) {
        Ok(writes) => {
            proof {
                let outcome = Ok::<Seq<Seq<u8>>, RedisError>(writes_view(writes));
                let now = choose|now: int|
                    is_instant(now) && #[trigger] evaluate(before, data@, now) == (
                        redis@,
                        outcome,
                    );
                assert(step_after_read(before, data@, now) == (
                    redis@,
                    StepView::Respond(writes_view(writes)),
                ));
            }
            ConnectionStep::Respond(writes)
        },
        Err(e) => {
            proof {
                let outcome = Err::<Seq<Seq<u8>>, RedisError>(e);
                let now = choose|now: int|
                    is_instant(now) && #[trigger] evaluate(before, data@, now) == (
                        redis@,
                        outcome,
                    );
                assert(step_after_read(before, data@, now) == (redis@, StepView::Abort(e)));
            }
            ConnectionStep::Abort(e)
        },
    }
}

} // verus!
