//! The concurrent deleter: one batch of messages, each deleted by one
//! request, a bounded number of requests under way at once.
//!
//! A batch does no work itself. It hands out tickets, one per message, and is
//! told when a ticket's request has come back and when the rest that follows
//! it is over. A ticket is the position of its message in the batch.

use crate::message::Message;
use crate::outcome::{classify_delete, outcome_of, DeleteError, DeleteReply};
use crate::request::{delete_request, delete_request_for, DeleteRequest, DeleteRequestView};
use crate::settings::DELETE_PAUSE_SECS;
use vstd::prelude::*;

verus! {

/// How far the attempt to delete one message has come.
#[derive(Clone, Copy, Debug, PartialEq, Eq, Structural)]
pub enum Stage {
    /// No request has been sent yet.
    Waiting,
    /// The request is under way.
    Deleting,
    /// The request has come back and its worker is resting.
    Pausing,
    /// The worker has moved on.
    Finished,
}

/// What became of the one attempt to delete a message.
#[derive(Debug)]
pub struct DeleteRecord {
    pub ticket: usize,
    pub message_id: String,
    pub outcome: Result<(), DeleteError>,
}

/// What a batch asks its driver to do next.
#[derive(Debug)]
pub enum BatchAction {
    /// Send this request, and report the reply under this ticket.
    Delete { ticket: usize, request: DeleteRequest },
    /// Nothing can be started: wait for a request or a rest to end.
    Wait,
    /// Every message has had its attempt and every worker is idle.
    Complete,
}

/// A `BatchAction`, with its request as text.
pub enum BatchActionView {
    Delete { ticket: usize, request: DeleteRequestView },
    Wait,
    Complete,
}

impl View for BatchAction {
    type V = BatchActionView;

    open spec fn view(&self) -> BatchActionView {
        match *self {
            BatchAction::Delete { ticket, request } => BatchActionView::Delete {
                ticket,
                request: request@,
            },
            BatchAction::Wait => BatchActionView::Wait,
            BatchAction::Complete => BatchActionView::Complete,
        }
    }
}

/// What can happen to a batch.
pub enum BatchStep {
    /// The driver asks what to do next.
    Poll,
    /// The request of a ticket has come back.
    AttemptFinished { ticket: int, outcome: Result<(), DeleteError> },
    /// The rest after a ticket's request is over.
    PauseElapsed { ticket: int },
}

/// The things that are counted over the stages of a batch.
pub enum Tally {
    /// Tickets whose request is under way.
    Sent,
    /// Tickets that occupy a worker: a request under way, or the rest after it.
    Busy,
    /// Tickets whose request has come back.
    Attempted,
}

/// Whether a ticket at `stage` counts for `tally`.
pub open spec fn counts(tally: Tally, stage: Stage) -> bool {
    match tally {
        Tally::Sent => stage is Deleting,
        Tally::Busy => stage is Deleting || stage is Pausing,
        Tally::Attempted => stage is Pausing || stage is Finished,
    }
}

/// How many of `stages` count for `tally`.
pub open spec fn count(stages: Seq<Stage>, tally: Tally) -> nat
    decreases stages.len(),
{
    if stages.len() == 0 {
        0
    } else {
        count(stages.drop_last(), tally) + if counts(tally, stages.last()) {
            1nat
        } else {
            0nat
        }
    }
}

/// How many steps a ticket at `stage` still has before it: to be handed
/// out, to come back, and to have rested.
pub open spec fn work_of(stage: Stage) -> nat {
    match stage {
        Stage::Waiting => 3,
        Stage::Deleting => 2,
        Stage::Pausing => 1,
        Stage::Finished => 0,
    }
}

/// How many steps the tickets at `stages` still have before them.
pub open spec fn work_left(stages: Seq<Stage>) -> nat
    decreases stages.len(),
{
    if stages.len() == 0 {
        0
    } else {
        work_left(stages.drop_last()) + work_of(stages.last())
    }
}

/// A batch as a value: its messages, the stage of each, and the record of
/// the attempts that have come back, in the order in which they did.
pub struct BatchView {
    pub channel_id: Seq<char>,
    pub token: Seq<char>,
    pub messages: Seq<Message>,
    pub limit: nat,
    pub stages: Seq<Stage>,
    pub started: nat,
    pub report: Seq<DeleteRecord>,
}

impl BatchView {
    /// The batch before anything has happened to it.
    pub open spec fn initial(
        channel_id: Seq<char>,
        token: Seq<char>,
        messages: Seq<Message>,
        limit: nat,
    ) -> BatchView {
        BatchView {
            channel_id,
            token,
            messages,
            limit,
            stages: Seq::new(messages.len(), |t: int| Stage::Waiting),
            started: 0,
            report: Seq::empty(),
        }
    }

    /// How many tickets occupy a worker.
    pub open spec fn in_flight(self) -> nat {
        count(self.stages, Tally::Busy)
    }

    /// How many requests are under way.
    pub open spec fn under_way(self) -> nat {
        count(self.stages, Tally::Sent)
    }

    /// Whether the report holds a record of `ticket`.
    pub open spec fn recorded(self, ticket: int) -> bool {
        exists|i: int| 0 <= i < self.report.len() && #[trigger] self.report[i].ticket == ticket
    }

    /// Whether the record at `i` is that of a ticket whose request has come
    /// back, under the id of that ticket's message.
    pub open spec fn record_fits(self, i: int) -> bool {
        let record = self.report[i];
        &&& record.ticket < self.stages.len()
        &&& counts(Tally::Attempted, self.stages[record.ticket as int])
        &&& record.message_id == self.messages[record.ticket as int].id
    }

    /// What holds of every batch: tickets are handed out in order, never
    /// more of them occupy a worker than the limit allows, and the report
    /// holds one record for each request that has come back.
    pub open spec fn wf(self) -> bool {
        &&& self.limit >= 1
        &&& self.messages.len() <= usize::MAX
        &&& self.stages.len() == self.messages.len()
        &&& self.started <= self.messages.len()
        &&& forall|t: int|
            0 <= t < self.stages.len() ==> (#[trigger] self.stages[t] is Waiting <==> t
                >= self.started)
        &&& self.in_flight() <= self.limit
        &&& self.report.len() == count(self.stages, Tally::Attempted)
        &&& forall|i: int| 0 <= i < self.report.len() ==> #[trigger] self.record_fits(i)
        &&& forall|i: int, j: int|
            0 <= i < j < self.report.len() ==> (#[trigger] self.report[i]).ticket != (
            #[trigger] self.report[j]).ticket
        &&& forall|t: int|
            0 <= t < self.stages.len() && counts(Tally::Attempted, #[trigger] self.stages[t])
                ==> self.recorded(t)
    }

    /// Whether a further request may be started.
    pub open spec fn can_start(self) -> bool {
        self.started < self.messages.len() && self.in_flight() < self.limit
    }

    /// Whether every message has had its attempt and every worker is idle.
    pub open spec fn is_complete(self) -> bool {
        self.started == self.messages.len() && self.in_flight() == 0
    }

    /// Whether the request of `ticket` is under way.
    pub open spec fn is_deleting(self, ticket: int) -> bool {
        0 <= ticket < self.stages.len() && self.stages[ticket] is Deleting
    }

    /// Whether the worker of `ticket` is resting.
    pub open spec fn is_pausing(self, ticket: int) -> bool {
        0 <= ticket < self.stages.len() && self.stages[ticket] is Pausing
    }

    /// The batch once the next ticket has been handed out.
    pub open spec fn start_next(self) -> BatchView {
        BatchView {
            stages: self.stages.update(self.started as int, Stage::Deleting),
            started: self.started + 1,
            ..self
        }
    }

    /// The record of `ticket` with this outcome.
    pub open spec fn record_of(self, ticket: int, outcome: Result<(), DeleteError>) -> DeleteRecord {
        DeleteRecord { ticket: ticket as usize, message_id: self.messages[ticket].id, outcome }
    }

    /// The batch once the request of `ticket` has come back with `outcome`.
    pub open spec fn record(self, ticket: int, outcome: Result<(), DeleteError>) -> BatchView {
        BatchView {
            stages: self.stages.update(ticket, Stage::Pausing),
            report: self.report.push(self.record_of(ticket, outcome)),
            ..self
        }
    }

    /// The batch once the worker of `ticket` has rested.
    pub open spec fn release(self, ticket: int) -> BatchView {
        BatchView { stages: self.stages.update(ticket, Stage::Finished), ..self }
    }

    /// How many steps are left until the batch is complete.
    pub open spec fn remaining(self) -> nat {
        work_left(self.stages)
    }

    /// Whether `step` fits the batch: a poll where a request may be
    /// started, the return of a request that is under way, the end of a
    /// rest that is being taken.
    pub open spec fn fits(self, step: BatchStep) -> bool {
        match step {
            BatchStep::Poll => self.can_start(),
            BatchStep::AttemptFinished { ticket, outcome } => self.is_deleting(ticket),
            BatchStep::PauseElapsed { ticket } => self.is_pausing(ticket),
        }
    }

    /// The batch after one step. A step that does not fit the batch changes
    /// nothing.
    pub open spec fn after(self, step: BatchStep) -> BatchView {
        if !self.fits(step) {
            self
        } else {
            match step {
                BatchStep::Poll => self.start_next(),
                BatchStep::AttemptFinished { ticket, outcome } => self.record(ticket, outcome),
                BatchStep::PauseElapsed { ticket } => self.release(ticket),
            }
        }
    }

    /// The batch after a run of steps.
    pub open spec fn after_all(self, steps: Seq<BatchStep>) -> BatchView
        decreases steps.len(),
    {
        if steps.len() == 0 {
            self
        } else {
            self.after_all(steps.drop_last()).after(steps.last())
        }
    }

    /// What the batch asks for when it is polled.
    pub open spec fn poll_action(self) -> BatchActionView {
        if self.can_start() {
            BatchActionView::Delete {
                ticket: self.started as usize,
                request: delete_request_for(
                    self.channel_id,
                    self.token,
                    self.messages[self.started as int].id@,
                ),
            }
        } else if self.is_complete() {
            BatchActionView::Complete
        } else {
            BatchActionView::Wait
        }
    }
}

proof fn lemma_count_update(stages: Seq<Stage>, tally: Tally, t: int, stage: Stage)
    requires
        0 <= t < stages.len(),
    ensures
        count(stages.update(t, stage), tally) + (if counts(tally, stages[t]) {
            1nat
        } else {
            0nat
        }) == count(stages, tally) + (if counts(tally, stage) {
            1nat
        } else {
            0nat
        }),
    decreases stages.len(),
{
    let updated = stages.update(t, stage);
    if t == stages.len() - 1 {
        assert(updated.drop_last() == stages.drop_last());
    } else {
        assert(updated.drop_last() == stages.drop_last().update(t, stage));
        lemma_count_update(stages.drop_last(), tally, t, stage);
    }
}

proof fn lemma_count_bounds(stages: Seq<Stage>, tally: Tally)
    ensures
        count(stages, tally) <= stages.len(),
        count(stages, tally) == 0 <==> forall|t: int|
            0 <= t < stages.len() ==> !counts(tally, #[trigger] stages[t]),
        count(stages, tally) == stages.len() <==> forall|t: int|
            0 <= t < stages.len() ==> counts(tally, #[trigger] stages[t]),
    decreases stages.len(),
{
    if stages.len() > 0 {
        let init = stages.drop_last();
        lemma_count_bounds(init, tally);
        assert forall|t: int| 0 <= t < init.len() implies #[trigger] init[t] == stages[t] by {}
        if count(stages, tally) == 0 {
            assert forall|t: int| 0 <= t < stages.len() implies !counts(
                tally,
                #[trigger] stages[t],
            ) by {
                if t < init.len() {
                    assert(init[t] == stages[t]);
                }
            }
        }
        if forall|t: int| 0 <= t < stages.len() ==> !counts(tally, #[trigger] stages[t]) {
            assert forall|t: int| 0 <= t < init.len() implies !counts(tally, #[trigger] init[t]) by {
                assert(init[t] == stages[t]);
            }
            assert(!counts(tally, stages[stages.len() - 1]));
        }
        if count(stages, tally) == stages.len() {
            assert forall|t: int| 0 <= t < stages.len() implies counts(
                tally,
                #[trigger] stages[t],
            ) by {
                if t < init.len() {
                    assert(init[t] == stages[t]);
                }
            }
        }
        if forall|t: int| 0 <= t < stages.len() ==> counts(tally, #[trigger] stages[t]) {
            assert forall|t: int| 0 <= t < init.len() implies counts(tally, #[trigger] init[t]) by {
                assert(init[t] == stages[t]);
            }
            assert(counts(tally, stages[stages.len() - 1]));
        }
    }
}

/// The requests under way are among the tickets that occupy a worker.
pub proof fn lemma_under_way_is_in_flight(stages: Seq<Stage>)
    ensures
        count(stages, Tally::Sent) <= count(stages, Tally::Busy),
    decreases stages.len(),
{
    if stages.len() > 0 {
        lemma_under_way_is_in_flight(stages.drop_last());
    }
}

/// A fresh batch is well formed, with no ticket handed out.
pub proof fn lemma_initial_wf(
    channel_id: Seq<char>,
    token: Seq<char>,
    messages: Seq<Message>,
    limit: nat,
)
    requires
        limit >= 1,
        messages.len() <= usize::MAX,
    ensures
        BatchView::initial(channel_id, token, messages, limit).wf(),
        BatchView::initial(channel_id, token, messages, limit).in_flight() == 0,
{
    let b = BatchView::initial(channel_id, token, messages, limit);
    lemma_count_bounds(b.stages, Tally::Busy);
    lemma_count_bounds(b.stages, Tally::Attempted);
}

proof fn lemma_start_keeps_wf(b: BatchView)
    requires
        b.wf(),
        b.can_start(),
    ensures
        b.start_next().wf(),
        b.start_next().in_flight() == b.in_flight() + 1,
{
    let next = b.start_next();
    let t = b.started as int;
    assert(b.stages[t] is Waiting);
    lemma_count_update(b.stages, Tally::Busy, t, Stage::Deleting);
    lemma_count_update(b.stages, Tally::Attempted, t, Stage::Deleting);
    assert forall|i: int| 0 <= i < next.report.len() implies #[trigger] next.record_fits(i) by {
        assert(b.record_fits(i));
    }
    assert forall|u: int|
        0 <= u < next.stages.len() && counts(
            Tally::Attempted,
            #[trigger] next.stages[u],
        ) implies next.recorded(u) by {
        assert(counts(Tally::Attempted, b.stages[u]));
        assert(b.recorded(u));
        let i = choose|i: int| 0 <= i < b.report.len() && #[trigger] b.report[i].ticket == u;
        assert(next.report[i].ticket == u);
    }
}

proof fn lemma_record_keeps_wf(b: BatchView, ticket: int, outcome: Result<(), DeleteError>)
    requires
        b.wf(),
        b.is_deleting(ticket),
    ensures
        b.record(ticket, outcome).wf(),
        b.record(ticket, outcome).in_flight() == b.in_flight(),
{
    let next = b.record(ticket, outcome);
    let n = b.report.len() as int;
    lemma_count_update(b.stages, Tally::Busy, ticket, Stage::Pausing);
    lemma_count_update(b.stages, Tally::Attempted, ticket, Stage::Pausing);
    assert(next.report[n] == b.record_of(ticket, outcome));
    assert forall|i: int| 0 <= i < next.report.len() implies #[trigger] next.record_fits(i) by {
        if i < n {
            assert(b.record_fits(i));
            assert(next.report[i] == b.report[i]);
        }
    }
    assert forall|i: int, j: int| 0 <= i < j < next.report.len() implies (
    #[trigger] next.report[i]).ticket != (#[trigger] next.report[j]).ticket by {
        assert(next.report[i] == b.report[i]);
        assert(b.record_fits(i));
        if j < n {
            assert(next.report[j] == b.report[j]);
        }
    }
    assert forall|u: int|
        0 <= u < next.stages.len() && counts(
            Tally::Attempted,
            #[trigger] next.stages[u],
        ) implies next.recorded(u) by {
        if u == ticket {
            assert(next.report[n].ticket == u);
        } else {
            assert(counts(Tally::Attempted, b.stages[u]));
            assert(b.recorded(u));
            let i = choose|i: int| 0 <= i < b.report.len() && #[trigger] b.report[i].ticket == u;
            assert(next.report[i].ticket == u);
        }
    }
}

proof fn lemma_release_keeps_wf(b: BatchView, ticket: int)
    requires
        b.wf(),
        b.is_pausing(ticket),
    ensures
        b.release(ticket).wf(),
        b.release(ticket).in_flight() + 1 == b.in_flight(),
{
    let next = b.release(ticket);
    lemma_count_update(b.stages, Tally::Busy, ticket, Stage::Finished);
    lemma_count_update(b.stages, Tally::Attempted, ticket, Stage::Finished);
    assert forall|i: int| 0 <= i < next.report.len() implies #[trigger] next.record_fits(i) by {
        assert(b.record_fits(i));
    }
    assert forall|u: int|
        0 <= u < next.stages.len() && counts(
            Tally::Attempted,
            #[trigger] next.stages[u],
        ) implies next.recorded(u) by {
        assert(counts(Tally::Attempted, b.stages[u]));
        assert(b.recorded(u));
        let i = choose|i: int| 0 <= i < b.report.len() && #[trigger] b.report[i].ticket == u;
        assert(next.report[i].ticket == u);
    }
}

/// No step takes a batch out of the well-formed ones, and a worker is
/// occupied from the moment its ticket is handed out until its rest is
/// over: handing out a ticket adds one to the tickets in flight, the return
/// of a request leaves them as they are, and the end of a rest takes one off.
pub proof fn lemma_step_keeps_wf(b: BatchView, step: BatchStep)
    requires
        b.wf(),
    ensures
        b.after(step).wf(),
        b.after(step).in_flight() == b.in_flight() + match step {
            BatchStep::Poll => if b.can_start() {
                1int
            } else {
                0int
            },
            BatchStep::AttemptFinished { ticket, outcome } => 0int,
            BatchStep::PauseElapsed { ticket } => if b.is_pausing(ticket) {
                -1int
            } else {
                0int
            },
        },
{
    match step {
        BatchStep::Poll => {
            if b.can_start() {
                lemma_start_keeps_wf(b);
            }
        },
        BatchStep::AttemptFinished { ticket, outcome } => {
            if b.is_deleting(ticket) {
                lemma_record_keeps_wf(b, ticket, outcome);
            }
        },
        BatchStep::PauseElapsed { ticket } => {
            if b.is_pausing(ticket) {
                lemma_release_keeps_wf(b, ticket);
            }
        },
    }
}

/// Whatever happens to a batch, in whatever order, never more requests are
/// under way than its limit allows: the tickets that occupy a worker are
/// never more than the limit, and the requests under way are among them.
pub proof fn lemma_concurrency_bound(
    channel_id: Seq<char>,
    token: Seq<char>,
    messages: Seq<Message>,
    limit: nat,
    steps: Seq<BatchStep>,
)
    requires
        limit >= 1,
        messages.len() <= usize::MAX,
    ensures
        BatchView::initial(channel_id, token, messages, limit).after_all(steps).wf(),
        BatchView::initial(channel_id, token, messages, limit).after_all(steps).limit == limit,
        BatchView::initial(channel_id, token, messages, limit).after_all(steps).in_flight()
            <= limit,
        BatchView::initial(channel_id, token, messages, limit).after_all(steps).under_way()
            <= limit,
    decreases steps.len(),
{
    let b = BatchView::initial(channel_id, token, messages, limit);
    if steps.len() == 0 {
        lemma_initial_wf(channel_id, token, messages, limit);
    } else {
        lemma_concurrency_bound(channel_id, token, messages, limit, steps.drop_last());
        lemma_step_keeps_wf(b.after_all(steps.drop_last()), steps.last());
    }
    lemma_under_way_is_in_flight(b.after_all(steps).stages);
}

/// A step never takes a record back or alters one: the report after the
/// step begins with the report before it.
pub proof fn lemma_report_only_grows(b: BatchView, step: BatchStep)
    ensures
        b.report.is_prefix_of(b.after(step).report),
{
}

/// The outcome of one attempt has no bearing on another. While two requests
/// are under way, the return of the first, whatever it brings, leaves the
/// second under way, and both outcomes enter the report as they came.
pub proof fn lemma_attempts_are_isolated(
    b: BatchView,
    first: int,
    first_outcome: Result<(), DeleteError>,
    second: int,
    second_outcome: Result<(), DeleteError>,
)
    requires
        b.wf(),
        b.is_deleting(first),
        b.is_deleting(second),
        first != second,
    ensures
        b.record(first, first_outcome).is_deleting(second),
        b.record(first, first_outcome).record(second, second_outcome).wf(),
        b.record(first, first_outcome).record(second, second_outcome).report == b.report.push(
            b.record_of(first, first_outcome),
        ).push(b.record_of(second, second_outcome)),
{
    lemma_record_keeps_wf(b, first, first_outcome);
    lemma_record_keeps_wf(b.record(first, first_outcome), second, second_outcome);
}

/// In a complete batch every message has had its one attempt: each ticket
/// is finished and recorded, and the report is as long as the batch.
pub proof fn lemma_complete_covers_all(b: BatchView)
    requires
        b.wf(),
        b.is_complete(),
    ensures
        b.report.len() == b.messages.len(),
        forall|t: int| 0 <= t < b.messages.len() ==> #[trigger] b.stages[t] is Finished,
        forall|t: int| 0 <= t < b.messages.len() ==> #[trigger] b.recorded(t),
{
    lemma_count_bounds(b.stages, Tally::Busy);
    lemma_count_bounds(b.stages, Tally::Attempted);
    assert forall|t: int| 0 <= t < b.messages.len() implies #[trigger] b.stages[t] is Finished by {
        assert(!(b.stages[t] is Waiting));
        assert(!counts(Tally::Busy, b.stages[t]));
    }
    assert forall|t: int| 0 <= t < b.stages.len() implies counts(
        Tally::Attempted,
        #[trigger] b.stages[t],
    ) by {
        assert(b.stages[t] is Finished);
    }
    assert forall|t: int| 0 <= t < b.messages.len() implies #[trigger] b.recorded(t) by {
        assert(counts(Tally::Attempted, b.stages[t]));
    }
}

proof fn lemma_work_update(stages: Seq<Stage>, t: int, stage: Stage)
    requires
        0 <= t < stages.len(),
    ensures
        work_left(stages.update(t, stage)) + work_of(stages[t]) == work_left(stages) + work_of(
            stage,
        ),
    decreases stages.len(),
{
    let updated = stages.update(t, stage);
    if t == stages.len() - 1 {
        assert(updated.drop_last() == stages.drop_last());
    } else {
        assert(updated.drop_last() == stages.drop_last().update(t, stage));
        lemma_work_update(stages.drop_last(), t, stage);
    }
}

proof fn lemma_work_done(stages: Seq<Stage>)
    ensures
        work_left(stages) == 0 <==> forall|t: int|
            0 <= t < stages.len() ==> #[trigger] stages[t] is Finished,
    decreases stages.len(),
{
    if stages.len() > 0 {
        let init = stages.drop_last();
        lemma_work_done(init);
        if work_left(stages) == 0 {
            assert forall|t: int| 0 <= t < stages.len() implies #[trigger] stages[t]
                is Finished by {
                if t < init.len() {
                    assert(init[t] == stages[t]);
                }
            }
        }
        if forall|t: int| 0 <= t < stages.len() ==> #[trigger] stages[t] is Finished {
            assert forall|t: int| 0 <= t < init.len() implies #[trigger] init[t] is Finished by {
                assert(init[t] == stages[t]);
            }
            assert(stages[stages.len() - 1] is Finished);
        }
    }
}

/// Every step that fits takes a batch one step nearer to its end, whatever
/// the step brings: a failed delete counts like a confirmed one. A batch of
/// so many messages is therefore complete after three fitting steps for
/// each of them, and not before.
pub proof fn lemma_step_makes_progress(b: BatchView, step: BatchStep)
    requires
        b.wf(),
        b.fits(step),
    ensures
        b.after(step).remaining() + 1 == b.remaining(),
{
    match step {
        BatchStep::Poll => {
            assert(b.stages[b.started as int] is Waiting);
            lemma_work_update(b.stages, b.started as int, Stage::Deleting);
        },
        BatchStep::AttemptFinished { ticket, outcome } => {
            lemma_work_update(b.stages, ticket, Stage::Pausing);
        },
        BatchStep::PauseElapsed { ticket } => {
            lemma_work_update(b.stages, ticket, Stage::Finished);
        },
    }
}

/// A batch is complete exactly when no step is left.
pub proof fn lemma_complete_when_no_work(b: BatchView)
    requires
        b.wf(),
    ensures
        b.is_complete() <==> b.remaining() == 0,
{
    lemma_work_done(b.stages);
    lemma_count_bounds(b.stages, Tally::Busy);
    if b.is_complete() {
        lemma_complete_covers_all(b);
    }
    if b.remaining() == 0 {
        assert forall|t: int| 0 <= t < b.stages.len() implies !counts(
            Tally::Busy,
            #[trigger] b.stages[t],
        ) by {
            assert(b.stages[t] is Finished);
        }
        if b.started < b.messages.len() {
            assert(b.stages[b.started as int] is Finished);
        }
    }
}

/// A batch never comes to a standstill before its end: while it is not
/// complete, a request can be started, or one is under way, or a worker
/// rests.
pub proof fn lemma_batch_never_stalls(b: BatchView)
    requires
        b.wf(),
        !b.is_complete(),
    ensures
        b.can_start() || exists|t: int| b.is_deleting(t) || b.is_pausing(t),
{
    lemma_count_bounds(b.stages, Tally::Busy);
    if !b.can_start() {
        assert(b.in_flight() > 0);
        let t = choose|t: int| 0 <= t < b.stages.len() && counts(Tally::Busy, #[trigger] b.stages[t]);
        assert(b.is_deleting(t) || b.is_pausing(t));
    }
}

/// One batch of the concurrent deleter.
#[derive(Debug)]
pub struct DeleteBatch {
    channel_id: String,
    token: String,
    messages: Vec<Message>,
    limit: usize,
    stages: Vec<Stage>,
    started: usize,
    busy: usize,
    report: Vec<DeleteRecord>,
}

impl View for DeleteBatch {
    type V = BatchView;

    closed spec fn view(&self) -> BatchView {
        BatchView {
            channel_id: self.channel_id@,
            token: self.token@,
            messages: self.messages@,
            limit: self.limit as nat,
            stages: self.stages@,
            started: self.started as nat,
            report: self.report@,
        }
    }
}

impl DeleteBatch {
    #[verifier::type_invariant]
    spec fn inv(self) -> bool {
        self@.wf() && self.busy == self@.in_flight()
    }

    /// A batch that deletes `messages` from the channel, with at most
    /// `limit` requests under way at once. A batch needs a worker: with a
    /// limit of zero there is none.
    pub fn new(channel_id: String, token: String, messages: Vec<Message>, limit: usize) -> (batch:
        Option<DeleteBatch>)
        ensures
            batch is None <==> limit == 0,
            batch matches Some(b) ==> b@ == BatchView::initial(
                channel_id@,
                token@,
                messages@,
                limit as nat,
            ) && b@.wf(),
    {
        if limit == 0 {
            return None;
        }
        let mut stages: Vec<Stage> = Vec::new();
        let mut t: usize = 0;
        while t < messages.len()
            invariant
                t <= messages.len(),
                stages@ == Seq::new(t as nat, |u: int| Stage::Waiting),
            decreases messages.len() - t,
        {
            stages.push(Stage::Waiting);
            t += 1;
        }
        proof {
            lemma_initial_wf(channel_id@, token@, messages@, limit as nat);
        }
        Some(
            DeleteBatch {
                channel_id,
                token,
                messages,
                limit,
                stages,
                started: 0,
                busy: 0,
                report: Vec::new(),
            },
        )
    }

    /// Asks the batch what to do next. Where a worker is free and a message
    /// is left, the next ticket is handed out with its request.
    pub fn poll(self) -> (out: (DeleteBatch, BatchAction))
        ensures
            out.0@ == self@.after(BatchStep::Poll),
            out.0@.wf(),
            out.1@ == self@.poll_action(),
    {
        proof {
            use_type_invariant(&self);
        }
        if self.started < self.messages.len() && self.busy < self.limit {
            let ticket = self.started;
            let request = delete_request(&self.channel_id, &self.token, &self.messages[ticket].id);
            proof {
                lemma_start_keeps_wf(self@);
            }
            let DeleteBatch { channel_id, token, messages, limit, mut stages, started, busy, report } =
                self;
            stages.set(ticket, Stage::Deleting);
            let next = DeleteBatch {
                channel_id,
                token,
                messages,
                limit,
                stages,
                started: started + 1,
                busy: busy + 1,
                report,
            };
            (next, BatchAction::Delete { ticket, request })
        } else if self.busy > 0 {
            (self, BatchAction::Wait)
        } else {
            (self, BatchAction::Complete)
        }
    }

    /// Tells the batch that the request of `ticket` has come back. The
    /// outcome is recorded whatever it is, and the worker is to rest for
    /// the returned number of seconds. `None`, with the batch unchanged,
    /// where no request of that ticket is under way.
    pub fn attempt_finished(self, ticket: usize, reply: DeleteReply) -> (out: (
        DeleteBatch,
        Option<u64>,
    ))
        ensures
            out.0@ == self@.after(
                BatchStep::AttemptFinished { ticket: ticket as int, outcome: outcome_of(reply) },
            ),
            out.0@.wf(),
            out.1 == if self@.is_deleting(ticket as int) {
                Some(DELETE_PAUSE_SECS)
            } else {
                None::<u64>
            },
    {
        proof {
            use_type_invariant(&self);
        }
        let under_way = ticket < self.stages.len() && match self.stages[ticket] {
            Stage::Deleting => true,
            _ => false,
        };
        if under_way {
            let outcome = classify_delete(reply);
            let record = DeleteRecord {
                ticket,
                message_id: self.messages[ticket].id.clone(),
                outcome,
            };
            proof {
                lemma_record_keeps_wf(self@, ticket as int, outcome);
            }
            let DeleteBatch {
                channel_id,
                token,
                messages,
                limit,
                mut stages,
                started,
                busy,
                mut report,
            } = self;
            stages.set(ticket, Stage::Pausing);
            report.push(record);
            let next = DeleteBatch {
                channel_id,
                token,
                messages,
                limit,
                stages,
                started,
                busy,
                report,
            };
            (next, Some(DELETE_PAUSE_SECS))
        } else {
            (self, None)
        }
    }

    /// Tells the batch that the rest after the request of `ticket` is over,
    /// which frees its worker. `false`, with the batch unchanged, where no
    /// worker rests for that ticket.
    pub fn pause_elapsed(self, ticket: usize) -> (out: (DeleteBatch, bool))
        ensures
            out.0@ == self@.after(BatchStep::PauseElapsed { ticket: ticket as int }),
            out.0@.wf(),
            out.1 == self@.is_pausing(ticket as int),
    {
        proof {
            use_type_invariant(&self);
        }
        let resting = ticket < self.stages.len() && match self.stages[ticket] {
            Stage::Pausing => true,
            _ => false,
        };
        if resting {
            proof {
                lemma_release_keeps_wf(self@, ticket as int);
            }
            let DeleteBatch { channel_id, token, messages, limit, mut stages, started, busy, report } =
                self;
            stages.set(ticket, Stage::Finished);
            let next = DeleteBatch {
                channel_id,
                token,
                messages,
                limit,
                stages,
                started,
                busy: busy - 1,
                report,
            };
            (next, true)
        } else {
            (self, false)
        }
    }

    /// Whether every message has had its attempt and every worker is idle.
    pub fn is_complete(&self) -> (yes: bool)
        ensures
            yes == self@.is_complete(),
    {
        proof {
            use_type_invariant(self);
        }
        self.started == self.messages.len() && self.busy == 0
    }

    /// How many tickets occupy a worker.
    pub fn in_flight(&self) -> (n: usize)
        ensures
            n == self@.in_flight(),
            n <= self@.limit,
    {
        proof {
            use_type_invariant(self);
        }
        self.busy
    }

    /// How many tickets may occupy a worker at once.
    pub fn limit(&self) -> (n: usize)
        ensures
            n == self@.limit,
    {
        self.limit
    }

    /// The messages of the batch; a ticket is a position in them.
    pub fn messages(&self) -> (messages: &Vec<Message>)
        ensures
            messages@ == self@.messages,
    {
        &self.messages
    }

    /// The records of the attempts that have come back, oldest first.
    pub fn report(&self) -> (records: &Vec<DeleteRecord>)
        ensures
            records@ == self@.report,
    {
        &self.report
    }

    /// The stage of `ticket`, where the batch has such a ticket.
    pub fn stage(&self, ticket: usize) -> (stage: Option<Stage>)
        ensures
            stage == if ticket < self@.stages.len() {
                Some(self@.stages[ticket as int])
            } else {
                None::<Stage>
            },
    {
        proof {
            use_type_invariant(self);
        }
        if ticket < self.stages.len() {
            Some(self.stages[ticket])
        } else {
            None
        }
    }
}

} // verus!
