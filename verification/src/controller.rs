//! The loop controller: fetch a page, select the author's messages, delete
//! them, rest, and fetch again, until a page holds nothing of the author's.
//!
//! The controller does no work itself. It is told what came of each fetch
//! and when a batch is complete, and answers with what to do next.

use crate::batch::{BatchView, DeleteBatch};
use crate::message::{authored_by, cursor_after, cursor_text, filter_by_author, next_cursor, Message};
use crate::outcome::FetchError;
use crate::request::{page_request, page_request_for, PageRequest, PageRequestView};
use crate::settings::{BATCH_PAUSE_SECS, CONCURRENCY_LIMIT};
use vstd::prelude::*;

verus! {

/// Where a run stands.
#[derive(Clone, Copy, Debug, PartialEq, Eq, Structural)]
pub enum Phase {
    /// A page has been asked for.
    Fetching,
    /// A batch of deletions is under way.
    Deleting,
    /// A page held nothing of the author's: the run is over.
    Done,
    /// A page could not be fetched: the run is over.
    Failed,
}

/// What a driver reports to the controller.
#[derive(Debug)]
pub enum Event {
    /// The page that was asked for, as the server sent it: newest first.
    PageFetched(Vec<Message>),
    /// The page that was asked for could not be had.
    FetchFailed(FetchError),
    /// Every message of the batch has had its attempt.
    BatchCompleted,
}

/// An `Event`, with its page as a sequence.
pub enum EventView {
    PageFetched(Seq<Message>),
    FetchFailed(FetchError),
    BatchCompleted,
}

impl View for Event {
    type V = EventView;

    open spec fn view(&self) -> EventView {
        match *self {
            Event::PageFetched(page) => EventView::PageFetched(page@),
            Event::FetchFailed(error) => EventView::FetchFailed(error),
            Event::BatchCompleted => EventView::BatchCompleted,
        }
    }
}

/// What the controller asks its driver to do next.
#[derive(Debug)]
pub enum Action {
    /// Rest for so many seconds, then send this request and report what
    /// came of it.
    Fetch { request: PageRequest, pause_secs: u64 },
    /// Run this batch to its end and report that.
    Delete(DeleteBatch),
    /// The run is over: nothing of the author's is left to find.
    Finish,
    /// The run is over: report this error.
    Fail(FetchError),
}

/// An `Action`, with its request as text and its batch as a value.
pub enum ActionView {
    Fetch { request: PageRequestView, pause_secs: u64 },
    Delete(BatchView),
    Finish,
    Fail(FetchError),
}

impl View for Action {
    type V = ActionView;

    open spec fn view(&self) -> ActionView {
        match *self {
            Action::Fetch { request, pause_secs } => ActionView::Fetch {
                request: request@,
                pause_secs,
            },
            Action::Delete(batch) => ActionView::Delete(batch@),
            Action::Finish => ActionView::Finish,
            Action::Fail(error) => ActionView::Fail(error),
        }
    }
}

/// The view of an action that may be absent.
pub open spec fn action_view(action: Option<Action>) -> Option<ActionView> {
    match action {
        Some(a) => Some(a@),
        None => None,
    }
}

/// A controller as a value.
pub struct ControllerView {
    pub channel_id: Seq<char>,
    pub token: Seq<char>,
    pub author_id: Seq<char>,
    pub cursor: Option<Seq<char>>,
    pub phase: Phase,
}

impl ControllerView {
    /// The controller at the start of a run: about to fetch, with no cursor.
    pub open spec fn initial(channel_id: Seq<char>, token: Seq<char>, author_id: Seq<char>) -> ControllerView {
        ControllerView { channel_id, token, author_id, cursor: None, phase: Phase::Fetching }
    }

    /// The first thing to do: fetch the most recent page, at once.
    pub open spec fn first_action(self) -> ActionView {
        ActionView::Fetch {
            request: page_request_for(self.channel_id, self.token, None),
            pause_secs: 0,
        }
    }

    /// Whether the run is over.
    pub open spec fn is_over(self) -> bool {
        self.phase is Done || self.phase is Failed
    }

    /// Whether `event` can happen in this phase. What came of a fetch is
    /// taken while fetching, the end of a batch while deleting, and once
    /// the run is over nothing is.
    pub open spec fn accepts(self, event: EventView) -> bool {
        match event {
            EventView::PageFetched(_) => self.phase is Fetching,
            EventView::FetchFailed(_) => self.phase is Fetching,
            EventView::BatchCompleted => self.phase is Deleting,
        }
    }

    /// The messages of `page` that are to be deleted.
    pub open spec fn selection(self, page: Seq<Message>) -> Seq<Message> {
        authored_by(page, self.author_id)
    }

    /// The controller after `event`. An event that the phase does not
    /// accept changes nothing.
    pub open spec fn after(self, event: EventView) -> ControllerView {
        if !self.accepts(event) {
            self
        } else {
            match event {
                EventView::PageFetched(page) => ControllerView {
                    cursor: cursor_after(page, self.cursor),
                    phase: if self.selection(page).len() > 0 {
                        Phase::Deleting
                    } else {
                        Phase::Done
                    },
                    ..self
                },
                EventView::FetchFailed(_) => ControllerView { phase: Phase::Failed, ..self },
                EventView::BatchCompleted => ControllerView { phase: Phase::Fetching, ..self },
            }
        }
    }

    /// What is to be done after `event`; nothing where the phase does not
    /// accept it.
    pub open spec fn action(self, event: EventView) -> Option<ActionView> {
        if !self.accepts(event) {
            None
        } else {
            Some(
                match event {
                    EventView::PageFetched(page) => if self.selection(page).len() > 0 {
                        ActionView::Delete(
                            BatchView::initial(
                                self.channel_id,
                                self.token,
                                self.selection(page),
                                CONCURRENCY_LIMIT as nat,
                            ),
                        )
                    } else {
                        ActionView::Finish
                    },
                    EventView::FetchFailed(error) => ActionView::Fail(error),
                    EventView::BatchCompleted => ActionView::Fetch {
                        request: page_request_for(self.channel_id, self.token, self.cursor),
                        pause_secs: BATCH_PAUSE_SECS,
                    },
                },
            )
        }
    }

    /// The controller after a run of events.
    pub open spec fn after_all(self, events: Seq<EventView>) -> ControllerView
        decreases events.len(),
    {
        if events.len() == 0 {
            self
        } else {
            self.after_all(events.drop_last()).after(events.last())
        }
    }

    /// What the controller asks for over a run of events, in order.
    pub open spec fn issued(self, events: Seq<EventView>) -> Seq<ActionView>
        decreases events.len(),
    {
        if events.len() == 0 {
            Seq::empty()
        } else {
            let earlier = self.issued(events.drop_last());
            match self.after_all(events.drop_last()).action(events.last()) {
                Some(action) => earlier.push(action),
                None => earlier,
            }
        }
    }

    /// The controller after its fetches have been answered with `pages`, in
    /// order, and each batch that followed has been run to its end.
    pub open spec fn after_pages(self, pages: Seq<Seq<Message>>) -> ControllerView
        decreases pages.len(),
    {
        if pages.len() == 0 {
            self
        } else {
            self.after_pages(pages.drop_last()).after(EventView::PageFetched(pages.last())).after(
                EventView::BatchCompleted,
            )
        }
    }
}

/// The cursor follows the page as it was fetched: after a page that is not
/// empty it names the page's last message, whether or not the author wrote
/// that message or any other of the page.
pub proof fn lemma_cursor_follows_raw_page(c: ControllerView, page: Seq<Message>)
    requires
        c.phase is Fetching,
        page.len() > 0,
    ensures
        c.after(EventView::PageFetched(page)).cursor == Some(page.last().id@),
{
}

/// The phases follow one another in one order only: from fetching to
/// deleting, done or failed, from deleting back to fetching, and from done
/// or failed nowhere.
pub proof fn lemma_phases_follow_in_order(c: ControllerView, event: EventView)
    ensures
        c.phase is Fetching ==> c.after(event).phase is Fetching ==> !c.accepts(event),
        c.phase is Deleting ==> c.after(event).phase is Deleting || c.after(event).phase
            is Fetching,
        c.phase is Done ==> c.after(event).phase is Done,
        c.phase is Failed ==> c.after(event).phase is Failed,
        !c.accepts(event) ==> c.after(event) == c && c.action(event) is None,
{
}

/// Once a run is over it stays as it is, and nothing more is asked for:
/// no fetch, no batch.
pub proof fn lemma_over_is_final(c: ControllerView, events: Seq<EventView>)
    requires
        c.is_over(),
    ensures
        c.after_all(events) == c,
        c.issued(events) == Seq::<ActionView>::empty(),
    decreases events.len(),
{
    if events.len() > 0 {
        lemma_over_is_final(c, events.drop_last());
    }
}

proof fn lemma_pages_keep_fetching(c: ControllerView, pages: Seq<Seq<Message>>)
    requires
        c.phase is Fetching,
        forall|i: int| 0 <= i < pages.len() ==> (#[trigger] c.selection(pages[i])).len() > 0,
    ensures
        c.after_pages(pages).phase is Fetching,
    decreases pages.len(),
{
    if pages.len() > 0 {
        let earlier = pages.drop_last();
        assert forall|i: int| 0 <= i < earlier.len() implies (#[trigger] c.selection(
            earlier[i],
        )).len() > 0 by {
            assert(earlier[i] == pages[i]);
        }
        lemma_pages_keep_fetching(c, earlier);
        lemma_pages_keep_settings(c, earlier);
        assert(c.selection(pages[pages.len() - 1]).len() > 0);
    }
}

/// Between two fetches a run is either about to fetch or over, and it
/// keeps its channel, its credential and its author throughout.
pub proof fn lemma_pages_keep_settings(c: ControllerView, pages: Seq<Seq<Message>>)
    requires
        c.phase is Fetching,
    ensures
        c.after_pages(pages).phase is Fetching || c.after_pages(pages).phase is Done,
        c.after_pages(pages).channel_id == c.channel_id,
        c.after_pages(pages).token == c.token,
        c.after_pages(pages).author_id == c.author_id,
    decreases pages.len(),
{
    if pages.len() > 0 {
        lemma_pages_keep_settings(c, pages.drop_last());
    }
}

/// A run is over once a page has held nothing of the author's. Where the
/// last of the pages holds none of the author's messages, the run is done
/// after them, and whatever is reported afterwards no further fetch is
/// asked for.
pub proof fn lemma_run_ends_on_empty_selection(
    c: ControllerView,
    pages: Seq<Seq<Message>>,
    later: Seq<EventView>,
)
    requires
        c.phase is Fetching,
        pages.len() > 0,
        c.selection(pages.last()).len() == 0,
    ensures
        c.after_pages(pages).phase is Done,
        c.after_pages(pages).after_all(later) == c.after_pages(pages),
        c.after_pages(pages).issued(later) == Seq::<ActionView>::empty(),
{
    lemma_pages_keep_settings(c, pages.drop_last());
    lemma_over_is_final(c.after_pages(pages), later);
}

/// The run ends with the first page that holds nothing of the author's, not
/// before. Where every page but the last holds some message of the
/// author's and the last holds none, the run is still fetching when the
/// last page comes, and that page is answered with `Finish`.
pub proof fn lemma_run_ends_with_last_page(c: ControllerView, pages: Seq<Seq<Message>>)
    requires
        c.phase is Fetching,
        pages.len() > 0,
        forall|i: int| 0 <= i < pages.len() - 1 ==> (#[trigger] c.selection(pages[i])).len() > 0,
        c.selection(pages.last()).len() == 0,
    ensures
        c.after_pages(pages.drop_last()).phase is Fetching,
        c.after_pages(pages.drop_last()).action(EventView::PageFetched(pages.last())) == Some(
            ActionView::Finish,
        ),
{
    let earlier = pages.drop_last();
    assert forall|i: int| 0 <= i < earlier.len() implies (#[trigger] c.selection(earlier[i])).len()
        > 0 by {
        assert(earlier[i] == pages[i]);
    }
    lemma_pages_keep_fetching(c, earlier);
    lemma_pages_keep_settings(c, earlier);
}

/// A fetch that fails ends the run: the error is handed on as it came, and
/// whatever is reported afterwards no fetch and no batch is asked for.
pub proof fn lemma_fetch_failure_ends_run(
    c: ControllerView,
    error: FetchError,
    later: Seq<EventView>,
)
    requires
        c.phase is Fetching,
    ensures
        c.action(EventView::FetchFailed(error)) == Some(ActionView::Fail(error)),
        c.after(EventView::FetchFailed(error)).phase is Failed,
        c.after(EventView::FetchFailed(error)).after_all(later) == c.after(
            EventView::FetchFailed(error),
        ),
        c.after(EventView::FetchFailed(error)).issued(later) == Seq::<ActionView>::empty(),
{
    lemma_over_is_final(c.after(EventView::FetchFailed(error)), later);
}

/// The end of a batch is followed by the next fetch, from the cursor and
/// after the rest between batches, whatever became of the batch's requests:
/// the report that a batch is complete carries no outcome.
pub proof fn lemma_batch_end_resumes_fetching(c: ControllerView)
    requires
        c.phase is Deleting,
    ensures
        c.after(EventView::BatchCompleted).phase is Fetching,
        c.after(EventView::BatchCompleted).cursor == c.cursor,
        c.action(EventView::BatchCompleted) == Some(
            ActionView::Fetch {
                request: page_request_for(c.channel_id, c.token, c.cursor),
                pause_secs: BATCH_PAUSE_SECS,
            },
        ),
{
}

/// The loop controller of one run.
#[derive(Debug)]
pub struct Controller {
    channel_id: String,
    token: String,
    author_id: String,
    cursor: Option<String>,
    phase: Phase,
}

impl View for Controller {
    type V = ControllerView;

    closed spec fn view(&self) -> ControllerView {
        ControllerView {
            channel_id: self.channel_id@,
            token: self.token@,
            author_id: self.author_id@,
            cursor: cursor_text(self.cursor),
            phase: self.phase,
        }
    }
}

impl Controller {
    /// Starts a run that clears the messages of `author_id` out of the
    /// channel `channel_id`, with `token` as the credential of every
    /// request. The action is the first fetch.
    pub fn start(channel_id: String, token: String, author_id: String) -> (out: (Controller, Action))
        ensures
            out.0@ == ControllerView::initial(channel_id@, token@, author_id@),
            out.1@ == out.0@.first_action(),
    {
        let request = page_request(&channel_id, &token, &None);
        let controller = Controller {
            channel_id,
            token,
            author_id,
            cursor: None,
            phase: Phase::Fetching,
        };
        (controller, Action::Fetch { request, pause_secs: 0 })
    }

    /// Takes the controller one step on. `None`, with the controller
    /// unchanged, where `event` cannot happen in the present phase.
    ///
    /// A fetched page moves the cursor to its last message, whoever wrote
    /// it, before anything is selected. If the author wrote any of its
    /// messages they go out as a batch; if not, the run is done. A failed
    /// fetch ends the run with the error. A complete batch is followed,
    /// after a rest, by the fetch from the cursor.
    pub fn step(self, event: Event) -> (out: (Controller, Option<Action>))
        ensures
            out.0@ == self@.after(event@),
            action_view(out.1) == self@.action(event@),
    {
        match event {
            Event::PageFetched(page) => {
                match self.phase {
                    Phase::Fetching => {
                        let Controller { channel_id, token, author_id, cursor, phase } = self;
                        let cursor = next_cursor(&page, cursor);
                        let selection = filter_by_author(&page, &author_id);
                        if selection.len() > 0 {
                            let batch = DeleteBatch::new(
                                channel_id.clone(),
                                token.clone(),
                                selection,
                                CONCURRENCY_LIMIT,
                            );
                            let next = Controller {
                                channel_id,
                                token,
                                author_id,
                                cursor,
                                phase: Phase::Deleting,
                            };
                            (next, Some(Action::Delete(batch.unwrap())))
                        } else {
                            let next = Controller {
                                channel_id,
                                token,
                                author_id,
                                cursor,
                                phase: Phase::Done,
                            };
                            (next, Some(Action::Finish))
                        }
                    },
                    _ => (self, None),
                }
            },
            Event::FetchFailed(error) => {
                match self.phase {
                    Phase::Fetching => {
                        let Controller { channel_id, token, author_id, cursor, phase } = self;
                        let next = Controller {
                            channel_id,
                            token,
                            author_id,
                            cursor,
                            phase: Phase::Failed,
                        };
                        (next, Some(Action::Fail(error)))
                    },
                    _ => (self, None),
                }
            },
            Event::BatchCompleted => {
                match self.phase {
                    Phase::Deleting => {
                        let request = page_request(&self.channel_id, &self.token, &self.cursor);
                        let Controller { channel_id, token, author_id, cursor, phase } = self;
                        let next = Controller {
                            channel_id,
                            token,
                            author_id,
                            cursor,
                            phase: Phase::Fetching,
                        };
                        (next, Some(Action::Fetch { request, pause_secs: BATCH_PAUSE_SECS }))
                    },
                    _ => (self, None),
                }
            },
        }
    }

    /// Where the run stands.
    pub fn phase(&self) -> (phase: Phase)
        ensures
            phase == self@.phase,
    {
        self.phase
    }

    /// The cursor: the id of the last message of the last page that was
    /// not empty, if there has been one.
    pub fn cursor(&self) -> (cursor: &Option<String>)
        ensures
            cursor_text(*cursor) == self@.cursor,
    {
        &self.cursor
    }
}

} // verus!
