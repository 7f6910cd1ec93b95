//! Messages, pages of messages, and the selection of one author's messages.

use crate::order::{compare_text, lemma_text_rank_same, text_rank, Rank};
use std::cmp::Ordering;
use vstd::prelude::*;
use vstd::std_specs::cmp::{PartialEqSpec, PartialOrdSpec};

verus! {

/// The author of a message.
#[derive(Debug)]
pub struct Author {
    pub id: String,
}

/// A message of the channel. Its identity is its `id`: two messages are the
/// same message when their ids are the same text, and one comes before
/// another when its id does, as text.
#[derive(Debug)]
pub struct Message {
    pub id: String,
    pub author: Author,
}

impl Clone for Author {
    fn clone(&self) -> (copy: Self)
        ensures
            copy == *self,
    {
        Author { id: self.id.clone() }
    }
}

impl Clone for Message {
    fn clone(&self) -> (copy: Self)
        ensures
            copy == *self,
    {
        Message { id: self.id.clone(), author: self.author.clone() }
    }
}

impl PartialEq for Message {
    fn eq(&self, other: &Self) -> (same: bool) {
        self.id == other.id
    }
}

impl vstd::std_specs::cmp::PartialEqSpecImpl for Message {
    open spec fn obeys_eq_spec() -> bool {
        true
    }

    open spec fn eq_spec(&self, other: &Self) -> bool {
        self.id@ == other.id@
    }
}

impl PartialOrd for Message {
    fn partial_cmp(&self, other: &Self) -> (order: Option<Ordering>) {
        match compare_text(&self.id, &other.id) {
            Rank::Before => Some(Ordering::Less),
            Rank::Same => Some(Ordering::Equal),
            Rank::After => Some(Ordering::Greater),
        }
    }
}

impl vstd::std_specs::cmp::PartialOrdSpecImpl for Message {
    open spec fn obeys_partial_cmp_spec() -> bool {
        true
    }

    open spec fn partial_cmp_spec(&self, other: &Self) -> Option<Ordering> {
        match text_rank(self.id@, other.id@) {
            Rank::Before => Some(Ordering::Less),
            Rank::Same => Some(Ordering::Equal),
            Rank::After => Some(Ordering::Greater),
        }
    }
}

impl Message {
    /// A message with the given id, written by the given author.
    pub fn new(id: String, author_id: String) -> (message: Message)
        ensures
            message.id == id,
            message.author.id == author_id,
    {
        Message { id, author: Author { id: author_id } }
    }

    /// Whether `author` wrote this message.
    pub open spec fn is_by(self, author: Seq<char>) -> bool {
        self.author.id@ == author
    }

    /// Whether `author` wrote this message.
    pub fn written_by(&self, author: &String) -> (yes: bool)
        ensures
            yes == self.is_by(author@),
    {
        self.author.id == *author
    }
}

/// The messages of `page` that `author` wrote, in the order of the page.
pub open spec fn authored_by(page: Seq<Message>, author: Seq<char>) -> Seq<Message> {
    page.filter(|m: Message| m.is_by(author))
}

/// The text of a cursor, where there is one.
pub open spec fn cursor_text(cursor: Option<String>) -> Option<Seq<char>> {
    match cursor {
        Some(id) => Some(id@),
        None => None,
    }
}

/// The cursor for the fetch that follows `page`: the id of the last message
/// of the page as it was fetched. An empty page leaves the cursor where it was.
pub open spec fn cursor_after(page: Seq<Message>, cursor: Option<Seq<char>>) -> Option<Seq<char>> {
    if page.len() > 0 {
        Some(page.last().id@)
    } else {
        cursor
    }
}

proof fn lemma_authored_by_push(page: Seq<Message>, m: Message, author: Seq<char>)
    ensures
        authored_by(page.push(m), author) == if m.is_by(author) {
            authored_by(page, author).push(m)
        } else {
            authored_by(page, author)
        },
{
    reveal(Seq::filter);
    assert(page.push(m).drop_last() == page);
}

/// Selects the messages of `page` that `target_author` wrote. The page is
/// left as it was; the selection keeps the page's order.
pub fn filter_by_author(page: &Vec<Message>, target_author: &String) -> (kept: Vec<Message>)
    ensures
        kept@ == authored_by(page@, target_author@),
{
    let mut kept: Vec<Message> = Vec::new();
    let mut i: usize = 0;
    proof {
        reveal(Seq::filter);
        assert(page@.take(0) == Seq::<Message>::empty());
    }
    while i < page.len()
        invariant
            i <= page.len(),
            kept@ == authored_by(page@.take(i as int), target_author@),
        decreases page.len() - i,
    {
        proof {
            assert(page@.take(i + 1) == page@.take(i as int).push(page@[i as int]));
            lemma_authored_by_push(page@.take(i as int), page@[i as int], target_author@);
        }
        if page[i].written_by(target_author) {
            kept.push(page[i].clone());
        }
        i += 1;
    }
    proof {
        assert(page@.take(page.len() as int) == page@);
    }
    kept
}

/// Computes the cursor for the fetch that follows `page`. Only the page as
/// fetched counts, whoever wrote its messages.
pub fn next_cursor(page: &Vec<Message>, cursor: Option<String>) -> (next: Option<String>)
    ensures
        cursor_text(next) == cursor_after(page@, cursor_text(cursor)),
{
    if page.len() > 0 {
        Some(page[page.len() - 1].id.clone())
    } else {
        cursor
    }
}

/// The order agrees with the equality: two messages stand as equal in the
/// order exactly when they are the same message.
pub proof fn lemma_order_agrees_with_equality(a: Message, b: Message)
    ensures
        a.partial_cmp_spec(&b) == Some(Ordering::Equal) <==> a.eq_spec(&b),
{
    lemma_text_rank_same(a.id@, b.id@);
}

/// Selecting again from a selection changes nothing.
pub proof fn lemma_filter_idempotent(page: Seq<Message>, author: Seq<char>)
    ensures
        authored_by(authored_by(page, author), author) == authored_by(page, author),
    decreases page.len(),
{
    if page.len() == 0 {
        reveal(Seq::filter);
    } else {
        let init = page.drop_last();
        let m = page.last();
        lemma_filter_idempotent(init, author);
        assert(page == init.push(m));
        lemma_authored_by_push(init, m, author);
        if m.is_by(author) {
            lemma_authored_by_push(authored_by(init, author), m, author);
        }
    }
}

/// Nothing is selected from an empty page.
pub proof fn lemma_filter_empty(author: Seq<char>)
    ensures
        authored_by(Seq::<Message>::empty(), author) == Seq::<Message>::empty(),
{
    reveal(Seq::filter);
}

/// The selection holds the author's messages of the page and no others, and
/// is never longer than the page.
pub proof fn lemma_filter_selects(page: Seq<Message>, author: Seq<char>)
    ensures
        authored_by(page, author).len() <= page.len(),
        forall|m: Message|
            authored_by(page, author).contains(m) <==> page.contains(m) && m.is_by(author),
    decreases page.len(),
{
    if page.len() == 0 {
        reveal(Seq::filter);
    } else {
        let init = page.drop_last();
        let last = page.last();
        lemma_filter_selects(init, author);
        assert(page == init.push(last));
        lemma_authored_by_push(init, last, author);
        assert forall|m: Message|
            authored_by(page, author).contains(m) <==> page.contains(m) && m.is_by(author) by {
            if page.contains(m) {
                let i = choose|i: int| 0 <= i < page.len() && page[i] == m;
                if i < init.len() {
                    assert(init[i] == m);
                    assert(init.contains(m));
                } else {
                    assert(m == last);
                }
            }
            if init.contains(m) {
                let i = choose|i: int| 0 <= i < init.len() && init[i] == m;
                assert(page[i] == m);
            }
            assert(page[page.len() - 1] == last);
            let kept = authored_by(init, author);
            if last.is_by(author) {
                assert(kept.push(last)[kept.len() as int] == last);
                if kept.contains(m) {
                    let j = choose|j: int| 0 <= j < kept.len() && kept[j] == m;
                    assert(kept.push(last)[j] == m);
                }
                if kept.push(last).contains(m) {
                    let j = choose|j: int| 0 <= j < kept.push(last).len() && kept.push(last)[j] == m;
                    if j < kept.len() {
                        assert(kept[j] == m);
                    }
                }
            }
        }
    }
}

} // verus!
