//! The two requests of the run, as plain values for a driver to send.

use crate::message::cursor_text;
use vstd::prelude::*;

verus! {

/// A request for one page of the channel's history.
#[derive(Debug)]
pub struct PageRequest {
    /// Where to send the `GET`.
    pub url: String,
    /// The value of the authorization header.
    pub authorization: String,
    /// The query parameters, in the order in which they are sent.
    pub query: Vec<(String, String)>,
}

/// What a `PageRequest` holds, as text.
pub struct PageRequestView {
    pub url: Seq<char>,
    pub authorization: Seq<char>,
    pub query: Seq<(Seq<char>, Seq<char>)>,
}

impl View for PageRequest {
    type V = PageRequestView;

    open spec fn view(&self) -> PageRequestView {
        PageRequestView {
            url: self.url@,
            authorization: self.authorization@,
            query: Seq::new(self.query@.len(), |i: int| (self.query@[i].0@, self.query@[i].1@)),
        }
    }
}

/// A request to delete one message.
#[derive(Debug)]
pub struct DeleteRequest {
    /// Where to send the `DELETE`.
    pub url: String,
    /// The value of the authorization header.
    pub authorization: String,
}

/// What a `DeleteRequest` holds, as text.
pub struct DeleteRequestView {
    pub url: Seq<char>,
    pub authorization: Seq<char>,
}

impl View for DeleteRequest {
    type V = DeleteRequestView;

    open spec fn view(&self) -> DeleteRequestView {
        DeleteRequestView { url: self.url@, authorization: self.authorization@ }
    }
}

/// The address of a channel's messages.
pub open spec fn messages_url(channel_id: Seq<char>) -> Seq<char> {
    "https://discord.com/api/v9/channels/"@ + channel_id + "/messages"@
}

/// The address of one message of a channel.
pub open spec fn message_url(channel_id: Seq<char>, message_id: Seq<char>) -> Seq<char> {
    messages_url(channel_id) + "/"@ + message_id
}

/// The query of a page request: at most a hundred messages, and only those
/// older than the cursor where there is one.
pub open spec fn page_query(cursor: Option<Seq<char>>) -> Seq<(Seq<char>, Seq<char>)> {
    match cursor {
        Some(id) => seq![("limit"@, "100"@), ("before"@, id)],
        None => seq![("limit"@, "100"@)],
    }
}

/// The request for the page that follows `cursor`.
pub open spec fn page_request_for(
    channel_id: Seq<char>,
    token: Seq<char>,
    cursor: Option<Seq<char>>,
) -> PageRequestView {
    PageRequestView { url: messages_url(channel_id), authorization: token, query: page_query(cursor) }
}

/// The request that deletes the message `message_id`.
pub open spec fn delete_request_for(
    channel_id: Seq<char>,
    token: Seq<char>,
    message_id: Seq<char>,
) -> DeleteRequestView {
    DeleteRequestView { url: message_url(channel_id, message_id), authorization: token }
}

/// Builds the address of a channel's messages.
fn build_messages_url(channel_id: &String) -> (url: String)
    ensures
        url@ == messages_url(channel_id@),
{
    let mut url = String::from_str("https://discord.com/api/v9/channels/");
    url.append(channel_id.as_str());
    url.append("/messages");
    url
}

/// Builds the request for up to a hundred of the channel's most recent
/// messages, or, with a cursor, of those older than the message it names.
pub fn page_request(channel_id: &String, token: &String, cursor: &Option<String>) -> (request:
    PageRequest)
    ensures
        request@ == page_request_for(channel_id@, token@, cursor_text(*cursor)),
{
    let mut query: Vec<(String, String)> = Vec::new();
    query.push((String::from_str("limit"), String::from_str("100")));
    match cursor {
        Some(id) => {
            query.push((String::from_str("before"), id.clone()));
        },
        None => {},
    }
    let request = PageRequest {
        url: build_messages_url(channel_id),
        authorization: token.clone(),
        query,
    };
    assert(request@.query =~= page_query(cursor_text(*cursor)));
    request
}

/// Builds the request that deletes one message of the channel.
pub fn delete_request(channel_id: &String, token: &String, message_id: &String) -> (request:
    DeleteRequest)
    ensures
        request@ == delete_request_for(channel_id@, token@, message_id@),
{
    let mut url = build_messages_url(channel_id);
    url.append("/");
    url.append(message_id.as_str());
    DeleteRequest { url, authorization: token.clone() }
}

} // verus!
