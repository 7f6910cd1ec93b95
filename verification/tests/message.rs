use message_purge::message::{filter_by_author, next_cursor, Message};

fn msg(id: &str, author: &str) -> Message {
    Message::new(id.to_string(), author.to_string())
}

fn ids(messages: &[Message]) -> Vec<String> {
    messages.iter().map(|m| m.id.clone()).collect()
}

fn mixed_page() -> Vec<Message> {
    vec![msg("5", "U"), msg("4", "T"), msg("3", "U"), msg("2", "T"), msg("1", "U")]
}

#[test]
fn new_message_holds_id_and_author() {
    let m = msg("42", "U");
    assert_eq!(m.id, "42");
    assert_eq!(m.author.id, "U");
    assert!(m.written_by(&"U".to_string()));
    assert!(!m.written_by(&"T".to_string()));
}

#[test]
fn messages_are_equal_by_id_alone() {
    assert!(msg("7", "U") == msg("7", "T"));
    assert!(msg("7", "U") != msg("8", "U"));
}

#[test]
fn clone_keeps_id_and_author() {
    let m = msg("7", "U");
    let copy = m.clone();
    assert_eq!(copy.id, "7");
    assert_eq!(copy.author.id, "U");
}

#[test]
fn filter_keeps_the_authors_messages_in_page_order() {
    let page = mixed_page();
    let kept = filter_by_author(&page, &"U".to_string());
    assert_eq!(ids(&kept), vec!["5", "3", "1"]);
    assert!(kept.iter().all(|m| m.author.id == "U"));
    assert_eq!(ids(&page), vec!["5", "4", "3", "2", "1"]);
}

#[test]
fn filter_of_an_empty_page_is_empty() {
    let page: Vec<Message> = Vec::new();
    assert!(filter_by_author(&page, &"U".to_string()).is_empty());
}

#[test]
fn filter_of_a_page_without_the_author_is_empty() {
    let page = vec![msg("9", "T"), msg("8", "V")];
    assert!(filter_by_author(&page, &"U".to_string()).is_empty());
}

#[test]
fn filter_compares_whole_author_ids() {
    let page = vec![msg("3", "U1"), msg("2", "U"), msg("1", "u")];
    let kept = filter_by_author(&page, &"U".to_string());
    assert_eq!(ids(&kept), vec!["2"]);
}

#[test]
fn filter_twice_gives_the_same_selection() {
    let page = mixed_page();
    let author = "U".to_string();
    let once = filter_by_author(&page, &author);
    let again = filter_by_author(&page, &author);
    assert_eq!(ids(&once), ids(&again));
    let twice = filter_by_author(&once, &author);
    assert_eq!(ids(&twice), ids(&once));
}

#[test]
fn cursor_is_the_last_id_of_the_raw_page() {
    let page = mixed_page();
    assert_eq!(next_cursor(&page, None), Some("1".to_string()));
}

#[test]
fn cursor_ignores_who_wrote_the_last_message() {
    let page = vec![msg("30", "U"), msg("20", "U"), msg("10", "T")];
    let kept = filter_by_author(&page, &"U".to_string());
    assert_eq!(ids(&kept), vec!["30", "20"]);
    assert_eq!(next_cursor(&page, Some("40".to_string())), Some("10".to_string()));
}

#[test]
fn cursor_advances_when_nothing_is_selected() {
    let page = vec![msg("30", "T"), msg("20", "V")];
    assert!(filter_by_author(&page, &"U".to_string()).is_empty());
    assert_eq!(next_cursor(&page, Some("40".to_string())), Some("20".to_string()));
}

#[test]
fn cursor_stays_on_an_empty_page() {
    let page: Vec<Message> = Vec::new();
    assert_eq!(next_cursor(&page, Some("40".to_string())), Some("40".to_string()));
    assert_eq!(next_cursor(&page, None), None);
}
