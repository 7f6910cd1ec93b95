use message_purge::request::{delete_request, page_request};

fn pair(key: &str, value: &str) -> (String, String) {
    (key.to_string(), value.to_string())
}

#[test]
fn first_page_request_has_no_cursor() {
    let request = page_request(&"123".to_string(), &"secret".to_string(), &None);
    assert_eq!(request.url, "https://discord.com/api/v9/channels/123/messages");
    assert_eq!(request.authorization, "secret");
    assert_eq!(request.query, vec![pair("limit", "100")]);
}

#[test]
fn later_page_request_asks_for_older_messages() {
    let request = page_request(&"123".to_string(), &"secret".to_string(), &Some("77".to_string()));
    assert_eq!(request.url, "https://discord.com/api/v9/channels/123/messages");
    assert_eq!(request.authorization, "secret");
    assert_eq!(request.query, vec![pair("limit", "100"), pair("before", "77")]);
}

#[test]
fn delete_request_names_channel_and_message() {
    let request = delete_request(&"123".to_string(), &"secret".to_string(), &"77".to_string());
    assert_eq!(request.url, "https://discord.com/api/v9/channels/123/messages/77");
    assert_eq!(request.authorization, "secret");
}

#[test]
fn requests_take_ids_as_they_are() {
    let request = delete_request(&"".to_string(), &"".to_string(), &"".to_string());
    assert_eq!(request.url, "https://discord.com/api/v9/channels//messages/");
    assert_eq!(request.authorization, "");
}
