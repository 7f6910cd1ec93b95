use message_purge::outcome::{
    classify_delete, confirms_delete, expects_page, page_rejection, DeleteError, DeleteReply,
    FetchError,
};
use message_purge::settings::{STATUS_NO_CONTENT, STATUS_OK};

#[test]
fn only_ok_carries_a_page() {
    assert_eq!(STATUS_OK, 200);
    assert!(expects_page(200));
    assert!(!expects_page(204));
    assert!(!expects_page(201));
    assert!(!expects_page(401));
    assert!(!expects_page(429));
    assert!(!expects_page(0));
}

#[test]
fn ok_page_reply_is_no_failure() {
    assert_eq!(page_rejection(200, "[]".to_string()), None);
}

#[test]
fn other_page_status_is_a_failure_with_status_and_body() {
    assert_eq!(
        page_rejection(401, "{\"message\": \"401: Unauthorized\"}".to_string()),
        Some(FetchError::HttpStatus(401, "{\"message\": \"401: Unauthorized\"}".to_string()))
    );
    assert_eq!(
        page_rejection(204, String::new()),
        Some(FetchError::HttpStatus(204, String::new()))
    );
}

#[test]
fn only_no_content_confirms_a_delete() {
    assert_eq!(STATUS_NO_CONTENT, 204);
    assert!(confirms_delete(204));
    assert!(!confirms_delete(200));
    assert!(!confirms_delete(404));
}

#[test]
fn no_content_is_a_successful_delete() {
    let reply = DeleteReply::Status { code: 204, body: String::new() };
    assert_eq!(classify_delete(reply), Ok(()));
}

#[test]
fn other_delete_status_is_a_failure_with_status_and_body() {
    let reply = DeleteReply::Status { code: 403, body: "Missing Permissions".to_string() };
    assert_eq!(
        classify_delete(reply),
        Err(DeleteError::HttpStatus(403, "Missing Permissions".to_string()))
    );
    let reply = DeleteReply::Status { code: 200, body: "fine".to_string() };
    assert_eq!(classify_delete(reply), Err(DeleteError::HttpStatus(200, "fine".to_string())));
}

#[test]
fn lost_delete_is_a_transport_failure() {
    let reply = DeleteReply::Transport { cause: "connection refused".to_string() };
    assert_eq!(
        classify_delete(reply),
        Err(DeleteError::Transport("connection refused".to_string()))
    );
}

#[test]
fn errors_clone_to_equal_errors() {
    let fetch = FetchError::HttpStatus(500, "oops".to_string());
    assert_eq!(fetch.clone(), fetch);
    let fetch = FetchError::Transport("timeout".to_string());
    assert_eq!(fetch.clone(), fetch);
    let delete = DeleteError::HttpStatus(404, "gone".to_string());
    assert_eq!(delete.clone(), delete);
    let delete = DeleteError::Transport("reset".to_string());
    assert_eq!(delete.clone(), delete);
}
