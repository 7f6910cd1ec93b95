use message_purge::batch::{BatchAction, DeleteBatch, Stage};
use message_purge::message::Message;
use message_purge::outcome::{DeleteError, DeleteReply};
use message_purge::settings::DELETE_PAUSE_SECS;

fn msg(id: &str) -> Message {
    Message::new(id.to_string(), "U".to_string())
}

fn batch_of(count: usize, limit: usize) -> DeleteBatch {
    let messages: Vec<Message> = (0..count).map(|i| msg(&format!("m{}", i))).collect();
    DeleteBatch::new("123".to_string(), "secret".to_string(), messages, limit)
        .expect("a limit above zero")
}

fn deleted() -> DeleteReply {
    DeleteReply::Status { code: 204, body: String::new() }
}

fn deleting(batch: &DeleteBatch) -> usize {
    (0..batch.messages().len()).filter(|t| batch.stage(*t) == Some(Stage::Deleting)).count()
}

/// Polls until nothing more can be started; gives the tickets handed out.
fn fill(mut batch: DeleteBatch) -> (DeleteBatch, Vec<usize>) {
    let mut tickets = Vec::new();
    loop {
        let (next, action) = batch.poll();
        batch = next;
        assert!(batch.in_flight() <= batch.limit());
        assert!(deleting(&batch) <= batch.limit());
        match action {
            BatchAction::Delete { ticket, .. } => tickets.push(ticket),
            _ => return (batch, tickets),
        }
    }
}

#[test]
fn a_batch_needs_a_worker() {
    assert!(DeleteBatch::new("123".to_string(), "secret".to_string(), vec![msg("1")], 0).is_none());
    assert!(DeleteBatch::new("123".to_string(), "secret".to_string(), Vec::new(), 0).is_none());
    assert!(DeleteBatch::new("123".to_string(), "secret".to_string(), Vec::new(), 1).is_some());
}

#[test]
fn a_fresh_batch_has_started_nothing() {
    let batch = batch_of(3, 2);
    assert_eq!(batch.limit(), 2);
    assert_eq!(batch.in_flight(), 0);
    assert!(!batch.is_complete());
    assert!(batch.report().is_empty());
    assert_eq!(batch.messages().len(), 3);
    assert_eq!(batch.stage(0), Some(Stage::Waiting));
    assert_eq!(batch.stage(2), Some(Stage::Waiting));
    assert_eq!(batch.stage(3), None);
}

#[test]
fn an_empty_batch_is_complete_at_once() {
    let batch = batch_of(0, 2);
    assert!(batch.is_complete());
    let (batch, action) = batch.poll();
    assert!(matches!(action, BatchAction::Complete));
    assert!(batch.is_complete());
    assert!(batch.report().is_empty());
}

#[test]
fn poll_hands_out_tickets_in_order_with_their_requests() {
    let batch = batch_of(3, 2);
    let (batch, first) = batch.poll();
    match first {
        BatchAction::Delete { ticket, request } => {
            assert_eq!(ticket, 0);
            assert_eq!(request.url, "https://discord.com/api/v9/channels/123/messages/m0");
            assert_eq!(request.authorization, "secret");
        }
        other => panic!("expected a delete, got {:?}", other),
    }
    let (batch, second) = batch.poll();
    match second {
        BatchAction::Delete { ticket, request } => {
            assert_eq!(ticket, 1);
            assert_eq!(request.url, "https://discord.com/api/v9/channels/123/messages/m1");
        }
        other => panic!("expected a delete, got {:?}", other),
    }
    assert_eq!(batch.in_flight(), 2);
    assert_eq!(batch.stage(0), Some(Stage::Deleting));
    assert_eq!(batch.stage(1), Some(Stage::Deleting));
    assert_eq!(batch.stage(2), Some(Stage::Waiting));
    let (batch, third) = batch.poll();
    assert!(matches!(third, BatchAction::Wait));
    assert_eq!(batch.in_flight(), 2);
    assert_eq!(batch.stage(2), Some(Stage::Waiting));
}

#[test]
fn a_worker_rests_before_it_takes_its_next_message() {
    let (batch, tickets) = fill(batch_of(3, 2));
    assert_eq!(tickets, vec![0, 1]);
    let (batch, pause) = batch.attempt_finished(0, deleted());
    assert_eq!(pause, Some(2));
    assert_eq!(pause, Some(DELETE_PAUSE_SECS));
    assert_eq!(batch.stage(0), Some(Stage::Pausing));
    assert_eq!(batch.in_flight(), 2);
    let (batch, action) = batch.poll();
    assert!(matches!(action, BatchAction::Wait));
    let (batch, released) = batch.pause_elapsed(0);
    assert!(released);
    assert_eq!(batch.stage(0), Some(Stage::Finished));
    assert_eq!(batch.in_flight(), 1);
    let (batch, action) = batch.poll();
    assert!(matches!(action, BatchAction::Delete { ticket: 2, .. }));
    assert_eq!(batch.in_flight(), 2);
}

#[test]
fn a_failed_delete_does_not_keep_another_from_succeeding() {
    let messages = vec![msg("A"), msg("B")];
    let batch = DeleteBatch::new("123".to_string(), "secret".to_string(), messages, 2).unwrap();
    let (batch, tickets) = fill(batch);
    assert_eq!(tickets, vec![0, 1]);
    let lost = DeleteReply::Transport { cause: "connection reset".to_string() };
    let (batch, pause) = batch.attempt_finished(0, lost);
    assert_eq!(pause, Some(DELETE_PAUSE_SECS));
    let (batch, pause) = batch.attempt_finished(1, deleted());
    assert_eq!(pause, Some(DELETE_PAUSE_SECS));
    {
        let report = batch.report();
        assert_eq!(report.len(), 2);
        assert_eq!(report[0].ticket, 0);
        assert_eq!(report[0].message_id, "A");
        assert_eq!(
            report[0].outcome,
            Err(DeleteError::Transport("connection reset".to_string()))
        );
        assert_eq!(report[1].ticket, 1);
        assert_eq!(report[1].message_id, "B");
        assert_eq!(report[1].outcome, Ok(()));
    }
    let (batch, _) = batch.pause_elapsed(1);
    assert!(!batch.is_complete());
    let (batch, _) = batch.pause_elapsed(0);
    assert!(batch.is_complete());
    let (batch, action) = batch.poll();
    assert!(matches!(action, BatchAction::Complete));
    assert_eq!(batch.report().len(), 2);
}

#[test]
fn a_rejected_delete_is_recorded_with_status_and_body() {
    let (batch, _) = fill(batch_of(1, 2));
    let reply = DeleteReply::Status { code: 403, body: "Missing Permissions".to_string() };
    let (batch, pause) = batch.attempt_finished(0, reply);
    assert_eq!(pause, Some(DELETE_PAUSE_SECS));
    let report = batch.report();
    assert_eq!(report.len(), 1);
    assert_eq!(report[0].message_id, "m0");
    assert_eq!(
        report[0].outcome,
        Err(DeleteError::HttpStatus(403, "Missing Permissions".to_string()))
    );
}

#[test]
fn a_reply_for_no_request_changes_nothing() {
    let (batch, _) = fill(batch_of(3, 1));
    let (batch, pause) = batch.attempt_finished(1, deleted());
    assert_eq!(pause, None);
    let (batch, pause) = batch.attempt_finished(7, deleted());
    assert_eq!(pause, None);
    assert!(batch.report().is_empty());
    assert_eq!(batch.in_flight(), 1);
    assert_eq!(batch.stage(0), Some(Stage::Deleting));
    assert_eq!(batch.stage(1), Some(Stage::Waiting));
    let (batch, pause) = batch.attempt_finished(0, deleted());
    assert_eq!(pause, Some(DELETE_PAUSE_SECS));
    let (batch, pause) = batch.attempt_finished(0, deleted());
    assert_eq!(pause, None);
    assert_eq!(batch.report().len(), 1);
}

#[test]
fn a_rest_that_nobody_takes_changes_nothing() {
    let (batch, _) = fill(batch_of(2, 2));
    let (batch, released) = batch.pause_elapsed(0);
    assert!(!released);
    let (batch, released) = batch.pause_elapsed(9);
    assert!(!released);
    assert_eq!(batch.in_flight(), 2);
    let (batch, _) = batch.attempt_finished(0, deleted());
    let (batch, released) = batch.pause_elapsed(0);
    assert!(released);
    let (batch, released) = batch.pause_elapsed(0);
    assert!(!released);
    assert_eq!(batch.in_flight(), 1);
}

/// Runs a batch to its end. Replies come back youngest ticket first when
/// `youngest_first` is set, else oldest first; every third delete fails.
fn run_to_end(count: usize, limit: usize, youngest_first: bool) -> DeleteBatch {
    let mut batch = batch_of(count, limit);
    let mut under_way: Vec<usize> = Vec::new();
    let mut resting: Vec<usize> = Vec::new();
    let mut rounds = 0;
    loop {
        rounds += 1;
        assert!(rounds < 10 * (count + 1), "the batch does not come to an end");
        let (next, tickets) = fill(batch);
        batch = next;
        under_way.extend(tickets);
        assert_eq!(batch.in_flight(), under_way.len() + resting.len());
        assert!(under_way.len() <= limit);
        if batch.is_complete() {
            assert!(under_way.is_empty() && resting.is_empty());
            return batch;
        }
        if let Some(ticket) = resting.pop() {
            let (next, released) = batch.pause_elapsed(ticket);
            batch = next;
            assert!(released);
        } else {
            let ticket = if youngest_first { under_way.pop().unwrap() } else { under_way.remove(0) };
            let reply = if ticket % 3 == 2 {
                DeleteReply::Transport { cause: format!("lost {}", ticket) }
            } else {
                deleted()
            };
            let (next, pause) = batch.attempt_finished(ticket, reply);
            batch = next;
            assert_eq!(pause, Some(DELETE_PAUSE_SECS));
            resting.push(ticket);
        }
        assert!(batch.in_flight() <= limit);
    }
}

#[test]
fn never_more_in_flight_than_the_limit() {
    for limit in [1usize, 2, 3, 10] {
        for youngest_first in [false, true] {
            let batch = run_to_end(25, limit, youngest_first);
            assert!(batch.is_complete());
            assert_eq!(batch.in_flight(), 0);
        }
    }
}

#[test]
fn every_message_is_attempted_exactly_once() {
    let batch = run_to_end(25, 3, true);
    let report = batch.report();
    assert_eq!(report.len(), 25);
    let mut tickets: Vec<usize> = report.iter().map(|r| r.ticket).collect();
    tickets.sort();
    assert_eq!(tickets, (0..25).collect::<Vec<usize>>());
    for record in report.iter() {
        assert_eq!(record.message_id, format!("m{}", record.ticket));
        if record.ticket % 3 == 2 {
            assert_eq!(
                record.outcome,
                Err(DeleteError::Transport(format!("lost {}", record.ticket)))
            );
        } else {
            assert_eq!(record.outcome, Ok(()));
        }
    }
    for ticket in 0..25 {
        assert_eq!(batch.stage(ticket), Some(Stage::Finished));
    }
}

#[test]
fn a_limit_above_the_batch_starts_everything_at_once() {
    let (batch, tickets) = fill(batch_of(3, 10));
    assert_eq!(tickets, vec![0, 1, 2]);
    assert_eq!(batch.in_flight(), 3);
    let (_, action) = batch.poll();
    assert!(matches!(action, BatchAction::Wait));
}

#[test]
fn a_batch_ends_after_three_steps_for_each_message() {
    let mut batch = batch_of(4, 2);
    let mut steps = 0;
    let mut under_way: Vec<usize> = Vec::new();
    while !batch.is_complete() {
        let (next, action) = batch.poll();
        batch = next;
        match action {
            BatchAction::Delete { ticket, .. } => {
                under_way.push(ticket);
                steps += 1;
            }
            BatchAction::Wait => {
                let ticket = under_way.remove(0);
                let reply = DeleteReply::Status { code: 500, body: "down".to_string() };
                let (next, pause) = batch.attempt_finished(ticket, reply);
                assert_eq!(pause, Some(DELETE_PAUSE_SECS));
                let (next, released) = next.pause_elapsed(ticket);
                assert!(released);
                batch = next;
                steps += 2;
            }
            BatchAction::Complete => panic!("complete before its time"),
        }
    }
    assert_eq!(steps, 12);
    assert_eq!(batch.report().len(), 4);
    assert!(batch.report().iter().all(|r| r.outcome.is_err()));
}
