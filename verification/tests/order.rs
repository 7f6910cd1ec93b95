use std::cmp::Ordering;

use message_purge::message::Message;
use message_purge::order::{compare_text, Rank};

fn rank(a: &str, b: &str) -> Rank {
    compare_text(&a.to_string(), &b.to_string())
}

fn msg(id: &str, author: &str) -> Message {
    Message::new(id.to_string(), author.to_string())
}

#[test]
fn equal_texts_stand_as_the_same() {
    assert_eq!(rank("", ""), Rank::Same);
    assert_eq!(rank("1234", "1234"), Rank::Same);
}

#[test]
fn the_first_differing_byte_decides() {
    assert_eq!(rank("1234", "1244"), Rank::Before);
    assert_eq!(rank("1244", "1234"), Rank::After);
    assert_eq!(rank("9", "10"), Rank::After);
    assert_eq!(rank("10", "9"), Rank::Before);
}

#[test]
fn a_text_comes_after_its_beginnings() {
    assert_eq!(rank("", "1"), Rank::Before);
    assert_eq!(rank("12", "123"), Rank::Before);
    assert_eq!(rank("123", "12"), Rank::After);
}

#[test]
fn texts_beyond_ascii_go_by_their_bytes() {
    assert_eq!(rank("z", "\u{e9}"), Rank::Before);
    assert_eq!(rank("\u{e9}", "\u{4e2d}"), Rank::Before);
    assert_eq!(rank("\u{1f600}", "\u{4e2d}"), Rank::After);
}

#[test]
fn compare_text_orders_as_strings_do() {
    let texts = ["", "0", "1", "10", "100", "11", "2", "9", "a", "ab", "b", "\u{e9}", "\u{4e2d}"];
    for a in texts {
        for b in texts {
            let expected = match a.cmp(b) {
                Ordering::Less => Rank::Before,
                Ordering::Equal => Rank::Same,
                Ordering::Greater => Rank::After,
            };
            assert_eq!(rank(a, b), expected, "{:?} against {:?}", a, b);
        }
    }
}

#[test]
fn messages_are_ordered_by_id_alone() {
    assert!(msg("1001", "U") < msg("1002", "T"));
    assert!(msg("1002", "A") > msg("1001", "Z"));
    assert!(msg("1001", "U") <= msg("1001", "T"));
    assert_eq!(msg("1001", "U").partial_cmp(&msg("1001", "T")), Some(Ordering::Equal));
    assert_eq!(msg("1001", "U").partial_cmp(&msg("1002", "U")), Some(Ordering::Less));
    assert_eq!(msg("1002", "U").partial_cmp(&msg("1001", "U")), Some(Ordering::Greater));
}
