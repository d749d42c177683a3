use homelab::conversations::{build_conversations, sort_messages, str_less, Conversation};
use homelab::sms::{SmsMessage, SmsState};

fn msg(index: u32, number: &str, text: &str, ts: &str, state: SmsState) -> SmsMessage {
    SmsMessage {
        index,
        number: number.to_string(),
        text: text.to_string(),
        timestamp: ts.to_string(),
        state,
    }
}

#[test]
fn messages_sorted_by_timestamp() {
    let v = sort_messages(vec![
        msg(1, "+1", "b", "2024-01-02", SmsState::Received),
        msg(2, "+1", "a", "2024-01-01", SmsState::Sent),
        msg(3, "+1", "c", "2024-01-03", SmsState::Received),
    ]);
    let idx: Vec<u32> = v.iter().map(|m| m.index).collect();
    assert_eq!(idx, vec![2, 1, 3]);
}

#[test]
fn equal_timestamps_keep_their_order() {
    let v = sort_messages(vec![
        msg(1, "+1", "x", "2024-01-01", SmsState::Received),
        msg(2, "+1", "y", "2024-01-01", SmsState::Received),
    ]);
    let idx: Vec<u32> = v.iter().map(|m| m.index).collect();
    assert_eq!(idx, vec![1, 2]);
}

#[test]
fn grouped_by_number_most_recent_first() {
    let cs = build_conversations(vec![
        msg(1, "+111", "old", "2024-01-01T10:00", SmsState::Received),
        msg(2, "+222", "newest", "2024-03-01T10:00", SmsState::Received),
        msg(3, "+111", "reply", "2024-02-01T10:00", SmsState::Sent),
    ]);
    assert_eq!(cs.len(), 2);
    assert_eq!(cs[0].number, "+222");
    assert_eq!(cs[1].number, "+111");
    let idx: Vec<u32> = cs[1].messages.iter().map(|m| m.index).collect();
    assert_eq!(idx, vec![1, 3]);
    assert_eq!(cs[1].last_message_preview(), "reply");
    assert_eq!(cs[1].last_timestamp(), "2024-02-01T10:00");
}

#[test]
fn ties_listed_by_number() {
    let cs = build_conversations(vec![
        msg(1, "+3", "a", "2024-01-01", SmsState::Received),
        msg(2, "+1", "b", "2024-01-01", SmsState::Received),
    ]);
    assert_eq!(cs[0].number, "+1");
    assert_eq!(cs[1].number, "+3");
}

#[test]
fn empty_conversation_has_empty_preview() {
    let c = Conversation { number: "+1".to_string(), messages: Vec::new() };
    assert_eq!(c.last_message_preview(), "");
    assert_eq!(c.last_timestamp(), "");
}

#[test]
fn string_order_is_by_characters() {
    assert!(str_less("2024-01-01", "2024-01-02"));
    assert!(str_less("abc", "abcd"));
    assert!(!str_less("b", "a"));
    assert!(!str_less("a", "a"));
}

#[test]
fn grouping_keeps_every_message() {
    let msgs = vec![
        msg(1, "+1", "a", "2024-01-01", SmsState::Received),
        msg(2, "+2", "b", "2024-01-02", SmsState::Received),
        msg(3, "+1", "c", "2024-01-03", SmsState::Sent),
        msg(4, "+3", "d", "2024-01-01", SmsState::Received),
        msg(5, "+2", "e", "2024-01-05", SmsState::Sent),
    ];
    let cs = build_conversations(msgs);
    let total: usize = cs.iter().map(|c| c.messages.len()).sum();
    assert_eq!(total, 5);
    let numbers: Vec<&str> = cs.iter().map(|c| c.number.as_str()).collect();
    assert_eq!(numbers, vec!["+2", "+1", "+3"]);
}
