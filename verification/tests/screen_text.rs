use homelab::app::{App, Focus};
use homelab::conversations::Conversation;
use homelab::sms::{ModemInfo, SmsMessage, SmsState};
use homelab::view::{
    centered_start, clamp_scroll, conversation_item, cursor_position_in_text,
    delete_conversation_prompt, delete_message_quote, display_width_up_to, dropdown_area,
    dropdown_item, follow_cursor, hotkey_index, is_gsm7, message_lines, modem_entry,
    modem_picker_height, reply_box_height, sms_segment_info, status_bar, truncate_str, LineKind,
};

fn chars(s: &str) -> Vec<char> {
    s.chars().collect()
}

fn msg(index: u32, number: &str, text: &str, ts: &str, state: SmsState) -> SmsMessage {
    SmsMessage {
        index,
        number: number.to_string(),
        text: text.to_string(),
        timestamp: ts.to_string(),
        state,
    }
}

#[test]
fn truncation() {
    assert_eq!(truncate_str("hello world", 8), "hello...");
    assert_eq!(truncate_str("hello", 10), "hello");
    assert_eq!(truncate_str("hello", 5), "hello");
    assert_eq!(truncate_str("hello", 3), "hel");
    assert_eq!(truncate_str("hello", 2), "he");
    assert_eq!(truncate_str("héllo wörld", 6), "hél...");
}

#[test]
fn gsm_alphabet() {
    assert!(is_gsm7("Hello @£ 123!"));
    assert!(is_gsm7("{€}[~]"));
    assert!(is_gsm7(""));
    assert!(!is_gsm7("Привет"));
    assert!(is_gsm7("Straße"));
    assert!(is_gsm7("ÆæÉ¿"));
    assert!(is_gsm7("Hello, world!"));
    assert!(is_gsm7("€5 {x}"));
    assert!(!is_gsm7("naïve"));
}

#[test]
fn segment_counter() {
    let i = sms_segment_info(&chars(""));
    assert_eq!(i.label, " 0/160 (1) ");
    assert_eq!(i.segments, 1);
    assert_eq!(sms_segment_info(&chars("   ")).label, " 0/160 (1) ");
    assert_eq!(sms_segment_info(&chars("hello")).label, " 155 left | 1 seg | GSM ");
    let long = "a".repeat(161);
    let i = sms_segment_info(&chars(&long));
    assert_eq!(i.label, " 145 left | 2 seg | GSM ");
    assert_eq!(i.segments, 2);
    assert_eq!(sms_segment_info(&chars("€")).label, " 158 left | 1 seg | GSM ");
    assert_eq!(sms_segment_info(&chars("Привет")).label, " 64 left | 1 seg | UCS-2 ");
    let ucs = "я".repeat(71);
    assert_eq!(sms_segment_info(&chars(&ucs)).label, " 63 left | 2 seg | UCS-2 ");
    assert_eq!(sms_segment_info(&chars(&"a".repeat(160))).label, " 0 left | 1 seg | GSM ");
}

#[test]
fn cursor_rows_and_columns() {
    assert_eq!(cursor_position_in_text(&chars("ab\ncd"), 4), (1, 1));
    assert_eq!(cursor_position_in_text(&chars("ab"), 10), (0, 2));
    assert_eq!(cursor_position_in_text(&chars("日本"), 2), (0, 4));
    assert_eq!(cursor_position_in_text(&chars("a\n"), 2), (1, 0));
    assert_eq!(display_width_up_to(&chars("日本語"), 2), 4);
    assert_eq!(display_width_up_to(&chars("abc"), 9), 3);
}

#[test]
fn reply_box_grows_with_lines() {
    assert_eq!(reply_box_height(&chars("")), 3);
    assert_eq!(reply_box_height(&chars("one line")), 3);
    assert_eq!(reply_box_height(&chars("a\nb\nc")), 5);
    assert_eq!(reply_box_height(&chars("a\n")), 4);
    assert_eq!(reply_box_height(&chars(&"a\n".repeat(20))), 10);
}

#[test]
fn scrolling() {
    assert_eq!(clamp_scroll(50, 22, 100), 30);
    assert_eq!(clamp_scroll(50, 22, 7), 7);
    assert_eq!(clamp_scroll(10, 22, 5), 0);
    assert_eq!(clamp_scroll(3, 1, 9), 3);
    assert_eq!(follow_cursor(5, 3), 3);
    assert_eq!(follow_cursor(2, 3), 0);
}

#[test]
fn message_panel_lines() {
    let msgs = vec![
        msg(1, "+1", "hi\nthere", "2024-01-15T10:30:00+01:00", SmsState::Received),
        msg(2, "+1", "ok", "2024-01-16T08:00", SmsState::Sent),
    ];
    let lines = message_lines(&msgs, "+1", Some(0));
    let texts: Vec<String> = lines.iter().map(|l| l.text.clone()).collect();
    assert_eq!(
        texts,
        vec![
            "▸ [2024-01-15T10:30] +1:",
            "  hi",
            "  there",
            "",
            "  [2024-01-16T08:00] You:",
            "  ok",
            "",
        ]
    );
    assert_eq!(lines[0].kind, LineKind::Header { selected: true, outgoing: false });
    assert_eq!(lines[1].kind, LineKind::Body { selected: true });
    assert_eq!(lines[3].kind, LineKind::Blank);
    assert_eq!(lines[4].kind, LineKind::Header { selected: false, outgoing: true });
    assert_eq!(message_lines(&msgs, "+1", None)[0].text, "  [2024-01-15T10:30] +1:");
}

#[test]
fn conversation_list_item() {
    let c = Conversation {
        number: "+1".to_string(),
        messages: vec![msg(1, "+1", "hello world, how are you", "2024", SmsState::Received)],
    };
    assert_eq!(
        conversation_item(&c, true, 20),
        ("▸ +1".to_string(), "  hello world...".to_string())
    );
    assert_eq!(conversation_item(&c, false, 40).0, "  +1");
}

#[test]
fn status_bar_fills_width() {
    let (left, right) = status_bar("Ready", Focus::ConversationList, 80);
    assert_eq!(right, " List | Tab: switch | F10: menu | q: quit ");
    assert_eq!(left, format!(" Ready {}", " ".repeat(31)));
    let (left, right) = status_bar("Busy", Focus::ReplyInput, 10);
    assert_eq!(left, " Busy ");
    assert_eq!(right, " Reply | Tab: switch | F10: menu | q: quit ");
}

#[test]
fn menu_bar_and_dropdown() {
    assert_eq!(hotkey_index("Messages", 'm'), Some(0));
    assert_eq!(hotkey_index("File", 'x'), None);
    let a = dropdown_area(0);
    assert_eq!((a.x, a.width, a.height), (1, 19, 5));
    let a = dropdown_area(1);
    assert_eq!((a.x, a.width, a.height), (9, 23, 8));
    let a = dropdown_area(2);
    assert_eq!((a.x, a.width, a.height), (21, 16, 4));
    assert_eq!(dropdown_item("---", 10), "─".repeat(8));
    assert_eq!(dropdown_item("Exit", 10), " Exit ");
}

#[test]
fn modem_picker_lines() {
    let m = ModemInfo {
        index: 0,
        manufacturer: "QUALCOMM".to_string(),
        model: "SIM7600".to_string(),
        own_number: String::new(),
        state: "registered".to_string(),
    };
    assert_eq!(
        modem_entry(&m, 0),
        (" ● Modem 0 - QUALCOMM SIM7600".to_string(), "     unknown | registered".to_string())
    );
    let n = ModemInfo {
        index: 3,
        manufacturer: String::new(),
        model: "X".to_string(),
        own_number: "+1555".to_string(),
        state: "idle".to_string(),
    };
    assert_eq!(modem_entry(&n, 0), ("   Modem 3 - X".to_string(), "     +1555 | idle".to_string()));
    let e = ModemInfo {
        index: 4,
        manufacturer: "Q".to_string(),
        model: String::new(),
        own_number: String::new(),
        state: String::new(),
    };
    assert_eq!(modem_entry(&e, 4).0, " ● Modem 4");
    assert_eq!(modem_picker_height(2), 11);
    assert_eq!(modem_picker_height(5), 20);
    assert_eq!(centered_start(0, 100, 50), 25);
    assert_eq!(centered_start(10, 20, 50), 10);
}

#[test]
fn confirmation_texts() {
    let mut app = App::new(0);
    assert_eq!(delete_conversation_prompt(&app), "  Delete all messages with ??");
    assert_eq!(delete_message_quote(&app), "  \"?\"");
    app.refresh_messages(Ok(vec![msg(1, "+1", "line1\nline2", "2024", SmsState::Received)]));
    assert_eq!(delete_conversation_prompt(&app), "  Delete all messages with +1?");
    assert_eq!(delete_message_quote(&app), "  \"line1 line2\"");
    app.refresh_messages(Ok(vec![msg(1, "+1", &"x".repeat(50), "2024", SmsState::Received)]));
    assert_eq!(delete_message_quote(&app), format!("  \"{}...\"", "x".repeat(37)));
}

#[test]
fn status_left_pads_to_width() {
    assert_eq!(homelab::view::status_left("ok", 6), " ok   ");
    assert_eq!(homelab::view::status_left("long status", 3), " long status ");
}

#[test]
fn timestamps_cut_at_sixteen_bytes() {
    let msgs = vec![msg(1, "+1", "x", "2024-01-15 à 10:30:00", SmsState::Received)];
    assert_eq!(message_lines(&msgs, "+1", None)[0].text, "  [2024-01-15 à 10] +1:");
    let short = vec![msg(1, "+1", "x", "à bientôt", SmsState::Received)];
    assert_eq!(message_lines(&short, "+1", None)[0].text, "  [à bientôt] +1:");
}
