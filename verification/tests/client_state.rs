use homelab::app::{AfterRefresh, App, Focus, MenuId, NewMsgFocus, Request, SendKind};
use homelab::editor::{Key, KeyCode};
use homelab::sms::{ModemInfo, SmsMessage, SmsState};

fn msg(index: u32, number: &str, text: &str, ts: &str) -> SmsMessage {
    SmsMessage {
        index,
        number: number.to_string(),
        text: text.to_string(),
        timestamp: ts.to_string(),
        state: SmsState::Received,
    }
}

fn key(code: KeyCode) -> Key {
    Key::plain(code)
}

fn ctrl(code: KeyCode) -> Key {
    Key { code, ctrl: true, alt: false }
}

fn loaded() -> App {
    let mut app = App::new(0);
    app.refresh_messages(Ok(vec![
        msg(1, "+111", "hello", "2024-01-01"),
        msg(2, "+222", "hi", "2024-02-01"),
        msg(3, "+111", "again", "2024-01-02"),
    ]));
    app
}

fn modem(index: u32) -> ModemInfo {
    ModemInfo {
        index,
        manufacturer: "QUALCOMM".to_string(),
        model: "SIM7600".to_string(),
        own_number: String::new(),
        state: "registered".to_string(),
    }
}

#[test]
fn new_client_is_loading() {
    let app = App::new(3);
    assert!(app.running);
    assert_eq!(app.modem_index, 3);
    assert_eq!(app.status_message, "Loading...");
    assert_eq!(app.focus, Focus::ConversationList);
    assert_eq!(app.message_area_height, 20);
    assert!(app.selected_convo().is_none());
}

#[test]
fn refresh_reports_counts() {
    let app = loaded();
    assert_eq!(app.status_message, "Modem 0 | 2 conversations | 3 messages");
    assert_eq!(app.conversations[0].number, "+222");
    assert_eq!(app.selected_convo().unwrap().number, "+222");
}

#[test]
fn refresh_error_is_shown() {
    let mut app = App::new(0);
    app.refresh_messages(Err("boom".to_string()));
    assert_eq!(app.status_message, "Error: boom");
}

#[test]
fn load_clamps_selection() {
    let mut app = loaded();
    app.selected_conversation = 5;
    app.load_messages(vec![msg(1, "+1", "x", "2024")]);
    assert_eq!(app.selected_conversation, 0);
}

#[test]
fn tab_cycles_focus() {
    let mut app = loaded();
    app.handle_key(key(KeyCode::Tab));
    assert_eq!(app.focus, Focus::MessageView);
    app.handle_key(key(KeyCode::Tab));
    assert_eq!(app.focus, Focus::ReplyInput);
    app.handle_key(key(KeyCode::BackTab));
    assert_eq!(app.focus, Focus::MessageView);
    app.handle_key(key(KeyCode::Tab));
    app.handle_key(key(KeyCode::Tab));
    assert_eq!(app.focus, Focus::ConversationList);
}

#[test]
fn focus_stays_on_list_without_conversations() {
    let mut app = App::new(0);
    app.handle_key(key(KeyCode::Tab));
    assert_eq!(app.focus, Focus::ConversationList);
    app.handle_key(key(KeyCode::BackTab));
    assert_eq!(app.focus, Focus::ConversationList);
}

#[test]
fn menu_navigation_skips_separators() {
    let mut app = App::new(0);
    app.handle_key(key(KeyCode::F(10)));
    assert!(app.menu_active);
    app.handle_key(key(KeyCode::Right));
    assert_eq!(app.menu_selected, 1);
    app.handle_key(key(KeyCode::Down));
    assert_eq!(app.menu_action_selected, 2);
    app.handle_key(key(KeyCode::Down));
    assert_eq!(app.menu_action_selected, 4);
    app.handle_key(key(KeyCode::Down));
    app.handle_key(key(KeyCode::Down));
    assert_eq!(app.menu_action_selected, 5);
    app.handle_key(key(KeyCode::Up));
    app.handle_key(key(KeyCode::Up));
    assert_eq!(app.menu_action_selected, 2);
    app.handle_key(key(KeyCode::Left));
    app.handle_key(key(KeyCode::Left));
    assert_eq!(app.menu_selected, 2);
    assert_eq!(app.menu_action_selected, 0);
    app.handle_key(key(KeyCode::Right));
    assert_eq!(app.menu_selected, 0);
    app.handle_key(key(KeyCode::Esc));
    assert!(!app.menu_active);
}

#[test]
fn menu_actions_run() {
    let mut app = App::new(0);
    let alt_m = Key { code: KeyCode::Char('M'), ctrl: false, alt: true };
    app.handle_key(alt_m);
    assert!(app.menu_active);
    assert_eq!(app.menu_selected, 1);
    let r = app.handle_key(key(KeyCode::Enter));
    assert!(matches!(r, Request::Refresh(AfterRefresh::Nothing)));
    assert!(!app.menu_active);
    app.handle_key(key(KeyCode::F(10)));
    assert!(matches!(app.handle_key(key(KeyCode::Enter)), Request::ListModems));
    app.handle_key(key(KeyCode::F(10)));
    app.handle_key(key(KeyCode::Down));
    app.handle_key(key(KeyCode::Enter));
    assert!(!app.running);
}

#[test]
fn control_c_quits() {
    let mut app = loaded();
    app.handle_key(ctrl(KeyCode::Char('c')));
    assert!(!app.running);
}

#[test]
fn delete_conversation_after_confirmation() {
    let mut app = loaded();
    app.handle_key(key(KeyCode::Down));
    app.handle_key(key(KeyCode::Char('d')));
    assert!(app.confirm_delete);
    match app.handle_key(key(KeyCode::Char('y'))) {
        Request::DeleteConversation { number, indices } => {
            assert_eq!(number, "+111");
            assert_eq!(indices, vec![1, 3]);
        }
        _ => panic!("expected a deletion"),
    }
    assert!(!app.confirm_delete);
    app.handle_key(key(KeyCode::Char('d')));
    assert!(matches!(app.handle_key(key(KeyCode::Char('n'))), Request::Nothing));
    let r = app.conversation_deleted("+111", 0);
    assert!(matches!(r, Request::Refresh(AfterRefresh::Nothing)));
    assert_eq!(app.status_message, "Deleted conversation with +111");
    app.conversation_deleted("+111", 2);
    assert_eq!(app.status_message, "Deleted conversation with +111 (2 errors)");
}

#[test]
fn delete_message_after_confirmation() {
    let mut app = loaded();
    app.handle_key(key(KeyCode::Down));
    app.handle_key(key(KeyCode::Enter));
    assert_eq!(app.focus, Focus::MessageView);
    app.handle_key(key(KeyCode::End));
    assert_eq!(app.selected_message, 1);
    app.handle_key(key(KeyCode::Char('d')));
    match app.handle_key(key(KeyCode::Char('Y'))) {
        Request::DeleteMessage { index } => assert_eq!(index, 3),
        _ => panic!("expected a deletion"),
    }
    let r = app.message_deleted(3, Ok(()));
    assert!(matches!(r, Request::Refresh(AfterRefresh::ClampMessage)));
    assert_eq!(app.status_message, "Deleted message 3");
    app.message_deleted(3, Err("nope".to_string()));
    assert_eq!(app.status_message, "Failed to delete message: nope");
    app.load_messages(vec![msg(1, "+111", "hello", "2024-01-01")]);
    app.selected_conversation = 0;
    app.after_refresh(AfterRefresh::ClampMessage);
    assert_eq!(app.selected_message, 0);
}

#[test]
fn reply_is_sent_trimmed() {
    let mut app = loaded();
    app.handle_key(key(KeyCode::Tab));
    app.handle_key(key(KeyCode::Tab));
    assert_eq!(app.focus, Focus::ReplyInput);
    for c in [' ', 'h', 'i', ' '] {
        app.handle_key(key(KeyCode::Char(c)));
    }
    match app.handle_key(ctrl(KeyCode::Enter)) {
        Request::Send { number, text, kind } => {
            assert_eq!(number, "+222");
            assert_eq!(text, "hi");
            assert_eq!(kind, SendKind::Reply);
        }
        _ => panic!("expected a send"),
    }
    let r = app.sms_sent(SendKind::Reply, "+222", Ok(()));
    assert!(matches!(r, Request::Refresh(AfterRefresh::Nothing)));
    assert!(app.input_buffer.is_empty());
    assert_eq!(app.input_cursor, 0);
    assert_eq!(app.status_message, "Message sent!");
    let r = app.sms_sent(SendKind::Reply, "+222", Err("no signal".to_string()));
    assert!(matches!(r, Request::Nothing));
    assert_eq!(app.status_message, "Send failed: no signal");
}

#[test]
fn empty_reply_is_not_sent() {
    let mut app = loaded();
    app.focus = Focus::ReplyInput;
    app.handle_key(key(KeyCode::Char(' ')));
    assert!(matches!(app.handle_key(ctrl(KeyCode::Enter)), Request::Nothing));
}

#[test]
fn new_message_dialog_flow() {
    let mut app = loaded();
    app.handle_key(key(KeyCode::Char('n')));
    let d = app.new_message_dialog.as_ref().unwrap();
    assert_eq!(d.focus, NewMsgFocus::Number);
    assert!(matches!(app.handle_key(ctrl(KeyCode::Enter)), Request::Nothing));
    assert_eq!(app.status_message, "No number specified");
    for c in "+333".chars() {
        app.handle_key(key(KeyCode::Char(c)));
    }
    app.handle_key(ctrl(KeyCode::Enter));
    assert_eq!(app.status_message, "No message text");
    app.handle_key(key(KeyCode::Tab));
    for c in "yo".chars() {
        app.handle_key(key(KeyCode::Char(c)));
    }
    match app.handle_key(ctrl(KeyCode::Enter)) {
        Request::Send { number, text, kind } => {
            assert_eq!(number, "+333");
            assert_eq!(text, "yo");
            assert_eq!(kind, SendKind::NewMessage);
        }
        _ => panic!("expected a send"),
    }
    assert!(app.new_message_dialog.is_none());
    app.sms_sent(SendKind::NewMessage, "+333", Ok(()));
    assert_eq!(app.status_message, "Message sent to +333!");
    app.handle_key(key(KeyCode::Char('n')));
    app.handle_key(key(KeyCode::Esc));
    assert!(app.new_message_dialog.is_none());
}

#[test]
fn modem_picker_opens_and_switches() {
    let mut app = App::new(1);
    app.open_modem_picker(vec![]);
    assert_eq!(app.status_message, "No modems found");
    app.open_modem_picker(vec![None]);
    assert_eq!(app.status_message, "Failed to query modem info");
    assert!(app.modem_picker.is_none());
    app.open_modem_picker(vec![Some(modem(0)), None, Some(modem(1))]);
    let p = app.modem_picker.as_ref().unwrap();
    assert_eq!(p.modems.len(), 2);
    assert_eq!(p.selected, 1);
    app.handle_key(key(KeyCode::Up));
    match app.handle_key(key(KeyCode::Enter)) {
        Request::Refresh(AfterRefresh::SwitchedModem(n)) => assert_eq!(n, 0),
        _ => panic!("expected a switch"),
    }
    assert_eq!(app.modem_index, 0);
    assert!(app.modem_picker.is_none());
    app.after_refresh(AfterRefresh::SwitchedModem(0));
    assert_eq!(app.status_message, "Switched to modem 0");
}

#[test]
fn picker_selects_first_when_current_is_missing() {
    let mut app = App::new(9);
    app.open_modem_picker(vec![Some(modem(4)), Some(modem(5))]);
    assert_eq!(app.modem_picker.as_ref().unwrap().selected, 0);
}

#[test]
fn auto_refresh_only_when_idle() {
    let mut app = loaded();
    assert!(app.auto_refresh_due(5000));
    assert!(!app.auto_refresh_due(4999));
    app.menu_active = true;
    assert!(!app.auto_refresh_due(6000));
}

#[test]
fn menu_labels() {
    assert_eq!(MenuId::File.label(), "File");
    assert_eq!(MenuId::Messages.hotkey(), 'm');
    assert_eq!(MenuId::Help.actions(), vec!["Key bindings", "About"]);
    assert_eq!(MenuId::File.actions(), vec!["Select Modem...", "---", "Exit"]);
    assert_eq!(MenuId::Messages.actions().len(), 6);
}

#[test]
fn help_popup_swallows_a_key() {
    let mut app = loaded();
    app.handle_key(Key { code: KeyCode::Char('h'), ctrl: false, alt: true });
    assert_eq!(app.menu_selected, 2);
    app.handle_key(key(KeyCode::Enter));
    assert!(app.show_help_popup);
    app.handle_key(key(KeyCode::Char('q')));
    assert!(!app.show_help_popup);
    assert!(app.running);
}

#[test]
fn page_keys_scroll_by_panel_height() {
    let mut app = loaded();
    app.focus = Focus::MessageView;
    app.handle_key(key(KeyCode::PageDown));
    assert_eq!(app.scroll_offset, 18);
    app.handle_key(key(KeyCode::PageUp));
    app.handle_key(key(KeyCode::PageUp));
    assert_eq!(app.scroll_offset, 0);
}

#[test]
fn handlers_keep_selections_valid() {
    let mut app = loaded();
    app.focus = Focus::MessageView;
    app.handle_message_view_key(key(KeyCode::Down));
    assert_eq!(app.selected_message, 0);
    app.selected_conversation = 1;
    app.handle_message_view_key(key(KeyCode::Down));
    app.handle_message_view_key(key(KeyCode::Down));
    assert_eq!(app.selected_message, 1);
    app.handle_message_view_key(key(KeyCode::Home));
    assert_eq!(app.selected_message, 0);
    app.handle_message_view_key(key(KeyCode::Up));
    assert_eq!(app.selected_message, 0);

    app.menu_active = true;
    app.menu_selected = 1;
    app.menu_action_selected = 0;
    app.handle_menu_key(key(KeyCode::Down));
    assert_eq!(app.menu_action_selected, 2);
    app.handle_menu_key(key(KeyCode::Up));
    assert_eq!(app.menu_action_selected, 0);
    app.handle_menu_key(key(KeyCode::Esc));
    assert!(!app.menu_active);

    app.handle_reply_input_key(key(KeyCode::Char('a')));
    app.handle_reply_input_key(key(KeyCode::Char('b')));
    app.handle_reply_input_key(key(KeyCode::Left));
    app.handle_reply_input_key(key(KeyCode::Char('é')));
    assert_eq!(app.input_buffer, vec!['a', 'é', 'b']);
    assert_eq!(app.input_cursor, 2);
}
