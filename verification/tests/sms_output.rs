use homelab::sms::{
    create_sms_argument, interpret_created, interpret_deleted, interpret_modem_info,
    interpret_modem_list, interpret_sent, interpret_sms, interpret_sms_list, parse_created_index,
    parse_modem_info, parse_modem_list, parse_sms, parse_sms_list, sms_object_path, SmsState,
};

#[test]
fn state_parse_ignores_case_and_space() {
    assert!(matches!(SmsState::parse(" Received "), SmsState::Received));
    assert!(matches!(SmsState::parse("SENT"), SmsState::Sent));
    assert!(matches!(SmsState::parse("sending"), SmsState::Sending));
    match SmsState::parse(" Delivered ") {
        SmsState::Unknown(s) => assert_eq!(s, "delivered"),
        _ => panic!("expected an unknown state"),
    }
}

#[test]
fn outgoing_states() {
    assert!(SmsState::Sent.is_outgoing());
    assert!(SmsState::Sending.is_outgoing());
    assert!(!SmsState::Received.is_outgoing());
    assert!(!SmsState::Unknown("x".to_string()).is_outgoing());
}

#[test]
fn modem_list_reads_indices() {
    let out = "Found 2 modems:\n    /org/freedesktop/ModemManager1/Modem/0 [QUALCOMM] SIMCOM_SIM7600\n    /org/freedesktop/ModemManager1/Modem/12 [Huawei] E3372\n";
    assert_eq!(parse_modem_list(out), vec![0, 12]);
    assert_eq!(parse_modem_list("No modems were found\n"), Vec::<u32>::new());
}

#[test]
fn modem_list_failure_text() {
    assert_eq!(interpret_modem_list(false, "", "boom").unwrap_err(), "mmcli -L failed: boom");
    assert_eq!(
        interpret_modem_list(true, "  /org/freedesktop/ModemManager1/Modem/3 [x] y\n", "").unwrap(),
        vec![3]
    );
}

#[test]
fn modem_info_fields() {
    let out = "  --------------------------------\n  General  |           dbus path: /org/freedesktop/ModemManager1/Modem/2\n  Hardware |        manufacturer: QUALCOMM INCORPORATED\n           |               model: SIMCOM_SIM7600E-H\n  Status   |               state: registered\n           |         power state: on\n  Bearer   |               state: connected\n  Numbers  |                 own: +15551234567\n";
    let m = parse_modem_info(2, out);
    assert_eq!(m.index, 2);
    assert_eq!(m.manufacturer, "QUALCOMM INCORPORATED");
    assert_eq!(m.model, "SIMCOM_SIM7600E-H");
    assert_eq!(m.own_number, "+15551234567");
    assert_eq!(m.state, "registered");
}

#[test]
fn modem_info_failure_text() {
    assert_eq!(interpret_modem_info(4, false, "", "no modem").unwrap_err(), "mmcli -m 4 failed: no modem");
    assert_eq!(interpret_modem_info(4, true, "", "").unwrap().manufacturer, "");
}

#[test]
fn sms_list_entries() {
    let out = "    /org/freedesktop/ModemManager1/SMS/3 (received)\n    /org/freedesktop/ModemManager1/SMS/4 (sent)\n    /org/freedesktop/ModemManager1/SMS/7\n";
    let v = parse_sms_list(out);
    assert_eq!(v, vec![(3, "received".to_string()), (4, "sent".to_string()), (7, "unknown".to_string())]);
}

#[test]
fn sms_list_without_messages_is_empty() {
    assert_eq!(
        interpret_sms_list(false, "", "error: No sms messages were found").unwrap(),
        Vec::<(u32, String)>::new()
    );
    assert_eq!(interpret_sms_list(false, "", "other").unwrap_err(), "mmcli list SMS failed: other");
}

#[test]
fn sms_fields() {
    let out = "  -----------------------\n  Content    |              number: '+15551234567'\n             |                text: Hello there\n  -----------------------\n  Properties |            PDU type: deliver\n             |               state: received\n             |           timestamp: 2024-01-15T10:30:00+01:00\n";
    let m = parse_sms(5, out);
    assert_eq!(m.index, 5);
    assert_eq!(m.number, "+15551234567");
    assert_eq!(m.text, "Hello there");
    assert_eq!(m.timestamp, "2024-01-15T10:30:00+01:00");
    assert!(matches!(m.state, SmsState::Received));
    assert_eq!(interpret_sms(5, false, "", "gone").unwrap_err(), "mmcli -s 5 failed: gone");
}

#[test]
fn create_argument_quotes_fields() {
    assert_eq!(create_sms_argument("+1555", "hi"), "--messaging-create-sms=number='+1555',text='hi'");
}

#[test]
fn created_index_is_read() {
    assert_eq!(
        parse_created_index("Successfully created new SMS: /org/freedesktop/ModemManager1/SMS/21\n"),
        Some(21)
    );
    assert_eq!(parse_created_index("nothing here\n"), None);
    assert_eq!(
        interpret_created(true, "garbage", "").unwrap_err(),
        "Could not parse SMS index from create output"
    );
    assert_eq!(interpret_created(false, "", "x").unwrap_err(), "Failed to create SMS: x");
    assert_eq!(interpret_created(true, "  /org/freedesktop/ModemManager1/SMS/9 \n", "").unwrap(), 9);
}

#[test]
fn send_and_delete_results() {
    assert_eq!(interpret_sent(false, "oops").unwrap_err(), "Failed to send SMS: oops");
    assert!(interpret_sent(true, "").is_ok());
    assert_eq!(sms_object_path(7), "/org/freedesktop/ModemManager1/SMS/7");
    assert_eq!(
        interpret_deleted(7, false, true, "").unwrap_err(),
        "sudo privileges required to delete SMS. Run 'sudo -v' first or configure NOPASSWD for mmcli."
    );
    assert_eq!(interpret_deleted(7, true, false, "  denied \n").unwrap_err(), "Failed to delete SMS 7: denied");
    assert!(interpret_deleted(7, true, true, "").is_ok());
}

#[test]
fn state_from_lowered_word() {
    assert!(matches!(SmsState::from_word("received".to_string()), SmsState::Received));
    assert!(matches!(SmsState::from_word("sent".to_string()), SmsState::Sent));
    assert!(matches!(SmsState::from_word("sending".to_string()), SmsState::Sending));
    match SmsState::from_word("Received".to_string()) {
        SmsState::Unknown(s) => assert_eq!(s, "Received"),
        _ => panic!("a word that is not lower case was matched"),
    }
}
