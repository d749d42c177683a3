//! The state of the SMS terminal client and how key presses and the results
//! of modem commands change it.
//!
//! The client never talks to the modem itself: a key press may ask for work
//! (a `Request`); whoever runs the client performs it and hands the result
//! back to the matching method.
use vstd::prelude::*;
use crate::conversations::{self, Conversation, build_conversations};
use crate::editor::{self, Key, KeyCode, handle_text_input};
use crate::sms::{ModemInfo, SmsMessage};
use crate::text::{self, decimal_u64, string_of, trim_ws};

verus! {

/// Which panel takes the keys.
#[derive(Clone, Copy, Debug, PartialEq, Eq, Structural)]
pub enum Focus {
    ConversationList,
    MessageView,
    ReplyInput,
}

/// The menus of the menu bar.
#[derive(Clone, Copy, Debug, PartialEq, Eq, Structural)]
pub enum MenuId {
    File,
    Messages,
    Help,
}

/// Number of menus in the menu bar.
pub const MENU_COUNT: usize = 3;

/// The menu at position `i` of the menu bar.
pub open spec fn menu_at(i: int) -> MenuId {
    if i == 0 {
        MenuId::File
    } else if i == 1 {
        MenuId::Messages
    } else {
        MenuId::Help
    }
}

/// The menu at position `i` of the menu bar.
pub fn menu_item(i: usize) -> (m: MenuId)
    requires
        i < MENU_COUNT,
    ensures
        m == menu_at(i as int),
{
    if i == 0 {
        MenuId::File
    } else if i == 1 {
        MenuId::Messages
    } else {
        MenuId::Help
    }
}

pub open spec fn menu_label(m: MenuId) -> Seq<char> {
    match m {
        MenuId::File => "File"@,
        MenuId::Messages => "Messages"@,
        MenuId::Help => "Help"@,
    }
}

pub open spec fn menu_hotkey(m: MenuId) -> char {
    match m {
        MenuId::File => 'f',
        MenuId::Messages => 'm',
        MenuId::Help => 'h',
    }
}

pub open spec fn action_labels(m: MenuId) -> Seq<Seq<char>> {
    match m {
        MenuId::File => seq!["Select Modem..."@, "---"@, "Exit"@],
        MenuId::Messages => seq![
            "Refresh"@,
            "---"@,
            "New Message"@,
            "---"@,
            "Delete Message"@,
            "Delete Conversation"@,
        ],
        MenuId::Help => seq!["Key bindings"@, "About"@],
    }
}

pub open spec fn action_count(m: MenuId) -> int {
    match m {
        MenuId::File => 3,
        MenuId::Messages => 6,
        MenuId::Help => 2,
    }
}

/// Action `i` of menu `m` is a separator line.
pub open spec fn is_sep(m: MenuId, i: int) -> bool {
    match m {
        MenuId::File => i == 1,
        MenuId::Messages => i == 1 || i == 3,
        MenuId::Help => false,
    }
}

/// A separator is exactly an action labelled `---`.
pub proof fn lemma_separators(m: MenuId, i: int)
    requires
        0 <= i < action_count(m),
    ensures
        action_labels(m).len() == action_count(m),
        is_sep(m, i) <==> action_labels(m)[i] == "---"@,
{
    reveal_strlit("---");
    reveal_strlit("Select Modem...");
    reveal_strlit("Exit");
    reveal_strlit("Refresh");
    reveal_strlit("New Message");
    reveal_strlit("Delete Message");
    reveal_strlit("Delete Conversation");
    reveal_strlit("Key bindings");
    reveal_strlit("About");
    if !is_sep(m, i) {
        assert(action_labels(m)[i][0] != '-' || action_labels(m)[i].len() != 3);
    }
}

impl MenuId {
    pub fn label(self) -> (r: &'static str)
        ensures
            r@ == menu_label(self),
    {
        match self {
            MenuId::File => "File",
            MenuId::Messages => "Messages",
            MenuId::Help => "Help",
        }
    }

    pub fn hotkey(self) -> (r: char)
        ensures
            r == menu_hotkey(self),
    {
        match self {
            MenuId::File => 'f',
            MenuId::Messages => 'm',
            MenuId::Help => 'h',
        }
    }

    /// The labels of the menu's actions; `---` marks a separator.
    pub fn actions(self) -> (r: Vec<&'static str>)
        ensures
            r@.len() == action_labels(self).len(),
            forall|i: int| 0 <= i < r@.len() ==> (#[trigger] r@[i])@ == action_labels(self)[i],
    {
        let mut v: Vec<&'static str> = Vec::new();
        match self {
            MenuId::File => {
                v.push("Select Modem...");
                v.push("---");
                v.push("Exit");
            },
            MenuId::Messages => {
                v.push("Refresh");
                v.push("---");
                v.push("New Message");
                v.push("---");
                v.push("Delete Message");
                v.push("Delete Conversation");
            },
            MenuId::Help => {
                v.push("Key bindings");
                v.push("About");
            },
        }
        v
    }

    /// Whether action `i` is a separator line.
    pub fn is_separator(self, i: usize) -> (r: bool)
        ensures
            r == is_sep(self, i as int),
    {
        match self {
            MenuId::File => i == 1,
            MenuId::Messages => i == 1 || i == 3,
            MenuId::Help => false,
        }
    }

    pub fn action_count(self) -> (r: usize)
        ensures
            r == action_count(self),
    {
        match self {
            MenuId::File => 3,
            MenuId::Messages => 6,
            MenuId::Help => 2,
        }
    }
}

/// The action Up selects: the nearest non-separator above, or the top.
pub open spec fn menu_up(m: MenuId, a: int) -> int
    decreases a,
{
    if a <= 0 {
        0
    } else if !is_sep(m, a - 1) {
        a - 1
    } else {
        menu_up(m, a - 1)
    }
}

/// The action Down selects: the nearest non-separator below, or the bottom.
pub open spec fn menu_down(m: MenuId, a: int) -> int
    decreases action_count(m) - a,
{
    if a >= action_count(m) - 1 {
        a
    } else if !is_sep(m, a + 1) {
        a + 1
    } else {
        menu_down(m, a + 1)
    }
}

/// The focus Tab moves to.
pub open spec fn focus_next(f: Focus, empty: bool) -> Focus {
    match f {
        Focus::ConversationList => if !empty {
            Focus::MessageView
        } else {
            Focus::ConversationList
        },
        Focus::MessageView => Focus::ReplyInput,
        Focus::ReplyInput => Focus::ConversationList,
    }
}

/// The focus Shift+Tab moves to.
pub open spec fn focus_prev(f: Focus, empty: bool) -> Focus {
    let g = match f {
        Focus::ConversationList => Focus::ReplyInput,
        Focus::MessageView => Focus::ConversationList,
        Focus::ReplyInput => Focus::MessageView,
    };
    if g != Focus::ConversationList && empty {
        Focus::ConversationList
    } else {
        g
    }
}

/// Which field of the new-message dialog takes the keys.
#[derive(Clone, Copy, Debug, PartialEq, Eq, Structural)]
pub enum NewMsgFocus {
    Number,
    Body,
}

/// The dialog for writing a message to a new number.
#[derive(Debug)]
pub struct NewMessageDialog {
    pub number: Vec<char>,
    pub number_cursor: usize,
    pub body: Vec<char>,
    pub body_cursor: usize,
    pub focus: NewMsgFocus,
}

/// The list of modems to choose from.
#[derive(Debug)]
pub struct ModemPicker {
    pub modems: Vec<ModemInfo>,
    pub selected: usize,
}

/// What is done once messages have been reloaded.
#[derive(Clone, Copy, Debug, PartialEq, Eq, Structural)]
pub enum AfterRefresh {
    Nothing,
    /// Keep the selected message within the selected conversation.
    ClampMessage,
    /// Report the switch to modem `n`.
    SwitchedModem(u32),
}

/// Which part of the client sent a message.
#[derive(Clone, Copy, Debug, PartialEq, Eq, Structural)]
pub enum SendKind {
    Reply,
    NewMessage,
}

/// Work with the modem that a key press asks for.
#[derive(Debug)]
pub enum Request {
    Nothing,
    /// Load all stored messages, then hand them to `refresh_messages` and
    /// call `after_refresh`.
    Refresh(AfterRefresh),
    /// Create and send an SMS; the result goes to `sms_sent`.
    Send { number: String, text: String, kind: SendKind },
    /// Delete every listed SMS of a conversation; the number of failures
    /// goes to `conversation_deleted`.
    DeleteConversation { number: String, indices: Vec<u32> },
    /// Delete one SMS; the result goes to `message_deleted`.
    DeleteMessage { index: u32 },
    /// List the modems and describe them; both go to `open_modem_picker`.
    ListModems,
}

/// The whole state of the client.
pub struct App {
    pub running: bool,
    pub modem_index: u32,
    pub conversations: Vec<Conversation>,
    pub selected_conversation: usize,
    pub scroll_offset: u16,
    pub input_buffer: Vec<char>,
    pub input_cursor: usize,
    pub focus: Focus,
    pub menu_active: bool,
    pub menu_selected: usize,
    pub menu_action_selected: usize,
    pub status_message: String,
    pub show_help_popup: bool,
    pub confirm_delete: bool,
    pub confirm_delete_message: bool,
    pub selected_message: usize,
    pub message_area_height: u16,
    pub new_message_dialog: Option<NewMessageDialog>,
    pub modem_picker: Option<ModemPicker>,
}

pub open spec fn field_ok(b: Seq<char>, c: int) -> bool {
    c <= b.len() && b.len() < usize::MAX
}

/// The status line after messages were loaded.
pub open spec fn loaded_status(modem: u32, conversations: nat, messages: nat) -> Seq<char> {
    "Modem "@ + text::dec(modem as nat) + " | "@ + text::dec(conversations) + " conversations | "@
        + text::dec(messages) + " messages"@
}

// ---------------------------------------------------------------- what keys do

/// The menu whose hotkey is `c`, ignoring ASCII case.
pub open spec fn menu_for_key(c: char) -> Option<int> {
    if c == 'f' || c == 'F' {
        Some(0)
    } else if c == 'm' || c == 'M' {
        Some(1)
    } else if c == 'h' || c == 'H' {
        Some(2)
    } else {
        None
    }
}

pub open spec fn sat_sub_u16(a: u16, b: u16) -> u16 {
    if a >= b {
        (a - b) as u16
    } else {
        0
    }
}

pub open spec fn sat_add_u16(a: u16, b: u16) -> u16 {
    if a + b > u16::MAX {
        u16::MAX
    } else {
        (a + b) as u16
    }
}

/// `n` is `o` with an empty new-message dialog opened on the number field.
pub open spec fn dialog_opened(o: App, n: App) -> bool {
    &&& n.new_message_dialog matches Some(d) && d.number@.len() == 0 && d.number_cursor == 0
        && d.body@.len() == 0 && d.body_cursor == 0 && d.focus == NewMsgFocus::Number
    &&& n == (App { new_message_dialog: n.new_message_dialog, ..o })
}

pub open spec fn is_refresh(r: Request, after: AfterRefresh) -> bool {
    r matches Request::Refresh(a) && a == after
}

/// The request that deleting the selected conversation makes.
pub open spec fn delete_conversation_request(o: App, r: Request) -> bool {
    match o.selected() {
        Some(c) => r matches Request::DeleteConversation { number, indices } && number@
            == c.number@ && indices@ == c.messages@.map_values(|m: SmsMessage| m.index),
        None => r is Nothing,
    }
}

/// The request that deleting the selected message makes.
pub open spec fn delete_message_request(o: App, r: Request) -> bool {
    if o.selected() is Some && o.selected_message < o.selected()->0.messages@.len() {
        r matches Request::DeleteMessage { index } && index == o.selected()->0.messages@[
            o.selected_message as int].index
    } else {
        r is Nothing
    }
}

/// Sending the reply: the trimmed input to the selected conversation's number.
pub open spec fn send_reply_step(o: App, n: App, r: Request) -> bool {
    let t = text::trim(o.input_buffer@);
    &&& n == o
    &&& if t.len() == 0 || o.selected() is None {
        r is Nothing
    } else {
        r matches Request::Send { number, text, kind } && number@ == o.selected()->0.number@
            && text@ == t && kind == SendKind::Reply
    }
}

pub open spec fn conversation_list_step(o: App, n: App, key: Key, r: Request) -> bool {
    match key.code {
        KeyCode::Char('q') => n == (App { running: false, ..o }) && r is Nothing,
        KeyCode::Char('r') => n == o && is_refresh(r, AfterRefresh::Nothing),
        KeyCode::Char('n') => dialog_opened(o, n) && r is Nothing,
        KeyCode::Char('d') => n == (App { confirm_delete: true, ..o }) && r is Nothing,
        KeyCode::Up | KeyCode::Char('k') => r is Nothing && if o.selected_conversation > 0 {
            n == (App {
                selected_conversation: (o.selected_conversation - 1) as usize,
                scroll_offset: 0,
                selected_message: 0,
                ..o
            })
        } else {
            n == o
        },
        KeyCode::Down | KeyCode::Char('j') => r is Nothing && if o.selected_conversation + 1
            < o.conversations@.len() {
            n == (App {
                selected_conversation: (o.selected_conversation + 1) as usize,
                scroll_offset: 0,
                selected_message: 0,
                ..o
            })
        } else {
            n == o
        },
        KeyCode::Enter => r is Nothing && if !o.empty() {
            n == (App { focus: Focus::MessageView, scroll_offset: 0, selected_message: 0, ..o })
        } else {
            n == o
        },
        _ => n == o && r is Nothing,
    }
}

pub open spec fn message_view_step(o: App, n: App, key: Key, r: Request) -> bool {
    let count = o.message_count();
    let page = sat_sub_u16(o.message_area_height, 2);
    match key.code {
        KeyCode::Char('q') => n == (App { running: false, ..o }) && r is Nothing,
        KeyCode::Char('r') => n == o && is_refresh(r, AfterRefresh::Nothing),
        KeyCode::Char('d') => n == (App { confirm_delete_message: true, ..o }) && r is Nothing,
        KeyCode::Esc => n == (App { focus: Focus::ConversationList, ..o }) && r is Nothing,
        KeyCode::Up | KeyCode::Char('k') => r is Nothing && if o.selected_message > 0 {
            n == (App { selected_message: (o.selected_message - 1) as usize, ..o })
        } else {
            n == o
        },
        KeyCode::Down | KeyCode::Char('j') => r is Nothing && if count > 0 && o.selected_message
            + 1 < count {
            n == (App { selected_message: (o.selected_message + 1) as usize, ..o })
        } else {
            n == o
        },
        KeyCode::PageUp => r is Nothing && n == (App {
            scroll_offset: sat_sub_u16(o.scroll_offset, page),
            ..o
        }),
        KeyCode::PageDown => r is Nothing && n == (App {
            scroll_offset: sat_add_u16(o.scroll_offset, page),
            ..o
        }),
        KeyCode::Home => r is Nothing && n == (App { selected_message: 0, ..o }),
        KeyCode::End => r is Nothing && if count > 0 {
            n == (App { selected_message: (count - 1) as usize, ..o })
        } else {
            n == o
        },
        KeyCode::Enter => r is Nothing && n == (App { focus: Focus::ReplyInput, ..o }),
        _ => n == o && r is Nothing,
    }
}

pub open spec fn reply_input_step(o: App, n: App, key: Key, r: Request) -> bool {
    if key.code == KeyCode::Esc {
        n == (App { focus: Focus::MessageView, ..o }) && r is Nothing
    } else if key.code == KeyCode::Enter && key.ctrl {
        send_reply_step(o, n, r)
    } else {
        &&& (n.input_buffer@, n.input_cursor as int) == editor::edit(
            o.input_buffer@,
            o.input_cursor as int,
            key,
            true,
        )
        &&& n == (App { input_buffer: n.input_buffer, input_cursor: n.input_cursor, ..o })
        &&& r is Nothing
    }
}

/// What the chosen menu action does (the menu is already closed in `o`).
pub open spec fn menu_action_step(o: App, n: App, menu: MenuId, action: usize, r: Request) -> bool {
    match (menu, action) {
        (MenuId::File, 0) => n == o && r is ListModems,
        (MenuId::File, 2) => n == (App { running: false, ..o }) && r is Nothing,
        (MenuId::Messages, 0) => n == o && is_refresh(r, AfterRefresh::Nothing),
        (MenuId::Messages, 2) => dialog_opened(o, n) && r is Nothing,
        (MenuId::Messages, 4) => n == (App { confirm_delete_message: true, ..o }) && r is Nothing,
        (MenuId::Messages, 5) => n == (App { confirm_delete: true, ..o }) && r is Nothing,
        (MenuId::Help, 0) | (MenuId::Help, 1) => n == (App { show_help_popup: true, ..o })
            && r is Nothing,
        _ => n == o && r is Nothing,
    }
}

pub open spec fn menu_step(o: App, n: App, key: Key, r: Request) -> bool {
    let menu = menu_at(o.menu_selected as int);
    match key.code {
        KeyCode::Esc | KeyCode::F(10) => n == (App { menu_active: false, ..o }) && r is Nothing,
        KeyCode::Left => r is Nothing && n == (App {
            menu_selected: if o.menu_selected > 0 {
                (o.menu_selected - 1) as usize
            } else {
                (MENU_COUNT - 1) as usize
            },
            menu_action_selected: 0,
            ..o
        }),
        KeyCode::Right => r is Nothing && n == (App {
            menu_selected: ((o.menu_selected + 1) % (MENU_COUNT as int)) as usize,
            menu_action_selected: 0,
            ..o
        }),
        KeyCode::Up => r is Nothing && n == (App {
            menu_action_selected: menu_up(menu, o.menu_action_selected as int) as usize,
            ..o
        }),
        KeyCode::Down => r is Nothing && n == (App {
            menu_action_selected: menu_down(menu, o.menu_action_selected as int) as usize,
            ..o
        }),
        KeyCode::Enter => if !is_sep(menu, o.menu_action_selected as int) {
            menu_action_step(
                App { menu_active: false, ..o },
                n,
                menu,
                o.menu_action_selected,
                r,
            )
        } else {
            n == o && r is Nothing
        },
        _ => n == o && r is Nothing,
    }
}

pub open spec fn modem_picker_step(o: App, n: App, key: Key, r: Request) -> bool {
    let p = o.modem_picker->0;
    match key.code {
        KeyCode::Esc => n == (App { modem_picker: None, ..o }) && r is Nothing,
        KeyCode::Up | KeyCode::Char('k') => r is Nothing && if p.selected > 0 {
            n == (App {
                modem_picker: Some(ModemPicker { selected: (p.selected - 1) as usize, ..p }),
                ..o
            })
        } else {
            n == o
        },
        KeyCode::Down | KeyCode::Char('j') => r is Nothing && if p.selected + 1
            < p.modems@.len() {
            n == (App {
                modem_picker: Some(ModemPicker { selected: (p.selected + 1) as usize, ..p }),
                ..o
            })
        } else {
            n == o
        },
        KeyCode::Enter => {
            let new_modem = p.modems@[p.selected as int].index;
            if new_modem != o.modem_index {
                &&& n.input_buffer@.len() == 0
                &&& n == (App {
                    modem_picker: None,
                    modem_index: new_modem,
                    selected_conversation: 0,
                    selected_message: 0,
                    scroll_offset: 0,
                    input_buffer: n.input_buffer,
                    input_cursor: 0,
                    focus: Focus::ConversationList,
                    ..o
                })
                &&& is_refresh(r, AfterRefresh::SwitchedModem(new_modem))
            } else {
                n == (App { modem_picker: None, ..o }) && r is Nothing
            }
        },
        _ => n == o && r is Nothing,
    }
}

/// Sending the new message: both fields trimmed; neither may be empty.
pub open spec fn send_new_step(o: App, n: App, r: Request) -> bool {
    let d = o.new_message_dialog->0;
    let number = text::trim(d.number@);
    let body = text::trim(d.body@);
    if number.len() == 0 {
        &&& n.status_message@ == "No number specified"@
        &&& n == (App { status_message: n.status_message, ..o })
        &&& r is Nothing
    } else if body.len() == 0 {
        &&& n.status_message@ == "No message text"@
        &&& n == (App { status_message: n.status_message, ..o })
        &&& r is Nothing
    } else {
        &&& n == (App { new_message_dialog: None, ..o })
        &&& r matches Request::Send { number: nn, text, kind } && nn@ == number && text@ == body
            && kind == SendKind::NewMessage
    }
}

pub open spec fn new_message_step(o: App, n: App, key: Key, r: Request) -> bool {
    let d = o.new_message_dialog->0;
    if key.code == KeyCode::Esc {
        n == (App { new_message_dialog: None, ..o }) && r is Nothing
    } else if key.code == KeyCode::Tab {
        r is Nothing && n == (App {
            new_message_dialog: Some(
                NewMessageDialog {
                    focus: if d.focus == NewMsgFocus::Number {
                        NewMsgFocus::Body
                    } else {
                        NewMsgFocus::Number
                    },
                    ..d
                },
            ),
            ..o
        })
    } else if key.code == KeyCode::Enter && key.ctrl {
        send_new_step(o, n, r)
    } else {
        &&& r is Nothing
        &&& n == (App { new_message_dialog: n.new_message_dialog, ..o })
        &&& n.new_message_dialog matches Some(e) && if d.focus == NewMsgFocus::Number {
            &&& (e.number@, e.number_cursor as int) == editor::edit(
                d.number@,
                d.number_cursor as int,
                key,
                false,
            )
            &&& e == (NewMessageDialog { number: e.number, number_cursor: e.number_cursor, ..d })
        } else {
            &&& (e.body@, e.body_cursor as int) == editor::edit(
                d.body@,
                d.body_cursor as int,
                key,
                true,
            )
            &&& e == (NewMessageDialog { body: e.body, body_cursor: e.body_cursor, ..d })
        }
    }
}

/// What a key press does to the client, and the work it asks for.
pub open spec fn key_step(o: App, n: App, key: Key, r: Request) -> bool {
    if key.code == KeyCode::Char('c') && key.ctrl {
        n == (App { running: false, ..o }) && r is Nothing
    } else if o.show_help_popup {
        n == (App { show_help_popup: false, ..o }) && r is Nothing
    } else if o.confirm_delete {
        &&& n == (App { confirm_delete: false, ..o })
        &&& if key.code == KeyCode::Char('y') || key.code == KeyCode::Char('Y') {
            delete_conversation_request(o, r)
        } else {
            r is Nothing
        }
    } else if o.confirm_delete_message {
        &&& n == (App { confirm_delete_message: false, ..o })
        &&& if key.code == KeyCode::Char('y') || key.code == KeyCode::Char('Y') {
            delete_message_request(o, r)
        } else {
            r is Nothing
        }
    } else if o.modem_picker is Some {
        modem_picker_step(o, n, key, r)
    } else if o.new_message_dialog is Some {
        new_message_step(o, n, key, r)
    } else if o.menu_active {
        menu_step(o, n, key, r)
    } else {
        match key.code {
            KeyCode::F(10) => r is Nothing && n == (App {
                menu_active: true,
                menu_selected: 0,
                menu_action_selected: 0,
                ..o
            }),
            KeyCode::Char(c) if key.alt => r is Nothing && match menu_for_key(c) {
                Some(i) => n == (App {
                    menu_active: true,
                    menu_selected: i as usize,
                    menu_action_selected: 0,
                    ..o
                }),
                None => n == o,
            },
            KeyCode::Tab => r is Nothing && n == (App {
                focus: focus_next(o.focus, o.empty()),
                ..o
            }),
            KeyCode::BackTab => r is Nothing && n == (App {
                focus: focus_prev(o.focus, o.empty()),
                ..o
            }),
            _ => match o.focus {
                Focus::ConversationList => conversation_list_step(o, n, key, r),
                Focus::MessageView => message_view_step(o, n, key, r),
                Focus::ReplyInput => reply_input_step(o, n, key, r),
            },
        }
    }
}

/// Up and Down in a menu stay on actions that are not separators.
pub proof fn lemma_menu_moves(m: MenuId, a: int)
    requires
        0 <= a < action_count(m),
    ensures
        0 <= menu_up(m, a) < action_count(m),
        !is_sep(m, menu_up(m, a)),
        0 <= menu_down(m, a) < action_count(m),
        !is_sep(m, a) ==> !is_sep(m, menu_down(m, a)),
        menu_down(m, a) >= a,
{
    reveal_with_fuel(menu_up, 7);
    reveal_with_fuel(menu_down, 7);
}

/// With conversations loaded, Shift+Tab undoes Tab and Tab undoes Shift+Tab.
pub proof fn law_focus_round_trip(f: Focus)
    ensures
        focus_prev(focus_next(f, false), false) == f,
        focus_next(focus_prev(f, false), false) == f,
{
}

/// With no conversation loaded, Shift+Tab always lands on the conversation
/// list, and Tab never leaves it.
pub proof fn law_focus_without_conversations(f: Focus)
    ensures
        focus_prev(f, true) == Focus::ConversationList,
        focus_next(Focus::ConversationList, true) == Focus::ConversationList,
{
}

/// In the menu bar, Right after Left comes back to the same menu, on its
/// first action; so does Left after Right.
pub proof fn law_menu_left_right(o: App, m: App, n: App, k1: Key, k2: Key, r1: Request, r2: Request)
    requires
        o.menu_selected < MENU_COUNT,
        (k1.code == KeyCode::Left && k2.code == KeyCode::Right) || (k1.code == KeyCode::Right
            && k2.code == KeyCode::Left),
        menu_step(o, m, k1, r1),
        menu_step(m, n, k2, r2),
    ensures
        n == (App { menu_action_selected: 0, ..o }),
        r1 is Nothing && r2 is Nothing,
{
}

/// In the message view the selected message stays within the selected
/// conversation (or at 0 without messages); Up, Down, Home and End move it
/// as far as that allows.
pub proof fn law_message_view_selection(o: App, n: App, key: Key, r: Request)
    requires
        o.wf(),
        message_view_step(o, n, key, r),
        o.selected_message < (if o.message_count() > 1 {
            o.message_count()
        } else {
            1
        }),
    ensures
        n.message_count() == o.message_count(),
        n.selected_message < (if n.message_count() > 1 {
            n.message_count()
        } else {
            1
        }),
        (key.code == KeyCode::Down || key.code == KeyCode::Char('j')) ==> n.selected_message == if o.selected_message + 1 < o.message_count() {
            o.selected_message + 1
        } else {
            o.selected_message as int
        },
        (key.code == KeyCode::Up || key.code == KeyCode::Char('k')) ==> n.selected_message == if o.selected_message > 0 {
            o.selected_message - 1
        } else {
            0
        },
        key.code == KeyCode::Home ==> n.selected_message == 0,
        key.code == KeyCode::End && o.message_count() > 0 ==> n.selected_message == o.message_count() - 1,
{
    if o.selected() is Some {
        let c = o.selected()->0;
        assert(c.messages@.len() == c.messages.len());
    }
}

/// Of the two delete actions of the Messages menu, "Delete Message" asks to
/// confirm deleting the selected message and "Delete Conversation" asks to
/// confirm deleting the whole conversation; neither raises the other's
/// question, asks for work, or changes anything else.
pub proof fn law_menu_delete_actions(o: App, n: App, action: usize, r: Request)
    requires
        menu_action_step(o, n, MenuId::Messages, action, r),
        action == 4 || action == 5,
    ensures
        r is Nothing,
        action == 4 ==> n.confirm_delete_message && n.confirm_delete == o.confirm_delete,
        action == 5 ==> n.confirm_delete && n.confirm_delete_message == o.confirm_delete_message,
        n.conversations == o.conversations && n.selected_conversation == o.selected_conversation
            && n.selected_message == o.selected_message && n.running == o.running,
{
}

/// What each menu action does: File/Select Modem asks for the modem list,
/// File/Exit stops the client, Messages/Refresh asks for a reload,
/// Messages/New Message opens an empty dialog on the number field, and both
/// Help actions show the help; none of them touches the conversations or
/// the selections.
pub proof fn law_menu_actions(o: App, n: App, menu: MenuId, action: usize, r: Request)
    requires
        menu_action_step(o, n, menu, action, r),
    ensures
        n.conversations == o.conversations,
        n.selected_conversation == o.selected_conversation,
        n.selected_message == o.selected_message,
        n.modem_index == o.modem_index,
        menu == MenuId::File && action == 0 ==> r is ListModems && n == o,
        menu == MenuId::File && action == 2 ==> r is Nothing && !n.running,
        menu != MenuId::File || action != 2 ==> n.running == o.running,
        menu == MenuId::Messages && action == 0 ==> (r matches Request::Refresh(a) && a
            == AfterRefresh::Nothing) && n == o,
        menu == MenuId::Messages && action == 2 ==> r is Nothing && (n.new_message_dialog matches Some(
            d,
        ) && d.number@.len() == 0 && d.body@.len() == 0 && d.focus == NewMsgFocus::Number),
        menu == MenuId::Help && (action == 0 || action == 1) ==> r is Nothing && n.show_help_popup
            && n.confirm_delete == o.confirm_delete && n.confirm_delete_message
            == o.confirm_delete_message,
        !(menu == MenuId::Help && (action == 0 || action == 1)) ==> n.show_help_popup
            == o.show_help_popup,
{
}

/// While the menu is open its selection stays on a menu and on an action
/// that is not a separator; Esc, F10 and Enter close it.
pub proof fn law_menu_selection_valid(o: App, n: App, key: Key, r: Request)
    requires
        menu_step(o, n, key, r),
        o.menu_selected < MENU_COUNT,
        o.menu_action_selected < action_count(menu_at(o.menu_selected as int)),
        !is_sep(menu_at(o.menu_selected as int), o.menu_action_selected as int),
    ensures
        n.menu_selected < MENU_COUNT,
        n.menu_action_selected < action_count(menu_at(n.menu_selected as int)),
        !is_sep(menu_at(n.menu_selected as int), n.menu_action_selected as int),
        (key.code == KeyCode::Esc || key.code == KeyCode::F(10) || key.code == KeyCode::Enter)
            ==> !n.menu_active,
{
    lemma_menu_moves(menu_at(o.menu_selected as int), o.menu_action_selected as int);
}

/// In the reply box the cursor stays within the text, and a typed
/// character is inserted at the cursor, which moves past it.
pub proof fn law_reply_input(o: App, n: App, key: Key, r: Request)
    requires
        reply_input_step(o, n, key, r),
        o.input_cursor <= o.input_buffer@.len(),
    ensures
        n.input_cursor <= n.input_buffer@.len(),
        key.code matches KeyCode::Char(c) ==> (editor::room(o.input_buffer@) ==> (n.input_buffer@
            == o.input_buffer@.insert(o.input_cursor as int, c) && n.input_cursor == o.input_cursor
            + 1)),
{
    editor::law_cursor_in_field(o.input_buffer@, o.input_cursor as int, key, true);
}

/// The menu index whose hotkey is `c`, ignoring ASCII case.
fn hotkey_menu(c: char) -> (r: Option<usize>)
    ensures
        match r {
            Some(i) => menu_for_key(c) == Some(i as int),
            None => menu_for_key(c) is None,
        },
{
    if c == 'f' || c == 'F' {
        Some(0)
    } else if c == 'm' || c == 'M' {
        Some(1)
    } else if c == 'h' || c == 'H' {
        Some(2)
    } else {
        None
    }
}

impl App {
    /// The invariant every state of the client keeps.
    pub open spec fn wf(self) -> bool {
        &&& field_ok(self.input_buffer@, self.input_cursor as int)
        &&& self.menu_selected < MENU_COUNT
        &&& self.menu_action_selected < action_count(menu_at(self.menu_selected as int))
        &&& !is_sep(menu_at(self.menu_selected as int), self.menu_action_selected as int)
        &&& self.selected_conversation < usize::MAX
        &&& self.selected_message < usize::MAX
        &&& (self.new_message_dialog matches Some(d) ==> field_ok(d.number@, d.number_cursor as int)
            && field_ok(d.body@, d.body_cursor as int))
        &&& (self.modem_picker matches Some(p) ==> p.selected < p.modems@.len())
    }

    pub open spec fn empty(self) -> bool {
        self.conversations@.len() == 0
    }

    pub open spec fn selected(self) -> Option<Conversation> {
        if self.selected_conversation < self.conversations@.len() {
            Some(self.conversations@[self.selected_conversation as int])
        } else {
            None
        }
    }

    /// Messages in the selected conversation (0 without one).
    pub open spec fn message_count(self) -> int {
        match self.selected() {
            Some(c) => c.messages@.len() as int,
            None => 0,
        }
    }

    /// A client for modem `modem_index`, with nothing loaded yet.
    pub fn new(modem_index: u32) -> (app: App)
        ensures
            app.wf(),
            app.running,
            app.modem_index == modem_index,
            app.conversations@.len() == 0,
            app.selected_conversation == 0,
            app.scroll_offset == 0,
            app.input_buffer@.len() == 0,
            app.input_cursor == 0,
            app.focus == Focus::ConversationList,
            !app.menu_active,
            app.menu_selected == 0,
            app.menu_action_selected == 0,
            app.status_message@ == "Loading..."@,
            !app.show_help_popup,
            !app.confirm_delete,
            !app.confirm_delete_message,
            app.selected_message == 0,
            app.message_area_height == 20,
            app.new_message_dialog is None,
            app.modem_picker is None,
    {
        App {
            running: true,
            modem_index,
            conversations: Vec::new(),
            selected_conversation: 0,
            scroll_offset: 0,
            input_buffer: Vec::new(),
            input_cursor: 0,
            focus: Focus::ConversationList,
            menu_active: false,
            menu_selected: 0,
            menu_action_selected: 0,
            status_message: String::from_str("Loading..."),
            show_help_popup: false,
            confirm_delete: false,
            confirm_delete_message: false,
            selected_message: 0,
            message_area_height: 20,
            new_message_dialog: None,
            modem_picker: None,
        }
    }

    /// The selected conversation, if the selection names one.
    pub fn selected_convo(&self) -> (r: Option<&Conversation>)
        ensures
            match r {
                Some(c) => self.selected() == Some(*c),
                None => self.selected() is None,
            },
    {
        if self.selected_conversation < self.conversations.len() {
            Some(&self.conversations[self.selected_conversation])
        } else {
            None
        }
    }

    fn message_count_exec(&self) -> (r: usize)
        ensures
            r == self.message_count(),
    {
        match self.selected_convo() {
            Some(c) => c.messages.len(),
            None => 0,
        }
    }

    /// Whether the periodic reload is due after `elapsed_millis` since the
    /// last one: at least five seconds, and no menu, popup or dialog open.
    pub fn auto_refresh_due(&self, elapsed_millis: u64) -> (r: bool)
        ensures
            r == (elapsed_millis >= 5000 && !self.menu_active && !self.show_help_popup
                && !self.confirm_delete && !self.confirm_delete_message
                && self.new_message_dialog is None && self.modem_picker is None),
    {
        elapsed_millis >= 5000 && !self.menu_active && !self.show_help_popup && !self.confirm_delete
            && !self.confirm_delete_message && self.new_message_dialog.is_none()
            && self.modem_picker.is_none()
    }

    // ------------------------------------------------------------ loading

    /// Replaces the conversations by those made of `msgs` and keeps the
    /// selection within them.
    pub fn load_messages(&mut self, msgs: Vec<SmsMessage>)
        requires
            old(self).wf(),
        ensures
            final(self).wf(),
            conversations::conversations_of(msgs@, final(self).conversations@),
            final(self).selected_conversation == if final(self).conversations@.len() > 0
                && old(self).selected_conversation >= final(self).conversations@.len() {
                (final(self).conversations@.len() - 1) as usize
            } else {
                old(self).selected_conversation
            },
            *final(self) == (App {
                conversations: final(self).conversations,
                selected_conversation: final(self).selected_conversation,
                ..*old(self)
            }),
    {
        self.conversations = build_conversations(msgs);
        if self.conversations.len() > 0 && self.selected_conversation >= self.conversations.len() {
            self.selected_conversation = self.conversations.len() - 1;
        }
    }

    /// Takes in the result of loading the stored messages.
    pub fn refresh_messages(&mut self, loaded: Result<Vec<SmsMessage>, String>)
        requires
            old(self).wf(),
        ensures
            final(self).wf(),
            match loaded {
                Ok(msgs) => {
                    &&& conversations::conversations_of(msgs@, final(self).conversations@)
                    &&& conversations::message_total(final(self).conversations@) == msgs@.len()
                    &&& final(self).selected_conversation == if final(self).conversations@.len() > 0
                        && old(self).selected_conversation >= final(self).conversations@.len() {
                        (final(self).conversations@.len() - 1) as usize
                    } else {
                        old(self).selected_conversation
                    }
                    &&& final(self).status_message@ == loaded_status(
                        old(self).modem_index,
                        final(self).conversations@.len(),
                        msgs@.len(),
                    )
                    &&& *final(self) == (App {
                        conversations: final(self).conversations,
                        selected_conversation: final(self).selected_conversation,
                        status_message: final(self).status_message,
                        ..*old(self)
                    })
                },
                Err(e) => {
                    &&& final(self).status_message@ == "Error: "@ + e@
                    &&& *final(self) == (App {
                        status_message: final(self).status_message,
                        ..*old(self)
                    })
                },
            },
    {
        match loaded {
            Ok(msgs) => {
                let count = msgs.len();
                let ghost all = msgs@;
                self.load_messages(msgs);
                proof {
                    conversations::law_grouping_keeps_every_message(all, self.conversations@);
                }
                let mut s = String::from_str("Modem ");
                s.append(string_of(&decimal_u64(self.modem_index as u64)).as_str());
                s.append(" | ");
                s.append(string_of(&decimal_u64(self.conversations.len() as u64)).as_str());
                s.append(" conversations | ");
                s.append(string_of(&decimal_u64(count as u64)).as_str());
                s.append(" messages");
                self.status_message = s;
            },
            Err(e) => {
                self.status_message = text::cat("Error: ", e.as_str());
            },
        }
    }

    /// What follows a reload.
    pub fn after_refresh(&mut self, after: AfterRefresh)
        requires
            old(self).wf(),
        ensures
            final(self).wf(),
            match after {
                AfterRefresh::Nothing => *final(self) == *old(self),
                AfterRefresh::ClampMessage => *final(self) == (App {
                    selected_message: if old(self).message_count() > 0
                        && old(self).selected_message >= old(self).message_count() {
                        (old(self).message_count() - 1) as usize
                    } else {
                        old(self).selected_message
                    },
                    ..*old(self)
                }),
                AfterRefresh::SwitchedModem(n) => {
                    &&& final(self).status_message@ == "Switched to modem "@ + text::dec(n as nat)
                    &&& *final(self) == (App {
                        status_message: final(self).status_message,
                        ..*old(self)
                    })
                },
            },
    {
        match after {
            AfterRefresh::Nothing => {},
            AfterRefresh::ClampMessage => {
                let count = self.message_count_exec();
                if count > 0 && self.selected_message >= count {
                    self.selected_message = count - 1;
                }
            },
            AfterRefresh::SwitchedModem(n) => {
                let num = string_of(&decimal_u64(n as u64));
                self.status_message = text::cat("Switched to modem ", num.as_str());
            },
        }
    }

    // ------------------------------------------------------------ keys

    /// Opens an empty new-message dialog.
    pub fn open_new_message(&mut self)
        requires
            old(self).wf(),
        ensures
            final(self).wf(),
            dialog_opened(*old(self), *final(self)),
    {
        self.new_message_dialog = Some(
            NewMessageDialog {
                number: Vec::new(),
                number_cursor: 0,
                body: Vec::new(),
                body_cursor: 0,
                focus: NewMsgFocus::Number,
            },
        );
    }

    /// The request to delete every message of the selected conversation.
    pub fn do_delete_conversation(&self) -> (r: Request)
        ensures
            delete_conversation_request(*self, r),
    {
        match self.selected_convo() {
            Some(c) => {
                let mut indices: Vec<u32> = Vec::new();
                let mut i: usize = 0;
                while i < c.messages.len()
                    invariant
                        i <= c.messages.len(),
                        indices@ == c.messages@.take(i as int).map_values(|m: SmsMessage| m.index),
                    decreases c.messages.len() - i,
                {
                    indices.push(c.messages[i].index);
                    assert(c.messages@.take(i + 1).map_values(|m: SmsMessage| m.index)
                        =~= c.messages@.take(i as int).map_values(|m: SmsMessage| m.index).push(
                        c.messages@[i as int].index,
                    ));
                    i = i + 1;
                }
                assert(c.messages@.take(c.messages.len() as int) =~= c.messages@);
                Request::DeleteConversation { number: c.number.clone(), indices }
            },
            None => Request::Nothing,
        }
    }

    /// The request to delete the selected message.
    pub fn do_delete_message(&self) -> (r: Request)
        ensures
            delete_message_request(*self, r),
    {
        match self.selected_convo() {
            Some(c) => {
                if self.selected_message < c.messages.len() {
                    Request::DeleteMessage { index: c.messages[self.selected_message].index }
                } else {
                    Request::Nothing
                }
            },
            None => Request::Nothing,
        }
    }

    /// The request to send the reply being written.
    pub fn send_reply(&self) -> (r: Request)
        ensures
            send_reply_step(*self, *self, r),
    {
        let t = trim_ws(&self.input_buffer);
        if t.len() == 0 {
            return Request::Nothing;
        }
        match self.selected_convo() {
            Some(c) => Request::Send {
                number: c.number.clone(),
                text: string_of(&t),
                kind: SendKind::Reply,
            },
            None => Request::Nothing,
        }
    }

    /// A key in the conversation list.
    pub fn handle_conversation_list_key(&mut self, key: Key) -> (r: Request)
        requires
            old(self).wf(),
        ensures
            final(self).wf(),
            conversation_list_step(*old(self), *final(self), key, r),
    {
        match key.code {
            KeyCode::Char('q') => {
                self.running = false;
                Request::Nothing
            },
            KeyCode::Char('r') => Request::Refresh(AfterRefresh::Nothing),
            KeyCode::Char('n') => {
                self.open_new_message();
                Request::Nothing
            },
            KeyCode::Char('d') => {
                self.confirm_delete = true;
                Request::Nothing
            },
            KeyCode::Up | KeyCode::Char('k') => {
                if self.selected_conversation > 0 {
                    self.selected_conversation = self.selected_conversation - 1;
                    self.scroll_offset = 0;
                    self.selected_message = 0;
                }
                Request::Nothing
            },
            KeyCode::Down | KeyCode::Char('j') => {
                if self.selected_conversation + 1 < self.conversations.len() {
                    self.selected_conversation = self.selected_conversation + 1;
                    self.scroll_offset = 0;
                    self.selected_message = 0;
                }
                Request::Nothing
            },
            KeyCode::Enter => {
                if self.conversations.len() > 0 {
                    self.focus = Focus::MessageView;
                    self.scroll_offset = 0;
                    self.selected_message = 0;
                }
                Request::Nothing
            },
            _ => Request::Nothing,
        }
    }

    /// A key in the message view.
    pub fn handle_message_view_key(&mut self, key: Key) -> (r: Request)
        requires
            old(self).wf(),
        ensures
            final(self).wf(),
            message_view_step(*old(self), *final(self), key, r),
    {
        let msg_count = self.message_count_exec();
        let page = self.message_area_height.saturating_sub(2);
        match key.code {
            KeyCode::Char('q') => {
                self.running = false;
                Request::Nothing
            },
            KeyCode::Char('r') => Request::Refresh(AfterRefresh::Nothing),
            KeyCode::Char('d') => {
                self.confirm_delete_message = true;
                Request::Nothing
            },
            KeyCode::Esc => {
                self.focus = Focus::ConversationList;
                Request::Nothing
            },
            KeyCode::Up | KeyCode::Char('k') => {
                if self.selected_message > 0 {
                    self.selected_message = self.selected_message - 1;
                }
                Request::Nothing
            },
            KeyCode::Down | KeyCode::Char('j') => {
                if msg_count > 0 && self.selected_message + 1 < msg_count {
                    self.selected_message = self.selected_message + 1;
                }
                Request::Nothing
            },
            KeyCode::PageUp => {
                self.scroll_offset = self.scroll_offset.saturating_sub(page);
                Request::Nothing
            },
            KeyCode::PageDown => {
                self.scroll_offset = self.scroll_offset.saturating_add(page);
                Request::Nothing
            },
            KeyCode::Home => {
                self.selected_message = 0;
                Request::Nothing
            },
            KeyCode::End => {
                if msg_count > 0 {
                    self.selected_message = msg_count - 1;
                }
                Request::Nothing
            },
            KeyCode::Enter => {
                self.focus = Focus::ReplyInput;
                Request::Nothing
            },
            _ => Request::Nothing,
        }
    }

    /// A key in the reply box.
    pub fn handle_reply_input_key(&mut self, key: Key) -> (r: Request)
        requires
            old(self).wf(),
        ensures
            final(self).wf(),
            reply_input_step(*old(self), *final(self), key, r),
    {
        match key.code {
            KeyCode::Esc => {
                self.focus = Focus::MessageView;
                Request::Nothing
            },
            KeyCode::Enter if key.ctrl => self.send_reply(),
            _ => {
                let mut cursor = self.input_cursor;
                handle_text_input(&mut self.input_buffer, &mut cursor, key, true);
                self.input_cursor = cursor;
                Request::Nothing
            },
        }
    }

    /// Runs the selected action of the open menu.
    pub fn execute_menu_action(&mut self) -> (r: Request)
        requires
            old(self).wf(),
        ensures
            final(self).wf(),
            menu_action_step(
                *old(self),
                *final(self),
                menu_at(old(self).menu_selected as int),
                old(self).menu_action_selected,
                r,
            ),
    {
        let menu = menu_item(self.menu_selected);
        match (menu, self.menu_action_selected) {
            (MenuId::File, 0) => Request::ListModems,
            (MenuId::File, 2) => {
                self.running = false;
                Request::Nothing
            },
            (MenuId::Messages, 0) => Request::Refresh(AfterRefresh::Nothing),
            (MenuId::Messages, 2) => {
                self.open_new_message();
                Request::Nothing
            },
            (MenuId::Messages, 4) => {
                self.confirm_delete_message = true;
                Request::Nothing
            },
            (MenuId::Messages, 5) => {
                self.confirm_delete = true;
                Request::Nothing
            },
            (MenuId::Help, 0) | (MenuId::Help, 1) => {
                self.show_help_popup = true;
                Request::Nothing
            },
            _ => Request::Nothing,
        }
    }

    /// A key while the menu is open.
    pub fn handle_menu_key(&mut self, key: Key) -> (r: Request)
        requires
            old(self).wf(),
        ensures
            final(self).wf(),
            menu_step(*old(self), *final(self), key, r),
    {
        let menu = menu_item(self.menu_selected);
        proof {
            lemma_menu_moves(menu, self.menu_action_selected as int);
        }
        match key.code {
            KeyCode::Esc | KeyCode::F(10) => {
                self.menu_active = false;
                Request::Nothing
            },
            KeyCode::Left => {
                if self.menu_selected > 0 {
                    self.menu_selected = self.menu_selected - 1;
                } else {
                    self.menu_selected = MENU_COUNT - 1;
                }
                self.menu_action_selected = 0;
                Request::Nothing
            },
            KeyCode::Right => {
                self.menu_selected = (self.menu_selected + 1) % MENU_COUNT;
                self.menu_action_selected = 0;
                Request::Nothing
            },
            KeyCode::Up => {
                let ghost a0 = self.menu_action_selected as int;
                let mut a = self.menu_action_selected;
                loop
                    invariant_except_break
                        a <= a0,
                        menu_up(menu, a0) == menu_up(menu, a as int),
                    ensures
                        a as int == menu_up(menu, a0),
                    decreases a,
                {
                    if a == 0 {
                        break;
                    }
                    a = a - 1;
                    if !menu.is_separator(a) {
                        break;
                    }
                }
                self.menu_action_selected = a;
                Request::Nothing
            },
            KeyCode::Down => {
                let ghost a0 = self.menu_action_selected as int;
                let max = menu.action_count() - 1;
                let mut a = self.menu_action_selected;
                loop
                    invariant_except_break
                        max == action_count(menu) - 1,
                        a0 <= a,
                        menu_down(menu, a0) == menu_down(menu, a as int),
                    ensures
                        a as int == menu_down(menu, a0),
                    decreases max - a,
                {
                    if a >= max {
                        break;
                    }
                    a = a + 1;
                    if !menu.is_separator(a) {
                        break;
                    }
                }
                self.menu_action_selected = a;
                Request::Nothing
            },
            KeyCode::Enter => {
                if !menu.is_separator(self.menu_action_selected) {
                    let ghost before = *self;
                    self.menu_active = false;
                    let r = self.execute_menu_action();
                    r
                } else {
                    Request::Nothing
                }
            },
            _ => Request::Nothing,
        }
    }

    fn handle_modem_picker_key(&mut self, key: Key) -> (r: Request)
        requires
            old(self).wf(),
            old(self).modem_picker is Some,
        ensures
            final(self).wf(),
            modem_picker_step(*old(self), *final(self), key, r),
    {
        let ghost before = *self;
        let picker = self.modem_picker.take();
        assert(picker == before.modem_picker);
        match picker {
            Some(p) => {
                let mut p = p;
                assert(p.selected < p.modems@.len());
                match key.code {
                    KeyCode::Esc => Request::Nothing,
                    KeyCode::Up | KeyCode::Char('k') => {
                        if p.selected > 0 {
                            p.selected = p.selected - 1;
                        }
                        self.modem_picker = Some(p);
                        Request::Nothing
                    },
                    KeyCode::Down | KeyCode::Char('j') => {
                        let len = p.modems.len();
                        if p.selected + 1 < len {
                            p.selected = p.selected + 1;
                        }
                        self.modem_picker = Some(p);
                        Request::Nothing
                    },
                    KeyCode::Enter => {
                        let new_modem = p.modems[p.selected].index;
                        if new_modem != self.modem_index {
                            self.modem_index = new_modem;
                            self.selected_conversation = 0;
                            self.selected_message = 0;
                            self.scroll_offset = 0;
                            self.input_buffer.clear();
                            self.input_cursor = 0;
                            self.focus = Focus::ConversationList;
                            Request::Refresh(AfterRefresh::SwitchedModem(new_modem))
                        } else {
                            Request::Nothing
                        }
                    },
                    _ => {
                        self.modem_picker = Some(p);
                        Request::Nothing
                    },
                }
            },
            None => Request::Nothing,
        }
    }

    /// The request to send the message written in the new-message dialog.
    /// The request to send the message written in the new-message dialog:
    /// both fields trimmed, and neither empty. Without a dialog nothing
    /// happens.
    pub fn send_new_message(&mut self) -> (r: Request)
        requires
            old(self).wf(),
        ensures
            final(self).wf(),
            old(self).new_message_dialog is Some ==> send_new_step(*old(self), *final(self), r),
            old(self).new_message_dialog is None ==> *final(self) == *old(self) && r is Nothing,
    {
        if self.new_message_dialog.is_none() {
            return Request::Nothing;
        }
        let (number, body) = match &self.new_message_dialog {
            Some(d) => (trim_ws(&d.number), trim_ws(&d.body)),
            None => (Vec::new(), Vec::new()),
        };
        if number.len() == 0 {
            self.status_message = String::from_str("No number specified");
            return Request::Nothing;
        }
        if body.len() == 0 {
            self.status_message = String::from_str("No message text");
            return Request::Nothing;
        }
        self.new_message_dialog = None;
        Request::Send {
            number: string_of(&number),
            text: string_of(&body),
            kind: SendKind::NewMessage,
        }
    }

    fn handle_new_message_key(&mut self, key: Key) -> (r: Request)
        requires
            old(self).wf(),
            old(self).new_message_dialog is Some,
        ensures
            final(self).wf(),
            new_message_step(*old(self), *final(self), key, r),
    {
        match key.code {
            KeyCode::Esc => {
                self.new_message_dialog = None;
                return Request::Nothing;
            },
            KeyCode::Enter if key.ctrl => {
                return self.send_new_message();
            },
            _ => {},
        }
        let dialog = self.new_message_dialog.take();
        match dialog {
            Some(d) => {
                let mut d = d;
                match key.code {
                    KeyCode::Tab => {
                        d.focus = match d.focus {
                            NewMsgFocus::Number => NewMsgFocus::Body,
                            NewMsgFocus::Body => NewMsgFocus::Number,
                        };
                    },
                    _ => {
                        match d.focus {
                            NewMsgFocus::Number => {
                                let mut c = d.number_cursor;
                                handle_text_input(&mut d.number, &mut c, key, false);
                                d.number_cursor = c;
                            },
                            NewMsgFocus::Body => {
                                let mut c = d.body_cursor;
                                handle_text_input(&mut d.body, &mut c, key, true);
                                d.body_cursor = c;
                            },
                        }
                    },
                }
                self.new_message_dialog = Some(d);
                Request::Nothing
            },
            None => Request::Nothing,
        }
    }

    /// Applies a key press; returns the work with the modem it asks for.
    pub fn handle_key(&mut self, key: Key) -> (r: Request)
        requires
            old(self).wf(),
        ensures
            final(self).wf(),
            key_step(*old(self), *final(self), key, r),
    {
        if key.code == KeyCode::Char('c') && key.ctrl {
            self.running = false;
            return Request::Nothing;
        }
        if self.show_help_popup {
            self.show_help_popup = false;
            return Request::Nothing;
        }
        if self.confirm_delete {
            let r = match key.code {
                KeyCode::Char('y') | KeyCode::Char('Y') => self.do_delete_conversation(),
                _ => Request::Nothing,
            };
            self.confirm_delete = false;
            return r;
        }
        if self.confirm_delete_message {
            let r = match key.code {
                KeyCode::Char('y') | KeyCode::Char('Y') => self.do_delete_message(),
                _ => Request::Nothing,
            };
            self.confirm_delete_message = false;
            return r;
        }
        if self.modem_picker.is_some() {
            return self.handle_modem_picker_key(key);
        }
        if self.new_message_dialog.is_some() {
            return self.handle_new_message_key(key);
        }
        if self.menu_active {
            return self.handle_menu_key(key);
        }
        match key.code {
            KeyCode::F(10) => {
                self.menu_active = true;
                self.menu_selected = 0;
                self.menu_action_selected = 0;
                Request::Nothing
            },
            KeyCode::Char(c) if key.alt => {
                match hotkey_menu(c) {
                    Some(idx) => {
                        self.menu_active = true;
                        self.menu_selected = idx;
                        self.menu_action_selected = 0;
                    },
                    None => {},
                }
                Request::Nothing
            },
            KeyCode::Tab => {
                self.cycle_focus();
                Request::Nothing
            },
            KeyCode::BackTab => {
                self.cycle_focus_back();
                Request::Nothing
            },
            _ => match self.focus {
                Focus::ConversationList => self.handle_conversation_list_key(key),
                Focus::MessageView => self.handle_message_view_key(key),
                Focus::ReplyInput => self.handle_reply_input_key(key),
            },
        }
    }

    // ------------------------------------------------------------ focus

    pub fn cycle_focus(&mut self)
        ensures
            *final(self) == (App { focus: focus_next(old(self).focus, old(self).empty()), ..*old(self) }),
    {
        self.focus = match self.focus {
            Focus::ConversationList => if self.conversations.len() > 0 {
                Focus::MessageView
            } else {
                Focus::ConversationList
            },
            Focus::MessageView => Focus::ReplyInput,
            Focus::ReplyInput => Focus::ConversationList,
        };
    }

    pub fn cycle_focus_back(&mut self)
        ensures
            *final(self) == (App { focus: focus_prev(old(self).focus, old(self).empty()), ..*old(self) }),
    {
        self.focus = match self.focus {
            Focus::ConversationList => Focus::ReplyInput,
            Focus::MessageView => Focus::ConversationList,
            Focus::ReplyInput => Focus::MessageView,
        };
        if self.focus != Focus::ConversationList && self.conversations.len() == 0 {
            self.focus = Focus::ConversationList;
        }
    }

    // ------------------------------------------------------------ results of work

    /// Takes in the result of sending a message to `number`; a message that
    /// went out asks for a reload.
    pub fn sms_sent(&mut self, kind: SendKind, number: &str, result: Result<(), String>) -> (r:
        Request)
        requires
            old(self).wf(),
        ensures
            final(self).wf(),
            match result {
                Ok(()) => {
                    &&& is_refresh(r, AfterRefresh::Nothing)
                    &&& match kind {
                        SendKind::Reply => {
                            &&& final(self).status_message@ == "Message sent!"@
                            &&& final(self).input_buffer@.len() == 0
                            &&& *final(self) == (App {
                                status_message: final(self).status_message,
                                input_buffer: final(self).input_buffer,
                                input_cursor: 0,
                                ..*old(self)
                            })
                        },
                        SendKind::NewMessage => {
                            &&& final(self).status_message@ == "Message sent to "@ + number@
                                + "!"@
                            &&& *final(self) == (App {
                                status_message: final(self).status_message,
                                ..*old(self)
                            })
                        },
                    }
                },
                Err(e) => {
                    &&& r is Nothing
                    &&& final(self).status_message@ == "Send failed: "@ + e@
                    &&& *final(self) == (App { status_message: final(self).status_message, ..*old(self) })
                },
            },
    {
        match result {
            Ok(()) => {
                match kind {
                    SendKind::Reply => {
                        self.input_buffer = Vec::new();
                        self.input_cursor = 0;
                        self.status_message = String::from_str("Message sent!");
                    },
                    SendKind::NewMessage => {
                        let head = text::cat("Message sent to ", number);
                        self.status_message = text::cat(head.as_str(), "!");
                    },
                }
                Request::Refresh(AfterRefresh::Nothing)
            },
            Err(e) => {
                self.status_message = text::cat("Send failed: ", e.as_str());
                Request::Nothing
            },
        }
    }

    /// Takes in how many of the deletions of a conversation with `number`
    /// failed, and asks for a reload.
    pub fn conversation_deleted(&mut self, number: &str, errors: usize) -> (r: Request)
        requires
            old(self).wf(),
        ensures
            final(self).wf(),
            is_refresh(r, AfterRefresh::Nothing),
            final(self).status_message@ == if errors == 0 {
                "Deleted conversation with "@ + number@
            } else {
                "Deleted conversation with "@ + number@ + " ("@ + text::dec(errors as nat)
                    + " errors)"@
            },
            *final(self) == (App { status_message: final(self).status_message, ..*old(self) }),
    {
        let head = text::cat("Deleted conversation with ", number);
        if errors == 0 {
            self.status_message = head;
        } else {
            let count = string_of(&decimal_u64(errors as u64));
            let with_open = text::cat(head.as_str(), " (");
            let with_count = text::cat(with_open.as_str(), count.as_str());
            self.status_message = text::cat(with_count.as_str(), " errors)");
        }
        Request::Refresh(AfterRefresh::Nothing)
    }

    /// Takes in the result of deleting the message stored under `index`, and
    /// asks for a reload that keeps the selected message in range.
    pub fn message_deleted(&mut self, index: u32, result: Result<(), String>) -> (r: Request)
        requires
            old(self).wf(),
        ensures
            final(self).wf(),
            is_refresh(r, AfterRefresh::ClampMessage),
            final(self).status_message@ == match result {
                Ok(()) => "Deleted message "@ + text::dec(index as nat),
                Err(e) => "Failed to delete message: "@ + e@,
            },
            *final(self) == (App { status_message: final(self).status_message, ..*old(self) }),
    {
        match result {
            Ok(()) => {
                let num = string_of(&decimal_u64(index as u64));
                self.status_message = text::cat("Deleted message ", num.as_str());
            },
            Err(e) => {
                self.status_message = text::cat("Failed to delete message: ", e.as_str());
            },
        }
        Request::Refresh(AfterRefresh::ClampMessage)
    }

    /// Takes in one entry per listed modem (`None` where describing it
    /// failed) and opens the modem picker on the modems that were described,
    /// with the current modem selected where it is among them.
    pub fn open_modem_picker(&mut self, queried: Vec<Option<ModemInfo>>)
        requires
            old(self).wf(),
        ensures
            final(self).wf(),
            if queried@.len() == 0 {
                &&& final(self).status_message@ == "No modems found"@
                &&& *final(self) == (App { status_message: final(self).status_message, ..*old(self) })
            } else if described(queried@).len() == 0 {
                &&& final(self).status_message@ == "Failed to query modem info"@
                &&& *final(self) == (App { status_message: final(self).status_message, ..*old(self) })
            } else {
                &&& final(self).modem_picker matches Some(p) && p.modems@ == described(queried@)
                    && picker_choice(p.modems@, old(self).modem_index, p.selected as int)
                &&& *final(self) == (App { modem_picker: final(self).modem_picker, ..*old(self) })
            },
    {
        if queried.len() == 0 {
            self.status_message = String::from_str("No modems found");
            return;
        }
        let mut modems: Vec<ModemInfo> = Vec::new();
        let mut i: usize = 0;
        while i < queried.len()
            invariant
                i <= queried.len(),
                modems@ == described(queried@.take(i as int)),
            decreases queried.len() - i,
        {
            assert(queried@.take(i + 1).drop_last() =~= queried@.take(i as int));
            match &queried[i] {
                Some(m) => modems.push(m.clone()),
                None => {},
            }
            i = i + 1;
        }
        assert(queried@.take(queried.len() as int) =~= queried@);
        if modems.len() == 0 {
            self.status_message = String::from_str("Failed to query modem info");
            return;
        }
        let mut selected: usize = 0;
        let mut j: usize = 0;
        while j < modems.len()
            invariant_except_break
                j <= modems.len(),
                modems.len() > 0,
                selected == 0,
                forall|k: int| 0 <= k < j ==> modems@[k].index != self.modem_index,
            ensures
                picker_choice(modems@, self.modem_index, selected as int),
            decreases modems.len() - j,
        {
            if modems[j].index == self.modem_index {
                selected = j;
                break;
            }
            j = j + 1;
        }
        self.modem_picker = Some(ModemPicker { modems, selected });
    }
}

/// The modems that were described, in the order they were listed.
pub open spec fn described(q: Seq<Option<ModemInfo>>) -> Seq<ModemInfo>
    decreases q.len(),
{
    if q.len() == 0 {
        Seq::empty()
    } else {
        let before = described(q.drop_last());
        match q.last() {
            Some(m) => before.push(m),
            None => before,
        }
    }
}

/// `selected` is the first position of the modem numbered `current` in
/// `modems`, or 0 where it is not there.
pub open spec fn picker_choice(modems: Seq<ModemInfo>, current: u32, selected: int) -> bool {
    &&& 0 <= selected < modems.len()
    &&& forall|k: int| 0 <= k < selected ==> modems[k].index != current
    &&& modems[selected].index == current || (selected == 0 && forall|k: int|
        0 <= k < modems.len() ==> modems[k].index != current)
}

} // verus!
