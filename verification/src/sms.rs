//! SMS records and modem descriptions, and the reading of ModemManager's
//! `mmcli` output into them.
use vstd::prelude::*;
use crate::text::{self, split_lines, chars_of, trim_ws, contains_exec, after_last_exec, split_words, parse_u32, split_once_exec, strip_prefix_exec, string_of, cat, decimal_u64, has_prefix, trim_class, to_lowercase, same_chars, CharClass};

verus! {

/// The state ModemManager reports for a stored SMS.
#[derive(Debug)]
pub enum SmsState {
    Received,
    Sent,
    Sending,
    Unknown(String),
}

impl Clone for SmsState {
    fn clone(&self) -> (r: Self)
        ensures
            r == *self,
    {
        match self {
            SmsState::Received => SmsState::Received,
            SmsState::Sent => SmsState::Sent,
            SmsState::Sending => SmsState::Sending,
            SmsState::Unknown(s) => SmsState::Unknown(s.clone()),
        }
    }
}

/// The state named by `s`: trimmed, lower-cased, then matched.
pub open spec fn state_matches(r: SmsState, s: Seq<char>) -> bool {
    let l = text::lowercase(text::trim(s));
    match r {
        SmsState::Received => l == "received"@,
        SmsState::Sent => l == "sent"@,
        SmsState::Sending => l == "sending"@,
        SmsState::Unknown(t) => t@ == l && l != "received"@ && l != "sent"@ && l != "sending"@,
    }
}

impl SmsState {
    /// Reads a state word as `mmcli` prints it.
    pub fn parse(s: &str) -> (r: SmsState)
        ensures
            state_matches(r, s@),
    {
        let t = trim_ws(&chars_of(s));
        let ts = string_of(&t);
        SmsState::from_word(to_lowercase(ts.as_str()))
    }

    /// The state named by an already trimmed and lower-cased word.
    pub fn from_word(word: String) -> (r: SmsState)
        ensures
            word@ == "received"@ ==> r is Received,
            word@ == "sent"@ ==> r is Sent,
            word@ == "sending"@ ==> r is Sending,
            word@ != "received"@ && word@ != "sent"@ && word@ != "sending"@ ==> (r matches SmsState::Unknown(t) && t@ == word@),
    {
        proof {
            reveal_strlit("received");
            reveal_strlit("sent");
            reveal_strlit("sending");
            assert("sent"@.len() != "received"@.len());
            assert("sending"@.len() != "received"@.len());
            assert("sending"@.len() != "sent"@.len());
        }
        let lc = chars_of(word.as_str());
        if same_chars(&lc, &chars_of("received")) {
            SmsState::Received
        } else if same_chars(&lc, &chars_of("sent")) {
            SmsState::Sent
        } else if same_chars(&lc, &chars_of("sending")) {
            SmsState::Sending
        } else {
            SmsState::Unknown(word)
        }
    }

    pub open spec fn outgoing(self) -> bool {
        self is Sent || self is Sending
    }

    /// Whether the message was written on this side.
    pub fn is_outgoing(&self) -> (r: bool)
        ensures
            r == self.outgoing(),
    {
        match self {
            SmsState::Sent | SmsState::Sending => true,
            _ => false,
        }
    }
}

/// One SMS as ModemManager stores it.
#[derive(Debug)]
pub struct SmsMessage {
    pub index: u32,
    pub number: String,
    pub text: String,
    pub timestamp: String,
    pub state: SmsState,
}

impl Clone for SmsMessage {
    fn clone(&self) -> (r: Self)
        ensures
            r == *self,
    {
        SmsMessage {
            index: self.index,
            number: self.number.clone(),
            text: self.text.clone(),
            timestamp: self.timestamp.clone(),
            state: self.state.clone(),
        }
    }
}

/// A modem's description.
#[derive(Debug)]
pub struct ModemInfo {
    pub index: u32,
    pub manufacturer: String,
    pub model: String,
    pub own_number: String,
    pub state: String,
}

impl Clone for ModemInfo {
    fn clone(&self) -> (r: Self)
        ensures
            r == *self,
    {
        ModemInfo {
            index: self.index,
            manufacturer: self.manufacturer.clone(),
            model: self.model.clone(),
            own_number: self.own_number.clone(),
            state: self.state.clone(),
        }
    }
}

pub open spec fn u32_of(v: Option<nat>) -> Option<u32> {
    match v {
        Some(n) => Some(n as u32),
        None => None,
    }
}

// ---------------------------------------------------------------- mmcli -L

/// The modem index a line of `mmcli -L` names, if any.
pub open spec fn modem_line_index(line: Seq<char>) -> Option<u32> {
    let t = text::trim(line);
    if text::has_infix(t, "/org/freedesktop/ModemManager1/Modem/"@) {
        let w = text::words(text::after_last(t, "/"@));
        if w.len() > 0 {
            u32_of(text::parse_unsigned(w[0], u32::MAX as nat))
        } else {
            None
        }
    } else {
        None
    }
}

/// The modem indices listed by `mmcli -L`, in order.
pub open spec fn modem_list(out: Seq<char>) -> Seq<u32> {
    text::lines(out).filter_map(|l: Seq<char>| modem_line_index(l))
}

fn modem_line_index_exec(line: &Vec<char>) -> (r: Option<u32>)
    ensures
        r == modem_line_index(line@),
{
    let t = trim_ws(line);
    if contains_exec(&t, &chars_of("/org/freedesktop/ModemManager1/Modem/")) {
        let tail = after_last_exec(&t, &chars_of("/"));
        let w = split_words(&tail);
        if w.len() > 0 {
            assert(text::views(w@)[0] == w@[0]@);
            parse_u32(&w[0])
        } else {
            None
        }
    } else {
        None
    }
}

/// The modem indices in the output of `mmcli -L`.
pub fn parse_modem_list(out: &str) -> (r: Vec<u32>)
    ensures
        r@ == modem_list(out@),
{
    let ls = split_lines(&chars_of(out));
    let ghost f = |l: Seq<char>| modem_line_index(l);
    let mut r: Vec<u32> = Vec::new();
    let mut i: usize = 0;
    while i < ls.len()
        invariant
            i <= ls.len(),
            f == (|l: Seq<char>| modem_line_index(l)),
            r@ == text::views(ls@).take(i as int).filter_map(f),
        decreases ls.len() - i,
    {
        assert(text::views(ls@).take(i + 1).drop_last() =~= text::views(ls@).take(i as int));
        assert(text::views(ls@).take(i + 1).last() == ls@[i as int]@);
        match modem_line_index_exec(&ls[i]) {
            Some(v) => {
                r.push(v);
            },
            None => {},
        }
        assert(r@ =~= text::views(ls@).take(i + 1).filter_map(f));
        i = i + 1;
    }
    assert(text::views(ls@).take(ls.len() as int) =~= text::views(ls@));
    r
}

/// What a run of `mmcli -L` yields: the modem list, or the failure text.
pub fn interpret_modem_list(success: bool, stdout: &str, stderr: &str) -> (r: Result<
    Vec<u32>,
    String,
>)
    ensures
        success ==> (r matches Ok(v) && v@ == modem_list(stdout@)),
        !success ==> (r matches Err(e) && e@ == "mmcli -L failed: "@ + stderr@),
{
    if !success {
        return Err(cat("mmcli -L failed: ", stderr));
    }
    Ok(parse_modem_list(stdout))
}

// ---------------------------------------------------------------- mmcli -m N

/// The part of a `key | value` line after the first `|`, trimmed.
pub open spec fn value_part(line: Seq<char>) -> Seq<char> {
    match text::split_once(line, '|') {
        Some(p) => text::trim(p.1),
        None => text::trim(line),
    }
}

fn value_part_exec(line: &Vec<char>) -> (r: Vec<char>)
    ensures
        r@ == value_part(line@),
{
    match split_once_exec(line, '|') {
        Some(p) => trim_ws(&p.1),
        None => trim_ws(line),
    }
}

/// Fields of a modem description: manufacturer, model, own number, state.
pub type ModemFields = (Seq<char>, Seq<char>, Seq<char>, Seq<char>);

pub open spec fn modem_step(st: ModemFields, line: Seq<char>) -> ModemFields {
    let v = value_part(line);
    if let Some(x) = text::strip_prefix(v, "manufacturer:"@) {
        (text::trim(x), st.1, st.2, st.3)
    } else if let Some(x) = text::strip_prefix(v, "model:"@) {
        (st.0, text::trim(x), st.2, st.3)
    } else if let Some(x) = text::strip_prefix(v, "own:"@) {
        (st.0, st.1, text::trim(x), st.3)
    } else if let Some(x) = text::strip_prefix(v, "state:"@) {
        if st.3.len() == 0 {
            (st.0, st.1, st.2, text::trim(x))
        } else {
            st
        }
    } else {
        st
    }
}

pub open spec fn modem_fields(ls: Seq<Seq<char>>) -> ModemFields
    decreases ls.len(),
{
    if ls.len() == 0 {
        (seq![], seq![], seq![], seq![])
    } else {
        modem_step(modem_fields(ls.drop_last()), ls.last())
    }
}

pub open spec fn modem_info_matches(m: ModemInfo, index: u32, out: Seq<char>) -> bool {
    let f = modem_fields(text::lines(out));
    &&& m.index == index
    &&& m.manufacturer@ == f.0
    &&& m.model@ == f.1
    &&& m.own_number@ == f.2
    &&& m.state@ == f.3
}

/// The description of modem `index` in the output of `mmcli -m index`.
pub fn parse_modem_info(index: u32, out: &str) -> (r: ModemInfo)
    ensures
        modem_info_matches(r, index, out@),
{
    let ls = split_lines(&chars_of(out));
    let mut manufacturer: Vec<char> = Vec::new();
    let mut model: Vec<char> = Vec::new();
    let mut own: Vec<char> = Vec::new();
    let mut state: Vec<char> = Vec::new();
    let p_man = chars_of("manufacturer:");
    let p_model = chars_of("model:");
    let p_own = chars_of("own:");
    let p_state = chars_of("state:");
    let mut i: usize = 0;
    while i < ls.len()
        invariant
            i <= ls.len(),
            p_man@ == "manufacturer:"@,
            p_model@ == "model:"@,
            p_own@ == "own:"@,
            p_state@ == "state:"@,
            (manufacturer@, model@, own@, state@) == modem_fields(text::views(ls@).take(i as int)),
        decreases ls.len() - i,
    {
        assert(text::views(ls@).take(i + 1).drop_last() =~= text::views(ls@).take(i as int));
        assert(text::views(ls@).take(i + 1).last() == ls@[i as int]@);
        let v = value_part_exec(&ls[i]);
        if let Some(x) = strip_prefix_exec(&v, &p_man) {
            manufacturer = trim_ws(&x);
        } else if let Some(x) = strip_prefix_exec(&v, &p_model) {
            model = trim_ws(&x);
        } else if let Some(x) = strip_prefix_exec(&v, &p_own) {
            own = trim_ws(&x);
        } else if let Some(x) = strip_prefix_exec(&v, &p_state) {
            if state.len() == 0 {
                state = trim_ws(&x);
            }
        }
        i = i + 1;
    }
    assert(text::views(ls@).take(ls.len() as int) =~= text::views(ls@));
    ModemInfo {
        index,
        manufacturer: string_of(&manufacturer),
        model: string_of(&model),
        own_number: string_of(&own),
        state: string_of(&state),
    }
}

/// What a run of `mmcli -m index` yields: the description, or the failure text.
pub fn interpret_modem_info(index: u32, success: bool, stdout: &str, stderr: &str) -> (r: Result<
    ModemInfo,
    String,
>)
    ensures
        success ==> (r matches Ok(m) && modem_info_matches(m, index, stdout@)),
        !success ==> (r matches Err(e) && e@ == "mmcli -m "@ + text::dec(index as nat) + " failed: "@
            + stderr@),
{
    if !success {
        let mut e = String::from_str("mmcli -m ");
        let n = string_of(&decimal_u64(index as u64));
        e.append(n.as_str());
        e.append(" failed: ");
        e.append(stderr);
        return Err(e);
    }
    Ok(parse_modem_info(index, stdout))
}

// ---------------------------------------------------------------- --messaging-list-sms

/// The SMS index and state a line of the SMS list names, if any.
pub open spec fn sms_entry(line: Seq<char>) -> Option<(u32, Seq<char>)> {
    let t = text::trim(line);
    if "/org/freedesktop/ModemManager1/SMS/"@.is_prefix_of(t) {
        let parts = text::words(t);
        if parts.len() == 0 {
            None
        } else {
            match text::parse_unsigned(text::after_last(parts[0], "/"@), u32::MAX as nat) {
                Some(n) => Some(
                    (
                        n as u32,
                        if parts.len() > 1 {
                            text::trim_by(parts[1], CharClass::Parens)
                        } else {
                            "unknown"@
                        },
                    ),
                ),
                None => None,
            }
        }
    } else {
        None
    }
}

pub open spec fn sms_list(out: Seq<char>) -> Seq<(u32, Seq<char>)> {
    text::lines(out).filter_map(|l: Seq<char>| sms_entry(l))
}

pub open spec fn entry_views(v: Seq<(u32, String)>) -> Seq<(u32, Seq<char>)> {
    v.map_values(|e: (u32, String)| (e.0, e.1@))
}

fn sms_entry_exec(line: &Vec<char>) -> (r: Option<(u32, String)>)
    ensures
        match r {
            Some(e) => sms_entry(line@) == Some((e.0, e.1@)),
            None => sms_entry(line@) is None,
        },
{
    let t = trim_ws(line);
    if !has_prefix(&t, &chars_of("/org/freedesktop/ModemManager1/SMS/")) {
        return None;
    }
    let parts = split_words(&t);
    if parts.len() == 0 {
        return None;
    }
    assert(text::views(parts@)[0] == parts@[0]@);
    let tail = after_last_exec(&parts[0], &chars_of("/"));
    match parse_u32(&tail) {
        Some(n) => {
            let st = if parts.len() > 1 {
                assert(text::views(parts@)[1] == parts@[1]@);
                string_of(&trim_class(&parts[1], CharClass::Parens))
            } else {
                String::from_str("unknown")
            };
            Some((n, st))
        },
        None => None,
    }
}

/// The SMS indices and states in the output of `mmcli -m N --messaging-list-sms`.
pub fn parse_sms_list(out: &str) -> (r: Vec<(u32, String)>)
    ensures
        entry_views(r@) == sms_list(out@),
{
    let ls = split_lines(&chars_of(out));
    let ghost f = |l: Seq<char>| sms_entry(l);
    let mut r: Vec<(u32, String)> = Vec::new();
    let mut i: usize = 0;
    while i < ls.len()
        invariant
            i <= ls.len(),
            f == (|l: Seq<char>| sms_entry(l)),
            entry_views(r@) == text::views(ls@).take(i as int).filter_map(f),
        decreases ls.len() - i,
    {
        assert(text::views(ls@).take(i + 1).drop_last() =~= text::views(ls@).take(i as int));
        assert(text::views(ls@).take(i + 1).last() == ls@[i as int]@);
        let ghost before = r@;
        match sms_entry_exec(&ls[i]) {
            Some(e) => {
                r.push(e);
                assert(entry_views(r@) =~= entry_views(before).push((e.0, e.1@)));
            },
            None => {},
        }
        assert(entry_views(r@) =~= text::views(ls@).take(i + 1).filter_map(f));
        i = i + 1;
    }
    assert(text::views(ls@).take(ls.len() as int) =~= text::views(ls@));
    r
}

/// What listing the stored SMS yields: the entries, or the failure text.
/// A run that fails because there are no messages yields an empty list.
pub fn interpret_sms_list(success: bool, stdout: &str, stderr: &str) -> (r: Result<
    Vec<(u32, String)>,
    String,
>)
    ensures
        success ==> (r matches Ok(v) && entry_views(v@) == sms_list(stdout@)),
        !success && text::has_infix(stderr@, "No sms messages were found"@) ==> (r matches Ok(v)
            && v@.len() == 0),
        !success && !text::has_infix(stderr@, "No sms messages were found"@) ==> (r matches Err(e)
            && e@ == "mmcli list SMS failed: "@ + stderr@),
{
    if !success {
        if contains_exec(&chars_of(stderr), &chars_of("No sms messages were found")) {
            return Ok(Vec::new());
        }
        return Err(cat("mmcli list SMS failed: ", stderr));
    }
    Ok(parse_sms_list(stdout))
}

// ---------------------------------------------------------------- mmcli -s N

/// Fields of an SMS description: number, text, timestamp, state.
pub type SmsFields = (Seq<char>, Seq<char>, Seq<char>, Seq<char>);

pub open spec fn quoted_value(x: Seq<char>) -> Seq<char> {
    text::trim_by(text::trim(x), CharClass::Is('\''))
}

pub open spec fn sms_step(st: SmsFields, line: Seq<char>) -> SmsFields {
    let v = value_part(line);
    if let Some(x) = text::strip_prefix(v, "number:"@) {
        (quoted_value(x), st.1, st.2, st.3)
    } else if let Some(x) = text::strip_prefix(v, "text:"@) {
        (st.0, quoted_value(x), st.2, st.3)
    } else if let Some(x) = text::strip_prefix(v, "timestamp:"@) {
        (st.0, st.1, quoted_value(x), st.3)
    } else if let Some(x) = text::strip_prefix(v, "state:"@) {
        (st.0, st.1, st.2, text::trim(x))
    } else {
        st
    }
}

pub open spec fn sms_fields(ls: Seq<Seq<char>>) -> SmsFields
    decreases ls.len(),
{
    if ls.len() == 0 {
        (seq![], seq![], seq![], seq![])
    } else {
        sms_step(sms_fields(ls.drop_last()), ls.last())
    }
}

pub open spec fn sms_matches(m: SmsMessage, index: u32, out: Seq<char>) -> bool {
    let f = sms_fields(text::lines(out));
    &&& m.index == index
    &&& m.number@ == f.0
    &&& m.text@ == f.1
    &&& m.timestamp@ == f.2
    &&& state_matches(m.state, f.3)
}

proof fn lemma_trim_start_skip(s: Seq<char>, k: CharClass) -> (i: int)
    ensures
        0 <= i <= s.len(),
        text::trim_start_by(s, k) == s.skip(i),
        i < s.len() ==> !k.holds(s[i]),
    decreases s.len(),
{
    if s.len() > 0 && k.holds(s[0]) {
        let j = lemma_trim_start_skip(s.drop_first(), k);
        assert(s.drop_first().skip(j) =~= s.skip(j + 1));
        if j < s.drop_first().len() {
            assert(s.drop_first()[j] == s[j + 1]);
        }
        j + 1
    } else {
        assert(s.skip(0) =~= s);
        0
    }
}

proof fn lemma_trim_end_take(s: Seq<char>, k: CharClass) -> (j: int)
    ensures
        0 <= j <= s.len(),
        text::trim_end_by(s, k) == s.take(j),
        j > 0 ==> !k.holds(s[j - 1]),
    decreases s.len(),
{
    if s.len() > 0 && k.holds(s.last()) {
        let j = lemma_trim_end_take(s.drop_last(), k);
        assert(s.drop_last().take(j) =~= s.take(j));
        if j > 0 {
            assert(s.drop_last()[j - 1] == s[j - 1]);
        }
        j
    } else {
        assert(s.take(s.len() as int) =~= s);
        s.len() as int
    }
}

/// Trimming a class leaves a sequence that neither starts nor ends with a
/// character of that class.
proof fn lemma_trim_by_ends(s: Seq<char>, k: CharClass)
    ensures
        text::trim_by(s, k).len() > 0 ==> !k.holds(text::trim_by(s, k)[0]) && !k.holds(
            text::trim_by(s, k).last(),
        ),
{
    let i = lemma_trim_start_skip(s, k);
    let u = s.skip(i);
    let j = lemma_trim_end_take(u, k);
    if j > 0 {
        assert(text::trim_by(s, k)[0] == u[0]);
        assert(u[0] == s[i]);
        assert(text::trim_by(s, k).last() == u[j - 1]);
    }
}

/// Removing the surrounding white space and then the surrounding single
/// quotes leaves a value that neither starts nor ends with a quote, and
/// turns `'X'` (X free of quotes) into X.
proof fn lemma_unquote(x: Seq<char>, inner: Seq<char>)
    ensures
        quoted_value(x).len() > 0 ==> quoted_value(x)[0] != '\'' && quoted_value(x).last() != '\'',
        text::trim(x) == seq!['\''] + inner + seq!['\''] && (forall|i: int|
            0 <= i < inner.len() ==> inner[i] != '\'') ==> quoted_value(x) == inner,
{
    let q = CharClass::Is('\'');
    lemma_trim_by_ends(text::trim(x), q);
    if text::trim(x) == seq!['\''] + inner + seq!['\''] && (forall|i: int|
        0 <= i < inner.len() ==> inner[i] != '\'') {
        let w = seq!['\''] + inner + seq!['\''];
        assert(w.drop_first() =~= inner + seq!['\'']);
        assert(text::trim_start_by(w, q) == text::trim_start_by(inner + seq!['\''], q));
        if inner.len() == 0 {
            assert(inner + seq!['\''] =~= seq!['\'']);
            assert(seq!['\''].drop_first() =~= Seq::<char>::empty());
            assert(seq!['\''][0] == '\'');
            assert(text::trim_start_by(Seq::<char>::empty(), q) == Seq::<char>::empty());
            assert(text::trim_start_by(seq!['\''], q) == Seq::<char>::empty());
            assert(inner =~= Seq::<char>::empty());
        } else {
            assert((inner + seq!['\''])[0] == inner[0]);
            assert(text::trim_start_by(inner + seq!['\''], q) == inner + seq!['\'']);
            assert((inner + seq!['\'']).drop_last() =~= inner);
            assert(inner.last() == inner[inner.len() - 1]);
            assert(text::trim_end_by(inner, q) == inner);
        }
    }
}

/// The first character of `v`, where it starts with `p`, is that of `p`.
proof fn lemma_prefix_first(v: Seq<char>, p: Seq<char>)
    requires
        p.len() > 0,
        text::strip_prefix(v, p) is Some,
    ensures
        v[0] == p[0],
{
    assert(v.subrange(0, p.len() as int)[0] == v[0]);
}

/// The number, text and timestamp of an SMS are the values after `number:`,
/// `text:` and `timestamp:` with the surrounding white space and then the
/// surrounding single quotes removed: such a field never starts or ends
/// with a quote, a value written `'X'` (X free of quotes) reads as X, and a
/// line sets only its own field.
pub proof fn law_sms_fields_unquoted(st: SmsFields, line: Seq<char>, inner: Seq<char>)
    ensures
        text::strip_prefix(value_part(line), "number:"@) matches Some(x) ==> {
            &&& sms_step(st, line).1 == st.1 && sms_step(st, line).2 == st.2 && sms_step(st, line).3 == st.3
            &&& sms_step(st, line).0.len() > 0 ==> sms_step(st, line).0[0] != '\''
                && sms_step(st, line).0.last() != '\''
            &&& text::trim(x) == seq!['\''] + inner + seq!['\''] && (forall|i: int|
                0 <= i < inner.len() ==> inner[i] != '\'') ==> sms_step(st, line).0 == inner
        },
        text::strip_prefix(value_part(line), "text:"@) matches Some(x) ==> {
            &&& sms_step(st, line).0 == st.0 && sms_step(st, line).2 == st.2 && sms_step(st, line).3 == st.3
            &&& sms_step(st, line).1.len() > 0 ==> sms_step(st, line).1[0] != '\''
                && sms_step(st, line).1.last() != '\''
            &&& text::trim(x) == seq!['\''] + inner + seq!['\''] && (forall|i: int|
                0 <= i < inner.len() ==> inner[i] != '\'') ==> sms_step(st, line).1 == inner
        },
        text::strip_prefix(value_part(line), "timestamp:"@) matches Some(x) ==> {
            &&& sms_step(st, line).0 == st.0 && sms_step(st, line).1 == st.1 && sms_step(st, line).3 == st.3
            &&& sms_step(st, line).2.len() > 0 ==> sms_step(st, line).2[0] != '\''
                && sms_step(st, line).2.last() != '\''
            &&& text::trim(x) == seq!['\''] + inner + seq!['\''] && (forall|i: int|
                0 <= i < inner.len() ==> inner[i] != '\'') ==> sms_step(st, line).2 == inner
        },
{
    reveal_strlit("text:");
    reveal_strlit("number:");
    reveal_strlit("timestamp:");
    let v = value_part(line);
    if let Some(x) = text::strip_prefix(v, "number:"@) {
        lemma_unquote(x, inner);
    }
    if let Some(x) = text::strip_prefix(v, "text:"@) {
        lemma_prefix_first(v, "text:"@);
        if text::strip_prefix(v, "number:"@) is Some {
            lemma_prefix_first(v, "number:"@);
        }
        lemma_unquote(x, inner);
    }
    if let Some(x) = text::strip_prefix(v, "timestamp:"@) {
        lemma_prefix_first(v, "timestamp:"@);
        if text::strip_prefix(v, "number:"@) is Some {
            lemma_prefix_first(v, "number:"@);
        }
        if text::strip_prefix(v, "text:"@) is Some {
            lemma_prefix_first(v, "text:"@);
            assert(v[1] == 'i') by {
                assert(v.subrange(0, 10)[1] == v[1]);
            }
            assert(v[1] == 'e') by {
                assert(v.subrange(0, 5)[1] == v[1]);
            }
        }
        lemma_unquote(x, inner);
    }
}

fn quoted_value_exec(x: &Vec<char>) -> (r: Vec<char>)
    ensures
        r@ == quoted_value(x@),
{
    trim_class(&trim_ws(x), CharClass::Is('\''))
}

/// The SMS `index` as described in the output of `mmcli -s index`.
pub fn parse_sms(index: u32, out: &str) -> (r: SmsMessage)
    ensures
        sms_matches(r, index, out@),
{
    let ls = split_lines(&chars_of(out));
    let mut number: Vec<char> = Vec::new();
    let mut text: Vec<char> = Vec::new();
    let mut timestamp: Vec<char> = Vec::new();
    let mut state: Vec<char> = Vec::new();
    let p_number = chars_of("number:");
    let p_text = chars_of("text:");
    let p_ts = chars_of("timestamp:");
    let p_state = chars_of("state:");
    let mut i: usize = 0;
    while i < ls.len()
        invariant
            i <= ls.len(),
            p_number@ == "number:"@,
            p_text@ == "text:"@,
            p_ts@ == "timestamp:"@,
            p_state@ == "state:"@,
            (number@, text@, timestamp@, state@) == sms_fields(text::views(ls@).take(i as int)),
        decreases ls.len() - i,
    {
        assert(text::views(ls@).take(i + 1).drop_last() =~= text::views(ls@).take(i as int));
        assert(text::views(ls@).take(i + 1).last() == ls@[i as int]@);
        let v = value_part_exec(&ls[i]);
        if let Some(x) = strip_prefix_exec(&v, &p_number) {
            number = quoted_value_exec(&x);
        } else if let Some(x) = strip_prefix_exec(&v, &p_text) {
            text = quoted_value_exec(&x);
        } else if let Some(x) = strip_prefix_exec(&v, &p_ts) {
            timestamp = quoted_value_exec(&x);
        } else if let Some(x) = strip_prefix_exec(&v, &p_state) {
            state = trim_ws(&x);
        }
        i = i + 1;
    }
    assert(text::views(ls@).take(ls.len() as int) =~= text::views(ls@));
    let st = string_of(&state);
    SmsMessage {
        index,
        number: string_of(&number),
        text: string_of(&text),
        timestamp: string_of(&timestamp),
        state: SmsState::parse(st.as_str()),
    }
}

/// What a run of `mmcli -s index` yields: the message, or the failure text.
pub fn interpret_sms(index: u32, success: bool, stdout: &str, stderr: &str) -> (r: Result<
    SmsMessage,
    String,
>)
    ensures
        success ==> (r matches Ok(m) && sms_matches(m, index, stdout@)),
        !success ==> (r matches Err(e) && e@ == "mmcli -s "@ + text::dec(index as nat) + " failed: "@
            + stderr@),
{
    if !success {
        let mut e = String::from_str("mmcli -s ");
        let n = string_of(&decimal_u64(index as u64));
        e.append(n.as_str());
        e.append(" failed: ");
        e.append(stderr);
        return Err(e);
    }
    Ok(parse_sms(index, stdout))
}

// ---------------------------------------------------------------- creating, sending, deleting

/// The `mmcli` argument that creates an SMS to `number` with `text`.
pub fn create_sms_argument(number: &str, text: &str) -> (r: String)
    ensures
        r@ == "--messaging-create-sms=number='"@ + number@ + "',text='"@ + text@ + "'"@,
{
    let mut r = String::from_str("--messaging-create-sms=number='");
    r.append(number);
    r.append("',text='");
    r.append(text);
    r.append("'");
    r
}

/// The index a line of the create output names, if any.
pub open spec fn created_line_index(line: Seq<char>) -> Option<u32> {
    u32_of(
        text::parse_unsigned(text::trim(text::after_last(line, "/org/freedesktop/ModemManager1/SMS/"@)), u32::MAX as nat),
    )
}

/// The first index that a line names.
pub open spec fn first_created_index(ls: Seq<Seq<char>>) -> Option<u32>
    decreases ls.len(),
{
    if ls.len() == 0 {
        None
    } else {
        match created_line_index(ls[0]) {
            Some(v) => Some(v),
            None => first_created_index(ls.drop_first()),
        }
    }
}

/// The index of the SMS that `--messaging-create-sms` reports having made.
pub fn parse_created_index(out: &str) -> (r: Option<u32>)
    ensures
        r == first_created_index(text::lines(out@)),
{
    let ls = split_lines(&chars_of(out));
    let pat = chars_of("/org/freedesktop/ModemManager1/SMS/");
    let mut i: usize = 0;
    assert(text::views(ls@).skip(0) =~= text::views(ls@));
    while i < ls.len()
        invariant
            i <= ls.len(),
            pat@ == "/org/freedesktop/ModemManager1/SMS/"@,
            text::views(ls@) == text::lines(out@),
            first_created_index(text::views(ls@)) == first_created_index(text::views(ls@).skip(i as int)),
        decreases ls.len() - i,
    {
        assert(text::views(ls@).skip(i as int)[0] == ls@[i as int]@);
        assert(text::views(ls@).skip(i as int).drop_first() =~= text::views(ls@).skip(i + 1));
        let tail = after_last_exec(&ls[i], &pat);
        let v = parse_u32(&trim_ws(&tail));
        assert(v == created_line_index(ls@[i as int]@));
        if v.is_some() {
            return v;
        }
        i = i + 1;
    }
    assert(text::views(ls@).skip(i as int) =~= Seq::<Seq<char>>::empty());
    None
}

/// What creating an SMS yields: its index, or the failure text.
pub fn interpret_created(success: bool, stdout: &str, stderr: &str) -> (r: Result<u32, String>)
    ensures
        !success ==> (r matches Err(e) && e@ == "Failed to create SMS: "@ + stderr@),
        success && first_created_index(text::lines(stdout@)) is None ==> (r matches Err(e) && e@
            == "Could not parse SMS index from create output"@),
        success && first_created_index(text::lines(stdout@)) is Some ==> r == Ok::<u32, String>(
            first_created_index(text::lines(stdout@))->0,
        ),
{
    if !success {
        return Err(cat("Failed to create SMS: ", stderr));
    }
    match parse_created_index(stdout) {
        Some(i) => Ok(i),
        None => Err(String::from_str("Could not parse SMS index from create output")),
    }
}

/// What sending a created SMS yields.
pub fn interpret_sent(success: bool, stderr: &str) -> (r: Result<(), String>)
    ensures
        success ==> r is Ok,
        !success ==> (r matches Err(e) && e@ == "Failed to send SMS: "@ + stderr@),
{
    if !success {
        return Err(cat("Failed to send SMS: ", stderr));
    }
    Ok(())
}

/// The D-Bus object path of SMS `index`.
pub fn sms_object_path(index: u32) -> (r: String)
    ensures
        r@ == "/org/freedesktop/ModemManager1/SMS/"@ + text::dec(index as nat),
{
    let n = string_of(&decimal_u64(index as u64));
    cat("/org/freedesktop/ModemManager1/SMS/", n.as_str())
}

/// What deleting SMS `index` yields, given whether sudo may be used and how
/// the deletion ran.
pub fn interpret_deleted(index: u32, has_sudo: bool, success: bool, stderr: &str) -> (r: Result<
    (),
    String,
>)
    ensures
        !has_sudo ==> (r matches Err(e) && e@
            == "sudo privileges required to delete SMS. Run 'sudo -v' first or configure NOPASSWD for mmcli."@),
        has_sudo && success ==> r is Ok,
        has_sudo && !success ==> (r matches Err(e) && e@ == "Failed to delete SMS "@ + text::dec(
            index as nat,
        ) + ": "@ + text::trim(stderr@)),
{
    if !has_sudo {
        return Err(
            String::from_str(
                "sudo privileges required to delete SMS. Run 'sudo -v' first or configure NOPASSWD for mmcli.",
            ),
        );
    }
    if !success {
        let mut e = String::from_str("Failed to delete SMS ");
        let n = string_of(&decimal_u64(index as u64));
        e.append(n.as_str());
        e.append(": ");
        let t = string_of(&trim_ws(&chars_of(stderr)));
        e.append(t.as_str());
        return Err(e);
    }
    Ok(())
}

} // verus!
