//! What the terminal screen of the SMS client shows, computed from its
//! state: the text of each line and the numbers that place things. Putting
//! them on the terminal is left to the caller.
use vstd::prelude::*;
use crate::app::{self, App, Focus, MenuId};
use crate::conversations::Conversation;
use crate::sms::{ModemInfo, SmsMessage};
use crate::text::{self, after_last_exec, chars_of, decimal_u64, slice_of, split_lines, string_of, trim_ws};

verus! {

// ---------------------------------------------------------------- truncation

/// `s` cut to at most `max` characters, ending in `...` where it was cut and
/// there is room for the dots.
pub open spec fn truncated(s: Seq<char>, max: nat) -> Seq<char> {
    if s.len() <= max {
        s
    } else if max > 3 {
        s.take(max - 3) + seq!['.', '.', '.']
    } else {
        s.take(max as int)
    }
}

/// `s` cut to at most `max_len` characters, ending in `...` where it was cut
/// and there is room for the dots.
pub fn truncate_str(s: &str, max_len: usize) -> (r: String)
    ensures
        r@ == truncated(s@, max_len as nat),
{
    let cs = chars_of(s);
    if cs.len() <= max_len {
        String::from_str(s)
    } else if max_len > 3 {
        let mut head = slice_of(&cs, 0, max_len - 3);
        head.push('.');
        head.push('.');
        head.push('.');
        assert(head@ =~= s@.take(max_len - 3) + seq!['.', '.', '.']);
        string_of(&head)
    } else {
        let head = slice_of(&cs, 0, max_len);
        assert(head@ =~= s@.take(max_len as int));
        string_of(&head)
    }
}

/// A cut string never exceeds its bound, and it begins with the string it
/// was cut from (all of it when nothing was cut; otherwise all but the
/// dots).
pub proof fn law_truncated_fits(s: Seq<char>, max: nat)
    ensures
        truncated(s, max).len() <= max,
        s.len() <= max ==> truncated(s, max) == s,
        s.len() > max && max > 3 ==> truncated(s, max).take(max - 3) == s.take(max - 3),
        s.len() > max && max <= 3 ==> truncated(s, max) == s.take(max as int),
{
    if s.len() > max && max > 3 {
        assert(truncated(s, max).take(max - 3) =~= s.take(max - 3));
    }
}

// ---------------------------------------------------------------- SMS length

/// The characters of the GSM 03.38 7-bit default alphabet, which take one
/// unit each.
pub open spec fn gsm7_basic(c: char) -> bool {
    let u = c as u32;
    ||| (0x20 <= u && u <= 0x5a)
    ||| u == 0x5f
    ||| (0x61 <= u && u <= 0x7a)
    ||| u == 0x0a || u == 0x0d || u == 0x1b
    ||| u == 0xa1 || u == 0xa3 || u == 0xa4 || u == 0xa5 || u == 0xa7 || u == 0xbf
    ||| u == 0xc4 || u == 0xc5 || u == 0xc6 || u == 0xc7 || u == 0xc9 || u == 0xd1 || u == 0xd6
    ||| u == 0xd8 || u == 0xdc || u == 0xdf
    ||| u == 0xe0 || u == 0xe4 || u == 0xe5 || u == 0xe6 || u == 0xe8 || u == 0xe9 || u == 0xec
    ||| u == 0xf1 || u == 0xf2 || u == 0xf6 || u == 0xf8 || u == 0xf9 || u == 0xfc
    ||| u == 0x393 || u == 0x394 || u == 0x398 || u == 0x39b || u == 0x39e
    ||| u == 0x3a0 || u == 0x3a3 || u == 0x3a6 || u == 0x3a8 || u == 0x3a9
}

/// The characters of the GSM 7-bit extension table, which take two units.
pub open spec fn gsm7_ext(c: char) -> bool {
    let u = c as u32;
    ||| u == 0x5b || u == 0x5c || u == 0x5d || u == 0x5e
    ||| u == 0x7b || u == 0x7c || u == 0x7d || u == 0x7e
    ||| u == 0x20ac
}

pub open spec fn gsm7_char(c: char) -> bool {
    gsm7_basic(c) || gsm7_ext(c)
}

/// Every character of `s` can be sent in the GSM 7-bit alphabet.
pub open spec fn all_gsm7(s: Seq<char>) -> bool {
    forall|i: int| 0 <= i < s.len() ==> #[trigger] gsm7_char(s[i])
}

/// Units that `s` takes in the GSM 7-bit alphabet.
pub open spec fn gsm7_units(s: Seq<char>) -> nat
    decreases s.len(),
{
    if s.len() == 0 {
        0
    } else {
        gsm7_units(s.drop_last()) + if gsm7_ext(s.last()) {
            2nat
        } else {
            1nat
        }
    }
}

fn gsm7_basic_exec(c: char) -> (r: bool)
    ensures
        r == gsm7_basic(c),
{
    let u = c as u32;
    (0x20 <= u && u <= 0x5a) || u == 0x5f || (0x61 <= u && u <= 0x7a) || u == 0x0a || u == 0x0d
        || u == 0x1b || u == 0xa1 || u == 0xa3 || u == 0xa4 || u == 0xa5 || u == 0xa7 || u == 0xbf
        || u == 0xc4 || u == 0xc5 || u == 0xc6 || u == 0xc7 || u == 0xc9 || u == 0xd1 || u == 0xd6
        || u == 0xd8 || u == 0xdc || u == 0xdf || u == 0xe0 || u == 0xe4 || u == 0xe5 || u == 0xe6
        || u == 0xe8 || u == 0xe9 || u == 0xec || u == 0xf1 || u == 0xf2
        || u == 0xf6 || u == 0xf8 || u == 0xf9 || u == 0xfc || u == 0x393 || u == 0x394 || u
        == 0x398 || u == 0x39b || u == 0x39e || u == 0x3a0 || u == 0x3a3 || u == 0x3a6 || u
        == 0x3a8 || u == 0x3a9
}

fn gsm7_ext_exec(c: char) -> (r: bool)
    ensures
        r == gsm7_ext(c),
{
    let u = c as u32;
    u == 0x5b || u == 0x5c || u == 0x5d || u == 0x5e || u == 0x7b || u == 0x7c || u == 0x7d || u
        == 0x7e || u == 0x20ac
}

/// Whether every character of `text` is in the GSM 7-bit alphabet, its
/// extension table included.
pub fn is_gsm7(text: &str) -> (r: bool)
    ensures
        r == all_gsm7(text@),
{
    let cs = chars_of(text);
    is_gsm7_chars(&cs)
}

fn is_gsm7_chars(cs: &Vec<char>) -> (r: bool)
    ensures
        r == all_gsm7(cs@),
{
    let mut i: usize = 0;
    while i < cs.len()
        invariant
            i <= cs.len(),
            forall|k: int| 0 <= k < i ==> #[trigger] gsm7_char(cs@[k]),
        decreases cs.len() - i,
    {
        if !(gsm7_basic_exec(cs[i]) || gsm7_ext_exec(cs[i])) {
            assert(!gsm7_char(cs@[i as int]));
            return false;
        }
        i = i + 1;
    }
    true
}

/// Units that `t` takes in the alphabet it is sent in: GSM 7-bit where every
/// character allows it, else one per character (UCS-2).
pub open spec fn sms_units(t: Seq<char>) -> nat {
    if all_gsm7(t) {
        gsm7_units(t)
    } else {
        t.len()
    }
}

/// Segments needed for `units`, with `single` units in a lone segment and
/// `multi` in each segment of a longer message.
pub open spec fn segment_count(units: nat, single: nat, multi: nat) -> nat {
    if units <= single {
        1
    } else {
        ((units + multi - 1) / (multi as int)) as nat
    }
}

/// Units left in the last segment.
pub open spec fn units_left(units: nat, single: nat, multi: nat) -> int {
    if segment_count(units, single, multi) == 1 {
        single - units
    } else {
        segment_count(units, single, multi) * multi - units
    }
}

pub open spec fn single_limit(gsm: bool) -> nat {
    if gsm {
        160
    } else {
        70
    }
}

pub open spec fn multi_limit(gsm: bool) -> nat {
    if gsm {
        153
    } else {
        67
    }
}

pub open spec fn encoding_name(gsm: bool) -> Seq<char> {
    if gsm {
        seq!['G', 'S', 'M']
    } else {
        seq!['U', 'C', 'S', '-', '2']
    }
}

/// What the counter under a message box shows for `text`.
pub open spec fn segment_label(text: Seq<char>) -> Seq<char> {
    let t = text::trim(text);
    if t.len() == 0 {
        " 0/160 (1) "@
    } else {
        let g = all_gsm7(t);
        let u = sms_units(t);
        " "@ + text::dec(units_left(u, single_limit(g), multi_limit(g)) as nat) + " left | "@
            + text::dec(segment_count(u, single_limit(g), multi_limit(g))) + " seg | "@
            + encoding_name(g) + " "@
    }
}

/// The segment counter of a message: its label, and how many segments the
/// message takes (more than one is shown highlighted).
pub struct SegmentInfo {
    pub label: String,
    pub segments: usize,
}

proof fn lemma_gsm7_units_bound(s: Seq<char>)
    ensures
        gsm7_units(s) <= 2 * s.len(),
        gsm7_units(s) >= s.len(),
    decreases s.len(),
{
    if s.len() > 0 {
        lemma_gsm7_units_bound(s.drop_last());
    }
}

fn units_of(t: &Vec<char>) -> (r: usize)
    requires
        t@.len() <= usize::MAX / 4,
    ensures
        r == sms_units(t@),
{
    if !is_gsm7_chars(t) {
        return t.len();
    }
    let mut n: usize = 0;
    let mut i: usize = 0;
    while i < t.len()
        invariant
            i <= t.len(),
            t@.len() <= usize::MAX / 4,
            n == gsm7_units(t@.take(i as int)),
        decreases t.len() - i,
    {
        proof {
            assert(t@.take(i + 1).drop_last() =~= t@.take(i as int));
            lemma_gsm7_units_bound(t@.take(i as int));
        }
        if gsm7_ext_exec(t[i]) {
            n = n + 2;
        } else {
            n = n + 1;
        }
        i = i + 1;
    }
    assert(t@.take(t.len() as int) =~= t@);
    n
}

/// The segment counter for the message `text`.
pub fn sms_segment_info(text: &Vec<char>) -> (r: SegmentInfo)
    requires
        text@.len() <= usize::MAX / 4,
    ensures
        r.label@ == segment_label(text@),
        r.segments == if text::trim(text@).len() == 0 {
            1
        } else {
            segment_count(
                sms_units(text::trim(text@)),
                single_limit(all_gsm7(text::trim(text@))),
                multi_limit(all_gsm7(text::trim(text@))),
            )
        },
{
    let t = trim_ws(text);
    if t.len() == 0 {
        return SegmentInfo { label: String::from_str(" 0/160 (1) "), segments: 1 };
    }
    proof {
        assert(t@.len() <= text@.len()) by {
            assert(text::trim(text@).len() <= text@.len()) by {
                lemma_trim_len(text@);
            }
        }
    }
    let gsm = is_gsm7_chars(&t);
    let units = units_of(&t);
    proof {
        lemma_gsm7_units_bound(t@);
    }
    let single: usize = if gsm {
        160
    } else {
        70
    };
    let multi: usize = if gsm {
        153
    } else {
        67
    };
    let segments: usize = if units <= single {
        1
    } else {
        (units + multi - 1) / multi
    };
    if units > single {
        assert(segments >= 2) by (nonlinear_arith)
            requires
                segments == (units + multi - 1) / (multi as int),
                units > multi,
                multi > 0,
        ;
    }
    let left: usize = if units <= single {
        single - units
    } else {
        assert(segments * multi >= units) by (nonlinear_arith)
            requires
                segments == (units + multi - 1) / (multi as int),
                multi > 0,
        ;
        assert(segments * multi <= units + multi) by (nonlinear_arith)
            requires
                segments == (units + multi - 1) / (multi as int),
                multi > 0,
        ;
        segments * multi - units
    };
    let mut label = String::from_str(" ");
    label.append(string_of(&decimal_u64(left as u64)).as_str());
    label.append(" left | ");
    label.append(string_of(&decimal_u64(segments as u64)).as_str());
    label.append(" seg | ");
    if gsm {
        label.append("GSM");
    } else {
        label.append("UCS-2");
    }
    label.append(" ");
    proof {
        reveal_strlit("GSM");
        reveal_strlit("UCS-2");
    }
    SegmentInfo { label, segments }
}

/// A message takes at least one segment, and the units left in its last
/// segment are never negative and less than a segment holds.
pub proof fn law_segments_hold_the_message(units: nat, gsm: bool)
    ensures
        segment_count(units, single_limit(gsm), multi_limit(gsm)) >= 1,
        0 <= units_left(units, single_limit(gsm), multi_limit(gsm)),
        units_left(units, single_limit(gsm), multi_limit(gsm)) <= single_limit(gsm),
        segment_count(units, single_limit(gsm), multi_limit(gsm)) > 1 ==> units_left(
            units,
            single_limit(gsm),
            multi_limit(gsm),
        ) < multi_limit(gsm),
{
    let single = single_limit(gsm);
    let multi = multi_limit(gsm);
    if units > single {
        let n = (units + multi - 1) / (multi as int);
        assert(n * multi >= units && n * multi <= units + multi - 1) by (nonlinear_arith)
            requires
                n == (units + multi - 1) / (multi as int),
                multi > 0,
        ;
        assert(n >= 2) by (nonlinear_arith)
            requires
                n == (units + multi - 1) / (multi as int),
                units > multi,
                multi > 0,
        ;
    }
}

/// Trimming never makes a sequence longer.
pub proof fn lemma_trim_len(s: Seq<char>)
    ensures
        text::trim(s).len() <= s.len(),
{
    lemma_trim_by_len(s, text::CharClass::Whitespace);
}

proof fn lemma_trim_by_len(s: Seq<char>, k: text::CharClass)
    ensures
        text::trim_by(s, k).len() <= s.len(),
{
    lemma_trim_start_len(s, k);
    lemma_trim_end_len(text::trim_start_by(s, k), k);
}

proof fn lemma_trim_start_len(s: Seq<char>, k: text::CharClass)
    ensures
        text::trim_start_by(s, k).len() <= s.len(),
    decreases s.len(),
{
    if s.len() > 0 {
        lemma_trim_start_len(s.drop_first(), k);
    }
}

proof fn lemma_trim_end_len(s: Seq<char>, k: text::CharClass)
    ensures
        text::trim_end_by(s, k).len() <= s.len(),
    decreases s.len(),
{
    if s.len() > 0 {
        lemma_trim_end_len(s.drop_last(), k);
    }
}

// ---------------------------------------------------------------- cursor

/// The columns a string takes on a terminal: what
/// `unicode_width::UnicodeWidthStr::width` returns for a string with these
/// characters, which depends on them alone.
pub uninterp spec fn width_of(s: Seq<char>) -> usize;

/// `UnicodeWidthStr::width` of the string; nothing is claimed of its value
/// beyond its being the width of these characters.
#[verifier::external_body]
fn display_width(s: &str) -> (r: usize)
    ensures
        r == width_of(s@),
{
    unicode_width::UnicodeWidthStr::width(s)
}

/// How many times `c` occurs in `s`.
pub open spec fn count_of(s: Seq<char>, c: char) -> nat
    decreases s.len(),
{
    if s.len() == 0 {
        0
    } else {
        count_of(s.drop_last(), c) + if s.last() == c {
            1nat
        } else {
            0nat
        }
    }
}

/// The text before a cursor at character `cursor`, clamped to the end.
pub open spec fn before_cursor(text: Seq<char>, cursor: int) -> Seq<char> {
    if cursor < text.len() {
        text.take(cursor)
    } else {
        text
    }
}

proof fn lemma_count_bound(s: Seq<char>, c: char)
    ensures
        count_of(s, c) <= s.len(),
    decreases s.len(),
{
    if s.len() > 0 {
        lemma_count_bound(s.drop_last(), c);
    }
}

fn count_newlines(s: &Vec<char>) -> (r: usize)
    ensures
        r == count_of(s@, '\n'),
{
    let mut n: usize = 0;
    let mut i: usize = 0;
    while i < s.len()
        invariant
            i <= s.len(),
            n == count_of(s@.take(i as int), '\n'),
        decreases s.len() - i,
    {
        proof {
            assert(s@.take(i + 1).drop_last() =~= s@.take(i as int));
            lemma_count_bound(s@.take(i as int), '\n');
        }
        if s[i] == '\n' {
            n = n + 1;
        }
        i = i + 1;
    }
    assert(s@.take(s.len() as int) =~= s@);
    n
}

fn before_cursor_exec(text: &Vec<char>, cursor: usize) -> (r: Vec<char>)
    ensures
        r@ == before_cursor(text@, cursor as int),
{
    if cursor < text.len() {
        let r = slice_of(text, 0, cursor);
        assert(r@ =~= text@.take(cursor as int));
        r
    } else {
        text.clone()
    }
}

/// Row and column of a cursor at character `cursor` of `text`: the row is
/// the number of line breaks before it, the column the display width of its
/// line up to it.
pub fn cursor_position_in_text(text: &Vec<char>, cursor: usize) -> (r: (usize, usize))
    ensures
        r.0 == count_of(before_cursor(text@, cursor as int), '\n'),
        r.1 == width_of(text::after_last(before_cursor(text@, cursor as int), seq!['\n'])),
{
    let before = before_cursor_exec(text, cursor);
    let row = count_newlines(&before);
    let mut nl: Vec<char> = Vec::new();
    nl.push('\n');
    assert(nl@ =~= seq!['\n']);
    let last_line = after_last_exec(&before, &nl);
    let col = display_width(string_of(&last_line).as_str());
    (row, col)
}

/// Display width of a one-line field up to a cursor at character `cursor`.
pub fn display_width_up_to(text: &Vec<char>, cursor: usize) -> (r: usize)
    ensures
        r == width_of(before_cursor(text@, cursor as int)),
{
    let before = before_cursor_exec(text, cursor);
    display_width(string_of(&before).as_str())
}

// ---------------------------------------------------------------- scrolling

/// Lines the reply box shows: one for an empty box, else its lines, with one
/// more when it ends in a line break.
pub open spec fn input_line_count(s: Seq<char>) -> nat {
    if s.len() == 0 {
        1
    } else {
        (if text::lines(s).len() > 1 {
            text::lines(s).len()
        } else {
            1nat
        }) + if s.last() == '\n' {
            1nat
        } else {
            0nat
        }
    }
}

pub open spec fn clamp_int(x: int, lo: int, hi: int) -> int {
    if x < lo {
        lo
    } else if x > hi {
        hi
    } else {
        x
    }
}

proof fn lemma_lines_state_len(s: Seq<char>)
    ensures
        text::lines_state(s).0.len() + text::lines_state(s).1.len() <= s.len(),
        text::lines(s).len() <= s.len(),
    decreases s.len(),
{
    if s.len() > 0 {
        lemma_lines_state_len(s.drop_last());
    }
}

/// Height of the reply box: its lines (taken as a `u16`) and two borders,
/// kept between 3 and 10.
pub open spec fn reply_height(s: Seq<char>) -> int {
    clamp_int(((input_line_count(s) % 65536) + 2) as int, 3, 10)
}

/// The height of the reply box for the text `input`.
pub fn reply_box_height(input: &Vec<char>) -> (r: u16)
    requires
        input@.len() < usize::MAX,
        input_line_count(input@) % 65536 < 65534,
    ensures
        r == reply_height(input@),
{
    let count: usize = if input.len() == 0 {
        1
    } else {
        let ls = split_lines(input);
        let n = ls.len();
        assert(text::views(ls@).len() == ls@.len());
        proof {
            lemma_lines_state_len(input@);
        }
        let base: usize = if n > 1 {
            n
        } else {
            1
        };
        if input[input.len() - 1] == '\n' {
            base + 1
        } else {
            base
        }
    };
    let c16: u16 = (count % 65536) as u16;
    let h: u16 = c16 + 2;
    if h < 3 {
        3
    } else if h > 10 {
        10
    } else {
        h
    }
}

/// How far the message panel may scroll: lines beyond the inner height (the
/// panel less its two borders), taken as a `u16`; `offset` is kept within.
pub open spec fn scroll_limit(total_lines: nat, area_height: u16) -> int {
    let inner: int = if area_height >= 2 {
        area_height - 2
    } else {
        0
    };
    (if total_lines >= inner {
        total_lines - inner
    } else {
        0
    }) % 65536
}

/// The scroll offset of the message panel: `offset`, at most `scroll_limit`.
pub fn clamp_scroll(total_lines: usize, area_height: u16, offset: u16) -> (r: u16)
    ensures
        r == if offset <= scroll_limit(total_lines as nat, area_height) {
            offset as int
        } else {
            scroll_limit(total_lines as nat, area_height)
        },
{
    let inner: usize = if area_height >= 2 {
        (area_height - 2) as usize
    } else {
        0
    };
    let over: usize = if total_lines >= inner {
        total_lines - inner
    } else {
        0
    };
    let limit: u16 = (over % 65536) as u16;
    if offset <= limit {
        offset
    } else {
        limit
    }
}

/// Lines to scroll a box with `inner` rows so that row `row` is on its last
/// row, taken as a `u16` (0 when the row is already visible).
pub fn follow_cursor(row: usize, inner: usize) -> (r: u16)
    ensures
        r == if row >= inner {
            (row - inner + 1) % 65536
        } else {
            0
        },
{
    if row >= inner {
        let d: usize = (row - inner) % 65536;
        (((d + 1) % 65536) as u16)
    } else {
        0
    }
}

// ---------------------------------------------------------------- messages

fn push_all(v: &mut Vec<char>, s: &Vec<char>)
    ensures
        final(v)@ == old(v)@ + s@,
{
    let mut i: usize = 0;
    while i < s.len()
        invariant
            i <= s.len(),
            v@ == old(v)@ + s@.take(i as int),
        decreases s.len() - i,
    {
        v.push(s[i]);
        assert(old(v)@ + s@.take(i + 1) =~= (old(v)@ + s@.take(i as int)).push(s@[i as int]));
        i = i + 1;
    }
    assert(s@.take(s.len() as int) =~= s@);
}

/// How a line of the message panel is styled.
#[derive(Clone, Copy, Debug, PartialEq, Eq, Structural)]
pub enum LineKind {
    /// The line that introduces a message.
    Header { selected: bool, outgoing: bool },
    /// A line of a message's text.
    Body { selected: bool },
    /// The empty line after a message.
    Blank,
}

/// A line of the message panel.
pub struct PanelLine {
    pub text: String,
    pub kind: LineKind,
}

pub open spec fn panel_views(v: Seq<PanelLine>) -> Seq<(Seq<char>, LineKind)> {
    v.map_values(|l: PanelLine| (l.text@, l.kind))
}

/// The longest prefix of `ts` whose UTF-8 encoding fits in `budget` bytes.
pub open spec fn byte_prefix(ts: Seq<char>, budget: int) -> Seq<char>
    decreases ts.len(),
{
    if ts.len() == 0 || text::utf8_len(ts[0]) > budget {
        seq![]
    } else {
        seq![ts[0]] + byte_prefix(ts.drop_first(), budget - text::utf8_len(ts[0]))
    }
}

/// The timestamp as the panel shows it: its first 16 bytes.
pub open spec fn ts_shown(ts: Seq<char>) -> Seq<char> {
    if text::utf8_size(ts) > 16 {
        byte_prefix(ts, 16)
    } else {
        ts
    }
}

/// Byte 16 of the timestamp, where it has more, starts a character (the
/// panel cuts it there).
pub open spec fn cut_on_boundary(ts: Seq<char>) -> bool {
    text::utf8_size(ts) <= 16 || text::utf8_size(byte_prefix(ts, 16)) == 16
}

fn shown_timestamp(ts: &Vec<char>) -> (r: Vec<char>)
    ensures
        r@ == ts_shown(ts@),
{
    let mut total: usize = 0;
    let mut i: usize = 0;
    while i < ts.len() && total <= 16
        invariant
            i <= ts.len(),
            total == text::utf8_size(ts@.take(i as int)),
            total <= 20,
        decreases ts.len() - i,
    {
        assert(ts@.take(i + 1).drop_last() =~= ts@.take(i as int));
        total = total + text::char_utf8_len(ts[i]);
        i = i + 1;
    }
    proof {
        assert(ts@ =~= ts@.take(i as int) + ts@.skip(i as int));
        text::lemma_utf8_size_concat(ts@.take(i as int), ts@.skip(i as int));
    }
    if total <= 16 {
        assert(ts@.take(i as int) =~= ts@);
        return ts.clone();
    }
    let mut out: Vec<char> = Vec::new();
    let mut used: usize = 0;
    let mut k: usize = 0;
    assert(ts@.skip(0) =~= ts@);
    while k < ts.len() && text::char_utf8_len(ts[k]) <= 16 - used
        invariant
            k <= ts.len(),
            used <= 16,
            byte_prefix(ts@, 16) == out@ + byte_prefix(ts@.skip(k as int), 16 - used),
        decreases ts.len() - k,
    {
        assert(ts@.skip(k as int)[0] == ts@[k as int]);
        assert(ts@.skip(k as int).drop_first() =~= ts@.skip(k + 1));
        let n = text::char_utf8_len(ts[k]);
        let ghost before = out@;
        let ghost rest = byte_prefix(ts@.skip(k + 1), 16 - used - n);
        out.push(ts[k]);
        assert(byte_prefix(ts@.skip(k as int), 16 - used) == seq![ts@[k as int]] + rest);
        assert(out@ + rest =~= before + (seq![ts@[k as int]] + rest));
        used = used + n;
        k = k + 1;
    }
    proof {
        if k < ts.len() {
            assert(ts@.skip(k as int)[0] == ts@[k as int]);
        } else {
            assert(ts@.skip(k as int).len() == 0);
        }
        assert(out@ + Seq::<char>::empty() =~= out@);
    }
    out
}

pub open spec fn header_text(m: SmsMessage, number: Seq<char>, selected: bool) -> Seq<char> {
    let who = if m.state.outgoing() {
        seq!['Y', 'o', 'u']
    } else {
        number
    };
    let marker = if selected {
        seq!['\u{25b8}']
    } else {
        seq![' ']
    };
    marker + seq![' ', '['] + ts_shown(m.timestamp@) + seq![']', ' '] + who + seq![':']
}

pub open spec fn body_lines(ls: Seq<Seq<char>>, selected: bool) -> Seq<(Seq<char>, LineKind)> {
    ls.map_values(|l: Seq<char>| (seq![' ', ' '] + l, LineKind::Body { selected }))
}

/// The lines that show one message: a header with the time and who wrote
/// it, its text indented line by line, and an empty line.
pub open spec fn message_block(m: SmsMessage, number: Seq<char>, selected: bool) -> Seq<
    (Seq<char>, LineKind),
> {
    seq![(header_text(m, number, selected), LineKind::Header { selected, outgoing: m.state.outgoing() })]
        + body_lines(text::lines(m.text@), selected) + seq![(Seq::<char>::empty(), LineKind::Blank)]
}

/// The lines of the message panel for the messages `msgs` exchanged with
/// `number`, the message at position `selected` highlighted.
pub open spec fn panel_lines(msgs: Seq<SmsMessage>, number: Seq<char>, selected: Option<usize>) -> Seq<
    (Seq<char>, LineKind),
>
    decreases msgs.len(),
{
    if msgs.len() == 0 {
        seq![]
    } else {
        panel_lines(msgs.drop_last(), number, selected) + message_block(
            msgs.last(),
            number,
            selected == Some((msgs.len() - 1) as usize),
        )
    }
}

/// A line that marks a message as selected (its header or a line of its
/// text).
pub open spec fn marks_selection(k: LineKind) -> bool {
    k matches LineKind::Header { selected: true, .. } || k matches LineKind::Body { selected: true }
}

/// Lines that mark a selected message.
pub open spec fn selected_lines(ls: Seq<(Seq<char>, LineKind)>) -> nat
    decreases ls.len(),
{
    if ls.len() == 0 {
        0
    } else {
        selected_lines(ls.drop_last()) + if marks_selection(ls.last().1) {
            1nat
        } else {
            0nat
        }
    }
}

/// Selected headers among `ls`.
pub open spec fn selected_headers(ls: Seq<(Seq<char>, LineKind)>) -> nat
    decreases ls.len(),
{
    if ls.len() == 0 {
        0
    } else {
        selected_headers(ls.drop_last()) + if ls.last().1 matches LineKind::Header {
            selected: true,
            ..
        } {
            1nat
        } else {
            0nat
        }
    }
}

/// Lines that show message `m`: its header, its text lines and a blank.
pub open spec fn block_len(m: SmsMessage) -> nat {
    text::lines(m.text@).len() + 2
}

/// Lines that show `msgs`.
pub open spec fn blocks_len(msgs: Seq<SmsMessage>) -> nat
    decreases msgs.len(),
{
    if msgs.len() == 0 {
        0
    } else {
        blocks_len(msgs.drop_last()) + block_len(msgs.last())
    }
}

proof fn lemma_counts_concat(a: Seq<(Seq<char>, LineKind)>, b: Seq<(Seq<char>, LineKind)>)
    ensures
        selected_lines(a + b) == selected_lines(a) + selected_lines(b),
        selected_headers(a + b) == selected_headers(a) + selected_headers(b),
    decreases b.len(),
{
    if b.len() == 0 {
        assert(a + b =~= a);
    } else {
        assert((a + b).drop_last() =~= a + b.drop_last());
        lemma_counts_concat(a, b.drop_last());
    }
}

proof fn lemma_body_counts(ls: Seq<Seq<char>>, sel: bool)
    ensures
        selected_headers(body_lines(ls, sel)) == 0,
        selected_lines(body_lines(ls, sel)) == if sel {
            ls.len()
        } else {
            0
        },
        body_lines(ls, sel).len() == ls.len(),
    decreases ls.len(),
{
    if ls.len() > 0 {
        assert(body_lines(ls, sel).drop_last() =~= body_lines(ls.drop_last(), sel));
        lemma_body_counts(ls.drop_last(), sel);
    }
}

proof fn lemma_block_counts(m: SmsMessage, number: Seq<char>, sel: bool)
    ensures
        message_block(m, number, sel).len() == block_len(m),
        selected_headers(message_block(m, number, sel)) == if sel {
            1nat
        } else {
            0nat
        },
        selected_lines(message_block(m, number, sel)) == if sel {
            block_len(m) - 1
        } else {
            0
        },
        message_block(m, number, sel)[0] == (header_text(m, number, sel), LineKind::Header {
            selected: sel,
            outgoing: m.state.outgoing(),
        }),
{
    let h = seq![(header_text(m, number, sel), LineKind::Header { selected: sel, outgoing: m.state.outgoing() })];
    let b = body_lines(text::lines(m.text@), sel);
    let z = seq![(Seq::<char>::empty(), LineKind::Blank)];
    lemma_body_counts(text::lines(m.text@), sel);
    lemma_counts_concat(h, b);
    lemma_counts_concat(h + b, z);
    assert(h.drop_last() =~= Seq::<(Seq<char>, LineKind)>::empty());
    assert(z.drop_last() =~= Seq::<(Seq<char>, LineKind)>::empty());
    assert(h.last() == h[0]);
    assert(z.last() == z[0]);
    assert(selected_headers(Seq::<(Seq<char>, LineKind)>::empty()) == 0);
    assert(selected_lines(Seq::<(Seq<char>, LineKind)>::empty()) == 0);
    assert(selected_headers(h) == if sel {
        1nat
    } else {
        0nat
    });
    assert(selected_lines(h) == if sel {
        1nat
    } else {
        0nat
    });
    assert(selected_headers(z) == 0);
    assert(selected_lines(z) == 0);
    assert(message_block(m, number, sel) == h + b + z);
}

proof fn lemma_blocks_prefix(msgs: Seq<SmsMessage>, k: int)
    requires
        0 <= k < msgs.len(),
    ensures
        blocks_len(msgs.take(k)) + block_len(msgs[k]) <= blocks_len(msgs),
    decreases msgs.len(),
{
    if k == msgs.len() - 1 {
        assert(msgs.take(k) =~= msgs.drop_last());
    } else {
        lemma_blocks_prefix(msgs.drop_last(), k);
        assert(msgs.drop_last().take(k) =~= msgs.take(k));
    }
}

/// The message panel shows every message as a block of its header, its
/// text lines and a blank line, and marks exactly one message when one is
/// selected: with `Some(k)` for an existing message only the block of
/// message `k` is marked (its header, at the position after the blocks of
/// the messages before it, and its text lines); with `None` or a position
/// past the last message, none is.
pub proof fn law_panel_marks_only_selected(msgs: Seq<SmsMessage>, number: Seq<char>, selected: Option<usize>)
    requires
        msgs.len() <= usize::MAX,
    ensures
        panel_lines(msgs, number, selected).len() == blocks_len(msgs),
        selected_headers(panel_lines(msgs, number, selected)) == match selected {
            Some(k) => if k < msgs.len() {
                1nat
            } else {
                0nat
            },
            None => 0nat,
        },
        selected_lines(panel_lines(msgs, number, selected)) == match selected {
            Some(k) => if k < msgs.len() {
                (block_len(msgs[k as int]) - 1) as nat
            } else {
                0nat
            },
            None => 0nat,
        },
        selected matches Some(k) ==> (k < msgs.len() ==> panel_lines(msgs, number, selected)[blocks_len(
            msgs.take(k as int),
        ) as int] == (header_text(msgs[k as int], number, true), LineKind::Header {
            selected: true,
            outgoing: msgs[k as int].state.outgoing(),
        })),
    decreases msgs.len(),
{
    if msgs.len() > 0 {
        let pre = msgs.drop_last();
        let last = msgs.last();
        let sel = selected == Some((msgs.len() - 1) as usize);
        law_panel_marks_only_selected(pre, number, selected);
        lemma_block_counts(last, number, sel);
        lemma_counts_concat(panel_lines(pre, number, selected), message_block(last, number, sel));
        if let Some(k) = selected {
            if k < msgs.len() {
                if k == msgs.len() - 1 {
                    assert(msgs.take(k as int) =~= pre);
                    assert(msgs[k as int] == last);
                } else {
                    assert(pre.take(k as int) =~= msgs.take(k as int));
                    assert(pre[k as int] == msgs[k as int]);
                    lemma_blocks_prefix(pre, k as int);
                }
            }
        }
    }
}

fn header_exec(m: &SmsMessage, number: &Vec<char>, selected: bool) -> (r: String)
    ensures
        r@ == header_text(*m, number@, selected),
{
    let mut v: Vec<char> = Vec::new();
    if selected {
        v.push('\u{25b8}');
    } else {
        v.push(' ');
    }
    v.push(' ');
    v.push('[');
    let ts = chars_of(m.timestamp.as_str());
    push_all(&mut v, &shown_timestamp(&ts));
    v.push(']');
    v.push(' ');
    if m.state.is_outgoing() {
        v.push('Y');
        v.push('o');
        v.push('u');
    } else {
        push_all(&mut v, number);
    }
    v.push(':');
    let ghost marker = if selected {
        seq!['\u{25b8}']
    } else {
        seq![' ']
    };
    let ghost who = if m.state.outgoing() {
        seq!['Y', 'o', 'u']
    } else {
        number@
    };
    assert(v@ =~= marker + seq![' ', '['] + ts_shown(m.timestamp@) + seq![']', ' '] + who + seq![
        ':',
    ]);
    string_of(&v)
}

fn push_block(out: &mut Vec<PanelLine>, m: &SmsMessage, number: &Vec<char>, selected: bool)
    ensures
        panel_views(final(out)@) == panel_views(old(out)@) + message_block(*m, number@, selected),
{
    let ghost start = panel_views(out@);
    let outgoing = m.state.is_outgoing();
    out.push(
        PanelLine { text: header_exec(m, number, selected), kind: LineKind::Header { selected, outgoing } },
    );
    let ghost head = seq![(header_text(*m, number@, selected), LineKind::Header { selected, outgoing })];
    assert(panel_views(out@) =~= start + head);
    let ls = split_lines(&chars_of(m.text.as_str()));
    let ghost all = text::lines(m.text@);
    assert(text::views(ls@) == all);
    let mut j: usize = 0;
    while j < ls.len()
        invariant
            j <= ls.len(),
            text::views(ls@) == all,
            panel_views(out@) == start + head + body_lines(all.take(j as int), selected),
        decreases ls.len() - j,
    {
        let mut v: Vec<char> = Vec::new();
        v.push(' ');
        v.push(' ');
        push_all(&mut v, &ls[j]);
        let ghost before = panel_views(out@);
        out.push(PanelLine { text: string_of(&v), kind: LineKind::Body { selected } });
        assert(all[j as int] == ls@[j as int]@);
        assert(body_lines(all.take(j + 1), selected) =~= body_lines(all.take(j as int), selected).push(
            (seq![' ', ' '] + all[j as int], LineKind::Body { selected }),
        ));
        assert(panel_views(out@) =~= before.push((v@, LineKind::Body { selected })));
        assert(v@ =~= seq![' ', ' '] + all[j as int]);
        assert(before.push((v@, LineKind::Body { selected })) =~= start + head + body_lines(
            all.take(j + 1),
            selected,
        ));
        j = j + 1;
    }
    assert(all.take(ls.len() as int) =~= all);
    let ghost before = panel_views(out@);
    out.push(PanelLine { text: String::new(), kind: LineKind::Blank });
    assert(panel_views(out@) =~= before.push((Seq::<char>::empty(), LineKind::Blank)));
    assert(panel_views(out@) =~= start + message_block(*m, number@, selected));
}

/// The lines of the message panel for `messages` exchanged with `number`
/// (each timestamp longer than 16 bytes must have a character starting at
/// byte 16, where it is cut);
/// `selected` is the highlighted message, `None` when the panel does not
/// have the focus.
pub fn message_lines(messages: &Vec<SmsMessage>, number: &str, selected: Option<usize>) -> (r: Vec<
    PanelLine,
>)
    requires
        forall|i: int| 0 <= i < messages@.len() ==> cut_on_boundary(#[trigger] messages@[i].timestamp@),
    ensures
        panel_views(r@) == panel_lines(messages@, number@, selected),
{
    let num = chars_of(number);
    let mut out: Vec<PanelLine> = Vec::new();
    let mut i: usize = 0;
    assert(panel_views(out@) =~= Seq::<(Seq<char>, LineKind)>::empty());
    while i < messages.len()
        invariant
            i <= messages.len(),
            num@ == number@,
            panel_views(out@) == panel_lines(messages@.take(i as int), number@, selected),
        decreases messages.len() - i,
    {
        let is_sel = match selected {
            Some(k) => k == i,
            None => false,
        };
        push_block(&mut out, &messages[i], &num, is_sel);
        assert(messages@.take(i + 1).drop_last() =~= messages@.take(i as int));
        i = i + 1;
    }
    assert(messages@.take(messages.len() as int) =~= messages@);
    out
}

// ---------------------------------------------------------------- lists and bars

/// The two lines of a conversation in the list: the number behind a
/// marker, and the last message cut to fit `width` less 6 columns.
pub open spec fn conversation_item_text(c: Conversation, selected: bool, width: u16) -> (
    Seq<char>,
    Seq<char>,
) {
    let marker = if selected {
        seq!['\u{25b8}', ' ']
    } else {
        seq![' ', ' ']
    };
    (marker + c.number@, seq![' ', ' '] + truncated(c.last_text(), (width - 6) as nat))
}

/// The two lines of conversation `c` in a list `width` columns wide.
pub fn conversation_item(c: &Conversation, selected: bool, width: u16) -> (r: (String, String))
    requires
        width >= 6,
    ensures
        (r.0@, r.1@) == conversation_item_text(*c, selected, width),
{
    let mut first: Vec<char> = Vec::new();
    if selected {
        first.push('\u{25b8}');
    } else {
        first.push(' ');
    }
    first.push(' ');
    push_all(&mut first, &chars_of(c.number.as_str()));
    let preview = truncate_str(c.last_message_preview(), (width - 6) as usize);
    let mut second: Vec<char> = Vec::new();
    second.push(' ');
    second.push(' ');
    push_all(&mut second, &chars_of(preview.as_str()));
    (string_of(&first), string_of(&second))
}

pub open spec fn focus_label(f: Focus) -> Seq<char> {
    match f {
        Focus::ConversationList => "List"@,
        Focus::MessageView => "Messages"@,
        Focus::ReplyInput => "Reply"@,
    }
}

/// The right part of the status bar.
pub open spec fn status_right(f: Focus) -> Seq<char> {
    " "@ + focus_label(f) + " | Tab: switch | F10: menu | q: quit "@
}

/// `s` padded with spaces to at least `w` characters.
pub open spec fn pad_right(s: Seq<char>, w: nat) -> Seq<char> {
    if s.len() >= w {
        s
    } else {
        s + Seq::new((w - s.len()) as nat, |i: int| ' ')
    }
}

/// The two parts of the status bar, `available` columns wide: the status
/// padded to fill what the right part leaves, and the right part.
pub fn status_bar(status: &str, focus: Focus, available: usize) -> (r: (String, String))
    ensures
        r.1@ == status_right(focus),
        r.0@ == pad_right(
            " "@ + status@ + " "@,
            if available >= width_of(status_right(focus)) {
                (available - width_of(status_right(focus))) as nat
            } else {
                0
            },
        ),
{
    let label = match focus {
        Focus::ConversationList => "List",
        Focus::MessageView => "Messages",
        Focus::ReplyInput => "Reply",
    };
    let mut right = text::cat(" ", label);
    right.append(" | Tab: switch | F10: menu | q: quit ");
    let right_width = display_width(right.as_str());
    let left_width: usize = if available >= right_width {
        available - right_width
    } else {
        0
    };
    (status_left(status, left_width), right)
}

/// The left part of the status bar: the status between two spaces, padded
/// to `width` characters.
pub fn status_left(status: &str, width: usize) -> (r: String)
    ensures
        r@ == pad_right(" "@ + status@ + " "@, width as nat),
{
    let left_width = width;
    let mut left = chars_of(" ");
    push_all(&mut left, &chars_of(status));
    left.push(' ');
    proof {
        reveal_strlit(" ");
    }
    let ghost content = left@;
    if left.len() < left_width {
        let need = left_width - left.len();
        let mut k: usize = 0;
        while k < need
            invariant
                k <= need,
                left@ == content + Seq::new(k as nat, |i: int| ' '),
            decreases need - k,
        {
            left.push(' ');
            assert(content + Seq::new((k + 1) as nat, |i: int| ' ') =~= (content + Seq::new(
                k as nat,
                |i: int| ' ',
            )).push(' '));
            k = k + 1;
        }
    }
    string_of(&left)
}

/// The first position in `label` whose character, in ASCII lower case, is
/// `hotkey`.
pub open spec fn hotkey_at(label: Seq<char>, hotkey: char, i: int) -> bool {
    &&& 0 <= i < label.len()
    &&& ascii_lower(label[i]) == hotkey
    &&& forall|k: int| 0 <= k < i ==> ascii_lower(#[trigger] label[k]) != hotkey
}

pub open spec fn ascii_lower(c: char) -> char {
    if 'A' <= c && c <= 'Z' {
        ((c as u32) + 32) as char
    } else {
        c
    }
}

/// The position of the menu label's character to underline as its hotkey.
pub fn hotkey_index(label: &str, hotkey: char) -> (r: Option<usize>)
    ensures
        match r {
            Some(i) => hotkey_at(label@, hotkey, i as int),
            None => forall|k: int| 0 <= k < label@.len() ==> ascii_lower(#[trigger] label@[k]) != hotkey,
        },
{
    let cs = chars_of(label);
    let mut i: usize = 0;
    while i < cs.len()
        invariant
            i <= cs.len(),
            cs@ == label@,
            forall|k: int| 0 <= k < i ==> ascii_lower(#[trigger] label@[k]) != hotkey,
        decreases cs.len() - i,
    {
        let c = cs[i];
        let lower = if 'A' <= c && c <= 'Z' {
            ((c as u8) + 32u8) as char
        } else {
            c
        };
        assert(lower == ascii_lower(label@[i as int]));
        if lower == hotkey {
            return Some(i);
        }
        i = i + 1;
    }
    None
}

// ---------------------------------------------------------------- menu dropdown

/// Columns the menu bar gives to the menus before position `k`: each label
/// with two spaces on either side.
pub open spec fn labels_width_before(k: int) -> int
    decreases k,
{
    if k <= 0 {
        0
    } else {
        labels_width_before(k - 1) + app::menu_label(app::menu_at(k - 1)).len() + 4
    }
}

/// The length of the longest of `s` (0 for none).
pub open spec fn widest(s: Seq<Seq<char>>) -> nat
    decreases s.len(),
{
    if s.len() == 0 {
        0
    } else if widest(s.drop_last()) >= s.last().len() {
        widest(s.drop_last())
    } else {
        s.last().len()
    }
}

/// Where the open menu's list of actions is drawn, below the menu bar.
pub struct DropdownArea {
    pub x: u16,
    pub width: u16,
    pub height: u16,
}

/// The place of the dropdown of the menu at position `menu_selected`: under
/// its label, as wide as its longest action and two borders and two
/// spaces, and as high as its actions and two borders.
pub fn dropdown_area(menu_selected: usize) -> (r: DropdownArea)
    requires
        menu_selected < app::MENU_COUNT,
    ensures
        r.x == 1 + labels_width_before(menu_selected as int),
        r.width == widest(app::action_labels(app::menu_at(menu_selected as int))) + 4,
        r.height == app::action_count(app::menu_at(menu_selected as int)) + 2,
{
    proof {
        reveal_strlit("File");
        reveal_strlit("Messages");
        reveal_strlit("Help");
        reveal_strlit("Select Modem...");
        reveal_strlit("---");
        reveal_strlit("Exit");
        reveal_strlit("Refresh");
        reveal_strlit("New Message");
        reveal_strlit("Delete Message");
        reveal_strlit("Delete Conversation");
        reveal_strlit("Key bindings");
        reveal_strlit("About");
        reveal_with_fuel(labels_width_before, 4);
        reveal_with_fuel(widest, 7);
    }
    let x: u16 = if menu_selected == 0 {
        1
    } else if menu_selected == 1 {
        9
    } else {
        21
    };
    match app::menu_item(menu_selected) {
        MenuId::File => DropdownArea { x, width: 19, height: 5 },
        MenuId::Messages => DropdownArea { x, width: 23, height: 8 },
        MenuId::Help => DropdownArea { x, width: 16, height: 4 },
    }
}

/// A line of the dropdown `width` columns wide: a rule for a separator,
/// else the action between two spaces.
pub open spec fn dropdown_item_text(action: Seq<char>, width: u16) -> Seq<char> {
    if action == seq!['-', '-', '-'] {
        Seq::new((width - 2) as nat, |i: int| '\u{2500}')
    } else {
        seq![' '] + action + seq![' ']
    }
}

/// The line for `action` in a dropdown `width` columns wide.
pub fn dropdown_item(action: &str, width: u16) -> (r: String)
    requires
        width >= 2,
    ensures
        r@ == dropdown_item_text(action@, width),
{
    let a = chars_of(action);
    let mut sep: Vec<char> = Vec::new();
    sep.push('-');
    sep.push('-');
    sep.push('-');
    assert(sep@ =~= seq!['-', '-', '-']);
    let mut v: Vec<char> = Vec::new();
    if text::same_chars(&a, &sep) {
        let n: usize = (width - 2) as usize;
        let mut k: usize = 0;
        while k < n
            invariant
                k <= n,
                v@ == Seq::new(k as nat, |i: int| '\u{2500}'),
            decreases n - k,
        {
            v.push('\u{2500}');
            assert(v@ =~= Seq::new((k + 1) as nat, |i: int| '\u{2500}'));
            k = k + 1;
        }
    } else {
        v.push(' ');
        push_all(&mut v, &a);
        v.push(' ');
        assert(v@ =~= seq![' '] + action@ + seq![' ']);
    }
    string_of(&v)
}

// ---------------------------------------------------------------- modem picker

/// Height of the modem picker: four lines per modem (taken as a `u16`) and
/// three more, at most 20.
pub open spec fn picker_height(count: nat) -> int {
    let h: int = ((count % 65536) * 4 + 3) as int;
    if h < 20 {
        h
    } else {
        20
    }
}

/// The height of the modem picker for `count` modems.
pub fn modem_picker_height(count: usize) -> (r: u16)
    requires
        (count % 65536) * 4 + 3 <= u16::MAX,
    ensures
        r == picker_height(count as nat),
{
    let c: u16 = (count % 65536) as u16;
    let h: u16 = c * 4 + 3;
    if h < 20 {
        h
    } else {
        20
    }
}

/// Where a box of `size` starts to stand centred in `extent` cells from
/// `start` (at `start` when it does not fit).
pub fn centered_start(start: u16, extent: u16, size: u16) -> (r: u16)
    requires
        start + extent <= u16::MAX,
    ensures
        r == start + (if extent >= size {
            extent - size
        } else {
            0
        }) / 2,
{
    let room: u16 = if extent >= size {
        extent - size
    } else {
        0
    };
    start + room / 2
}

/// The first line of a modem in the picker: a dot for the modem in use,
/// its number, and its model and maker where they are known.
pub open spec fn modem_title(m: ModemInfo, current: u32) -> Seq<char> {
    let marker = if m.index == current {
        seq!['\u{25cf}']
    } else {
        seq![' ']
    };
    let head = seq![' '] + marker + " Modem "@ + text::dec(m.index as nat);
    if m.model@.len() == 0 {
        head
    } else if m.manufacturer@.len() == 0 {
        head + " - "@ + m.model@
    } else {
        head + " - "@ + m.manufacturer@ + seq![' '] + m.model@
    }
}

/// The second line of a modem in the picker: its own number (`unknown`
/// where it has none) and its state.
pub open spec fn modem_detail(m: ModemInfo) -> Seq<char> {
    "     "@ + (if m.own_number@.len() == 0 {
        "unknown"@
    } else {
        m.own_number@
    }) + " | "@ + m.state@
}

/// The two lines of modem `m` in the picker, `current` being the modem in
/// use.
pub fn modem_entry(m: &ModemInfo, current: u32) -> (r: (String, String))
    ensures
        r.0@ == modem_title(*m, current),
        r.1@ == modem_detail(*m),
{
    let mut head: Vec<char> = Vec::new();
    head.push(' ');
    if m.index == current {
        head.push('\u{25cf}');
    } else {
        head.push(' ');
    }
    push_all(&mut head, &chars_of(" Modem "));
    push_all(&mut head, &decimal_u64(m.index as u64));
    let model = chars_of(m.model.as_str());
    let maker = chars_of(m.manufacturer.as_str());
    let dash = chars_of(" - ");
    let mut title = head.clone();
    if model.len() == 0 {
    } else if maker.len() == 0 {
        push_all(&mut title, &dash);
        push_all(&mut title, &model);
    } else {
        push_all(&mut title, &dash);
        push_all(&mut title, &maker);
        title.push(' ');
        push_all(&mut title, &model);
    }
    let mut detail = chars_of("     ");
    if m.own_number.as_str().unicode_len() == 0 {
        push_all(&mut detail, &chars_of("unknown"));
    } else {
        push_all(&mut detail, &chars_of(m.own_number.as_str()));
    }
    push_all(&mut detail, &chars_of(" | "));
    push_all(&mut detail, &chars_of(m.state.as_str()));
    let ghost marker = if m.index == current {
        seq!['\u{25cf}']
    } else {
        seq![' ']
    };
    assert(head@ =~= seq![' '] + marker + " Modem "@ + text::dec(m.index as nat));
    assert(title@ =~= modem_title(*m, current));
    (string_of(&title), string_of(&detail))
}

// ---------------------------------------------------------------- confirmations

/// The question asked before deleting the selected conversation.
pub open spec fn delete_conversation_prompt_text(a: App) -> Seq<char> {
    "  Delete all messages with "@ + (match a.selected() {
        Some(c) => c.number@,
        None => "?"@,
    }) + "?"@
}

/// The question asked before deleting the selected conversation.
pub fn delete_conversation_prompt(a: &App) -> (r: String)
    ensures
        r@ == delete_conversation_prompt_text(*a),
{
    let mut r = String::from_str("  Delete all messages with ");
    match a.selected_convo() {
        Some(c) => r.append(c.number.as_str()),
        None => r.append("?"),
    }
    r.append("?");
    r
}

/// `s` with each line break turned into a space.
pub open spec fn one_line(s: Seq<char>) -> Seq<char> {
    s.map_values(|c: char|
        if c == '\n' {
            ' '
        } else {
            c
        })
}

/// The quoted preview of the message about to be deleted: its text on one
/// line, cut to 40 characters, or `?` where no message is selected.
pub open spec fn delete_message_quote_text(a: App) -> Seq<char> {
    let inner = if a.selected() is Some && a.selected_message < a.selected()->0.messages@.len() {
        truncated(one_line(a.selected()->0.messages@[a.selected_message as int].text@), 40)
    } else {
        "?"@
    };
    seq![' ', ' ', '"'] + inner + seq!['"']
}

/// The quoted preview of the message about to be deleted.
pub fn delete_message_quote(a: &App) -> (r: String)
    ensures
        r@ == delete_message_quote_text(*a),
{
    let mut v: Vec<char> = Vec::new();
    v.push(' ');
    v.push(' ');
    v.push('"');
    let ghost start = v@;
    let mut inner: Vec<char> = chars_of("?");
    match a.selected_convo() {
        Some(c) => {
            if a.selected_message < c.messages.len() {
                let t = chars_of(c.messages[a.selected_message].text.as_str());
                let mut flat: Vec<char> = Vec::new();
                let mut i: usize = 0;
                while i < t.len()
                    invariant
                        i <= t.len(),
                        flat@ == one_line(t@.take(i as int)),
                    decreases t.len() - i,
                {
                    if t[i] == '\n' {
                        flat.push(' ');
                    } else {
                        flat.push(t[i]);
                    }
                    assert(flat@ =~= one_line(t@.take(i + 1)));
                    i = i + 1;
                }
                assert(t@.take(t.len() as int) =~= t@);
                let cut = truncate_str(string_of(&flat).as_str(), 40);
                inner = chars_of(cut.as_str());
            }
        },
        None => {},
    }
    push_all(&mut v, &inner);
    v.push('"');
    assert(v@ =~= start + inner@ + seq!['"']);
    string_of(&v)
}

} // verus!
