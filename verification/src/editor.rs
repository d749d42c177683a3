//! Keys and the editing of a text field by them.
//!
//! A field is a sequence of characters with a cursor; the cursor counts
//! characters from the start and never passes the end.
use vstd::prelude::*;

verus! {

/// The key of a key press.
#[derive(Clone, Copy, Debug, PartialEq, Eq, Structural)]
pub enum KeyCode {
    Char(char),
    F(u8),
    Tab,
    BackTab,
    Esc,
    Enter,
    Backspace,
    Delete,
    Left,
    Right,
    Up,
    Down,
    Home,
    End,
    PageUp,
    PageDown,
    Other,
}

/// A key press: the key and whether Control or Alt was held.
#[derive(Clone, Copy, Debug, PartialEq, Eq, Structural)]
pub struct Key {
    pub code: KeyCode,
    pub ctrl: bool,
    pub alt: bool,
}

impl Key {
    /// A key press without modifiers.
    pub fn plain(code: KeyCode) -> (k: Key)
        ensures
            k == (Key { code, ctrl: false, alt: false }),
    {
        Key { code, ctrl: false, alt: false }
    }
}

// ---------------------------------------------------------------- lines of a field

/// Start of the line that holds position `c`: just after the last `\n`
/// before `c`, or 0.
pub open spec fn line_start(t: Seq<char>, c: int) -> int
    decreases c,
{
    if c <= 0 {
        0
    } else if t[c - 1] == '\n' {
        c
    } else {
        line_start(t, c - 1)
    }
}

/// End of the line that starts at or holds `s`: the first `\n` at or after
/// `s`, or the end of the text.
pub open spec fn line_end(t: Seq<char>, s: int) -> int
    decreases t.len() - s,
{
    if s >= t.len() {
        t.len() as int
    } else if t[s] == '\n' {
        s
    } else {
        line_end(t, s + 1)
    }
}

pub proof fn lemma_line_start(t: Seq<char>, c: int)
    requires
        0 <= c <= t.len(),
    ensures
        0 <= line_start(t, c) <= c,
        line_start(t, c) > 0 ==> t[line_start(t, c) - 1] == '\n',
        forall|k: int| line_start(t, c) <= k < c ==> t[k] != '\n',
    decreases c,
{
    if c > 0 && t[c - 1] != '\n' {
        lemma_line_start(t, c - 1);
    }
}

pub proof fn lemma_line_end(t: Seq<char>, s: int)
    requires
        0 <= s <= t.len(),
    ensures
        s <= line_end(t, s) <= t.len(),
        line_end(t, s) < t.len() ==> t[line_end(t, s)] == '\n',
        forall|k: int| s <= k < line_end(t, s) ==> t[k] != '\n',
    decreases t.len() - s,
{
    if s < t.len() && t[s] != '\n' {
        lemma_line_end(t, s + 1);
    }
}

/// `line_start` is the same for every position of one line.
pub proof fn lemma_line_start_unique(t: Seq<char>, a: int, c: int)
    requires
        0 <= a <= c <= t.len(),
        a == 0 || t[a - 1] == '\n',
        forall|k: int| a <= k < c ==> t[k] != '\n',
    ensures
        line_start(t, c) == a,
    decreases c - a,
{
    if c > a {
        lemma_line_start_unique(t, a, c - 1);
    }
}

/// `line_end` is the same for every position of one line.
pub proof fn lemma_line_end_unique(t: Seq<char>, s: int, e: int)
    requires
        0 <= s <= e <= t.len(),
        e == t.len() || t[e] == '\n',
        forall|k: int| s <= k < e ==> t[k] != '\n',
    ensures
        line_end(t, s) == e,
    decreases e - s,
{
    if s < e {
        lemma_line_end_unique(t, s + 1, e);
    }
}

fn line_start_exec(t: &Vec<char>, c: usize) -> (r: usize)
    requires
        c <= t.len(),
    ensures
        r == line_start(t@, c as int),
{
    let mut i = c;
    while i > 0 && t[i - 1] != '\n'
        invariant
            i <= c <= t.len(),
            line_start(t@, c as int) == line_start(t@, i as int),
        decreases i,
    {
        i = i - 1;
    }
    i
}

fn line_end_exec(t: &Vec<char>, s: usize) -> (r: usize)
    requires
        s <= t.len(),
    ensures
        r == line_end(t@, s as int),
{
    let mut i = s;
    while i < t.len() && t[i] != '\n'
        invariant
            s <= i <= t.len(),
            line_end(t@, s as int) == line_end(t@, i as int),
        decreases t.len() - i,
    {
        i = i + 1;
    }
    i
}

pub open spec fn min_int(a: int, b: int) -> int {
    if a <= b {
        a
    } else {
        b
    }
}

/// The position `n` characters after `start`, clamped to the end of that
/// line when it would pass the end of the text.
pub open spec fn offset_at_char(t: Seq<char>, start: int, n: int) -> int {
    if start + n < t.len() {
        start + n
    } else {
        line_end(t, start)
    }
}

/// The position `char_count` characters after `start` (positions count
/// characters), clamped to the end of that line past the end of the text.
pub fn byte_offset_at_char(text: &Vec<char>, start: usize, char_count: usize) -> (r: usize)
    requires
        start <= text.len(),
    ensures
        r == offset_at_char(text@, start as int, char_count as int),
{
    if char_count < text.len() - start {
        start + char_count
    } else {
        line_end_exec(text, start)
    }
}

/// Where the cursor lands moving one line up (`up`) or down, keeping its
/// column where the target line is long enough; it stays put on the first
/// line moving up and on the last line moving down.
pub open spec fn vertical_target(t: Seq<char>, cursor: int, up: bool) -> int {
    let c = min_int(cursor, t.len() as int);
    let ls = line_start(t, c);
    let col = c - ls;
    if up {
        if ls == 0 {
            cursor
        } else {
            let pls = line_start(t, ls - 1);
            offset_at_char(t, pls, min_int(col, (ls - 1) - pls))
        }
    } else {
        let le = line_end(t, ls);
        if le >= t.len() {
            cursor
        } else {
            let nls = le + 1;
            offset_at_char(t, nls, min_int(col, line_end(t, nls) - nls))
        }
    }
}

/// Moves the cursor one line up (`direction < 0`) or down.
pub fn move_cursor_vertically(text: &Vec<char>, cursor: usize, direction: i32) -> (r: usize)
    ensures
        r == vertical_target(text@, cursor as int, direction < 0),
        cursor <= text.len() ==> r <= text.len(),
{
    let c = if cursor < text.len() {
        cursor
    } else {
        text.len()
    };
    let ls = line_start_exec(text, c);
    proof {
        lemma_line_start(text@, c as int);
    }
    let col = c - ls;
    if direction < 0 {
        if ls == 0 {
            return cursor;
        }
        let pls = line_start_exec(text, ls - 1);
        proof {
            lemma_line_start(text@, ls - 1);
            lemma_line_end(text@, pls as int);
        }
        let prev_len = (ls - 1) - pls;
        let target = if col < prev_len {
            col
        } else {
            prev_len
        };
        byte_offset_at_char(text, pls, target)
    } else {
        let le = line_end_exec(text, ls);
        proof {
            lemma_line_end(text@, ls as int);
        }
        if le >= text.len() {
            return cursor;
        }
        let nls = le + 1;
        let nle = line_end_exec(text, nls);
        proof {
            lemma_line_end(text@, nls as int);
        }
        let next_len = nle - nls;
        let target = if col < next_len {
            col
        } else {
            next_len
        };
        byte_offset_at_char(text, nls, target)
    }
}

// ---------------------------------------------------------------- editing

/// The field has room for one more character.
pub open spec fn room(b: Seq<char>) -> bool {
    b.len() + 1 < usize::MAX
}

/// The field and cursor after `key` is pressed in a field with text `b` and
/// cursor `c`; `multiline` fields take Enter as a new line and move between
/// lines with Up and Down.
pub open spec fn edit(b: Seq<char>, c: int, key: Key, multiline: bool) -> (Seq<char>, int) {
    match key.code {
        KeyCode::Enter => if multiline && room(b) {
            (b.insert(c, '\n'), c + 1)
        } else {
            (b, c)
        },
        KeyCode::Char(x) => if room(b) {
            (b.insert(c, x), c + 1)
        } else {
            (b, c)
        },
        KeyCode::Backspace => if c > 0 {
            (b.remove(c - 1), c - 1)
        } else {
            (b, c)
        },
        KeyCode::Delete => if c < b.len() {
            (b.remove(c), c)
        } else {
            (b, c)
        },
        KeyCode::Left => if c > 0 {
            (b, c - 1)
        } else {
            (b, c)
        },
        KeyCode::Right => if c < b.len() {
            (b, c + 1)
        } else {
            (b, c)
        },
        KeyCode::Up => if multiline {
            (b, vertical_target(b, c, true))
        } else {
            (b, c)
        },
        KeyCode::Down => if multiline {
            (b, vertical_target(b, c, false))
        } else {
            (b, c)
        },
        KeyCode::Home => (b, 0),
        KeyCode::End => (b, b.len() as int),
        _ => (b, c),
    }
}

/// Applies a key press to a text field.
pub fn handle_text_input(buf: &mut Vec<char>, cursor: &mut usize, key: Key, multiline: bool)
    requires
        *old(cursor) <= old(buf).len(),
    ensures
        (final(buf)@, *final(cursor) as int) == edit(old(buf)@, *old(cursor) as int, key, multiline),
        *final(cursor) <= final(buf).len(),
{
    match key.code {
        KeyCode::Enter => {
            if multiline && buf.len() < usize::MAX - 1 {
                buf.insert(*cursor, '\n');
                *cursor = *cursor + 1;
            }
        },
        KeyCode::Char(x) => {
            if buf.len() < usize::MAX - 1 {
                buf.insert(*cursor, x);
                *cursor = *cursor + 1;
            }
        },
        KeyCode::Backspace => {
            if *cursor > 0 {
                *cursor = *cursor - 1;
                buf.remove(*cursor);
            }
        },
        KeyCode::Delete => {
            if *cursor < buf.len() {
                buf.remove(*cursor);
            }
        },
        KeyCode::Left => {
            if *cursor > 0 {
                *cursor = *cursor - 1;
            }
        },
        KeyCode::Right => {
            if *cursor < buf.len() {
                *cursor = *cursor + 1;
            }
        },
        KeyCode::Up => {
            if multiline {
                *cursor = move_cursor_vertically(buf, *cursor, -1);
            }
        },
        KeyCode::Down => {
            if multiline {
                *cursor = move_cursor_vertically(buf, *cursor, 1);
            }
        },
        KeyCode::Home => {
            *cursor = 0;
        },
        KeyCode::End => {
            *cursor = buf.len();
        },
        _ => {},
    }
}

// ---------------------------------------------------------------- laws

/// Down from a line that is not the last lands on the next line, at the
/// same column or, where that line is shorter, at its end; Up from a line
/// that is not the first lands likewise on the line before.
pub proof fn law_vertical_lands_on_adjacent_line(t: Seq<char>, c: int)
    requires
        0 <= c <= t.len(),
    ensures
        ({
            let ls = line_start(t, c);
            let le = line_end(t, ls);
            let nls = le + 1;
            let nle = line_end(t, nls);
            let r = vertical_target(t, c, false);
            le < t.len() ==> {
                &&& t[le] == '\n'
                &&& nls <= r <= nle
                &&& forall|k: int| nls <= k < r ==> t[k] != '\n'
                &&& r - nls == if c - ls <= nle - nls {
                    c - ls
                } else {
                    nle - nls
                }
            }
        }),
        ({
            let ls = line_start(t, c);
            let pls = line_start(t, ls - 1);
            let r = vertical_target(t, c, true);
            ls > 0 ==> {
                &&& t[ls - 1] == '\n'
                &&& pls <= r <= ls - 1
                &&& forall|k: int| pls <= k < r ==> t[k] != '\n'
                &&& r - pls == if c - ls <= (ls - 1) - pls {
                    c - ls
                } else {
                    (ls - 1) - pls
                }
            }
        }),
{
    lemma_line_start(t, c);
    let ls = line_start(t, c);
    lemma_line_end(t, ls);
    let le = line_end(t, ls);
    if le < t.len() {
        lemma_line_end(t, le + 1);
    }
    if ls > 0 {
        lemma_line_start(t, ls - 1);
        let pls = line_start(t, ls - 1);
        lemma_line_end(t, pls);
        lemma_line_end_unique(t, pls, ls - 1);
    }
}

/// Typing a character and then Backspace leaves the field as it was (when
/// the field has room for the character).
pub proof fn law_type_then_backspace(b: Seq<char>, c: int, x: char, multiline: bool)
    requires
        0 <= c <= b.len(),
        room(b),
    ensures
        ({
            let s1 = edit(b, c, Key { code: KeyCode::Char(x), ctrl: false, alt: false }, multiline);
            edit(s1.0, s1.1, Key { code: KeyCode::Backspace, ctrl: false, alt: false }, multiline)
        }) == (b, c),
{
    assert(b.insert(c, x).remove(c) =~= b);
}

/// Every key leaves the cursor within the field.
pub proof fn law_cursor_in_field(b: Seq<char>, c: int, key: Key, multiline: bool)
    requires
        0 <= c <= b.len(),
    ensures
        0 <= edit(b, c, key, multiline).1 <= edit(b, c, key, multiline).0.len(),
{
    lemma_vertical_in_field(b, c);
}

pub proof fn lemma_vertical_in_field(b: Seq<char>, c: int)
    requires
        0 <= c <= b.len(),
    ensures
        0 <= vertical_target(b, c, true) <= b.len(),
        0 <= vertical_target(b, c, false) <= b.len(),
{
    lemma_line_start(b, c);
    let ls = line_start(b, c);
    if ls > 0 {
        lemma_line_start(b, ls - 1);
        lemma_line_end(b, line_start(b, ls - 1));
    }
    lemma_line_end(b, ls);
    let le = line_end(b, ls);
    if le < b.len() {
        lemma_line_end(b, le + 1);
    }
}

/// Left then Right returns the cursor to where it was, away from the start.
pub proof fn law_left_right(b: Seq<char>, c: int, multiline: bool)
    requires
        0 < c <= b.len(),
    ensures
        ({
            let s1 = edit(b, c, Key { code: KeyCode::Left, ctrl: false, alt: false }, multiline);
            edit(s1.0, s1.1, Key { code: KeyCode::Right, ctrl: false, alt: false }, multiline)
        }) == (b, c),
{
}

/// Moving up from a line and back down returns to the same position when
/// the line above is at least as long as the cursor's column.
pub proof fn law_up_then_down(b: Seq<char>, c: int)
    requires
        0 <= c <= b.len(),
        line_start(b, c) > 0,
        c - line_start(b, c) <= (line_start(b, c) - 1) - line_start(b, line_start(b, c) - 1),
    ensures
        vertical_target(b, vertical_target(b, c, true), false) == c,
{
    lemma_line_start(b, c);
    let ls = line_start(b, c);
    let col = c - ls;
    lemma_line_start(b, ls - 1);
    let pls = line_start(b, ls - 1);
    lemma_line_end(b, pls);
    lemma_line_end_unique(b, pls, ls - 1);
    let up = pls + col;
    assert(vertical_target(b, c, true) == up);
    lemma_line_start_unique(b, pls, up);
    lemma_line_end_unique(b, pls, ls - 1);
    lemma_line_end(b, ls);
    let nle = line_end(b, ls);
    assert(c <= nle) by {
        if nle < c {
            assert(b[nle] == '\n');
        }
    }
}

/// On the first line Up does nothing; on the last line Down does nothing.
pub proof fn law_vertical_edges(b: Seq<char>, c: int)
    requires
        0 <= c <= b.len(),
    ensures
        line_start(b, c) == 0 ==> vertical_target(b, c, true) == c,
        line_end(b, c) == b.len() ==> vertical_target(b, c, false) == c,
{
    lemma_line_start(b, c);
    let ls = line_start(b, c);
    lemma_line_end(b, c);
    if line_end(b, c) == b.len() {
        lemma_line_end_unique(b, ls, b.len() as int);
    }
}

} // verus!
