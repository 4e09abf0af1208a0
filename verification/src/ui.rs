//! The text the panes show: escaping of terminal controls, the status line,
//! the rows of the file list and the preview's title and rows. Drawing them
//! is left to the caller.

use vstd::prelude::*;
use crate::app::App;
use crate::entry::Entry;
use crate::app::AppView;
use crate::text::{char_is_control, chars_of, decimal, is_control_code, push_char, push_decimal};
use crate::wrap::{wrap_text, wrapped_text};

verus! {

/// The character of the hexadecimal digit `d` (0 to 15), upper case.
pub open spec fn hex_digit(d: nat) -> char {
    if d < 10 {
        (d + 48) as char
    } else {
        (d + 55) as char
    }
}

/// The visible escape for control character `c`: `\x` and its code point as
/// two upper-case hexadecimal digits.
pub open spec fn escaped(c: char) -> Seq<char> {
    seq!['\\', 'x', hex_digit((c as nat) / 16), hex_digit((c as nat) % 16)]
}

/// What a single character becomes in terminal-safe text.
pub open spec fn sanitized_char(c: char, allow_newlines: bool) -> Seq<char> {
    if c == '\n' && allow_newlines {
        seq![c]
    } else if is_control_code(c) {
        escaped(c)
    } else {
        seq![c]
    }
}

/// `s` with every control character replaced by its visible escape, line
/// feeds kept when `allow_newlines` holds.
pub open spec fn sanitized(s: Seq<char>, allow_newlines: bool) -> Seq<char>
    decreases s.len(),
{
    if s.len() == 0 {
        Seq::empty()
    } else {
        sanitized(s.drop_last(), allow_newlines) + sanitized_char(s.last(), allow_newlines)
    }
}

fn hex_char(d: u32) -> (c: char)
    requires
        d < 16,
    ensures
        c == hex_digit(d as nat),
{
    if d < 10 {
        ((d as u8) + 48) as char
    } else {
        ((d as u8) + 55) as char
    }
}

/// Render `content` safely by replacing terminal control characters with their
/// visible hexadecimal escapes. Newlines are optionally retained as preview
/// line delimiters; every other control character is escaped.
pub fn sanitize_for_terminal(content: &str, allow_newlines: bool) -> (r: String)
    ensures
        r@ == sanitized(content@, allow_newlines),
        forall|i: int|
            0 <= i < r@.len() ==> is_control_code(#[trigger] r@[i]) ==> r@[i] == '\n'
                && allow_newlines,
{
    let cs = chars_of(content);
    let mut out = String::new();
    let mut i: usize = 0;
    assert(cs@.take(0) == Seq::<char>::empty());
    while i < cs.len()
        invariant
            i <= cs.len(),
            cs@ == content@,
            out@ == sanitized(cs@.take(i as int), allow_newlines),
        decreases cs.len() - i,
    {
        let c = cs[i];
        if c == '\n' && allow_newlines {
            push_char(&mut out, c);
        } else if char_is_control(c) {
            let code = c as u32;
            push_char(&mut out, '\\');
            push_char(&mut out, 'x');
            push_char(&mut out, hex_char(code / 16));
            push_char(&mut out, hex_char(code % 16));
        } else {
            push_char(&mut out, c);
        }
        proof {
            assert(cs@.take(i + 1).drop_last() == cs@.take(i as int));
            assert(cs@.take(i + 1).last() == c);
        }
        i = i + 1;
    }
    assert(cs@.take(cs.len() as int) == cs@);
    proof {
        lemma_sanitized_has_no_controls(content@, allow_newlines);
    }
    out
}

/// The value of an upper-case hexadecimal digit character.
pub open spec fn hex_value(c: char) -> int {
    if '0' <= c <= '9' {
        (c as int) - ('0' as int)
    } else {
        (c as int) - ('A' as int) + 10
    }
}

/// An upper-case hexadecimal digit character.
pub open spec fn is_hex_digit(c: char) -> bool {
    ('0' <= c && c <= '9') || ('A' <= c && c <= 'F')
}

/// The escape of a control character is `\x` followed by two upper-case
/// hexadecimal digits that spell out its code point.
pub proof fn lemma_escape_spells_the_code(c: char)
    requires
        is_control_code(c),
    ensures
        escaped(c).len() == 4,
        escaped(c)[0] == '\\',
        escaped(c)[1] == 'x',
        is_hex_digit(escaped(c)[2]),
        is_hex_digit(escaped(c)[3]),
        hex_value(escaped(c)[2]) * 16 + hex_value(escaped(c)[3]) == c as int,
{
    let code = c as nat;
    assert(code == (code / 16) * 16 + code % 16);
    assert(('0' as int) == 48);
    assert(('A' as int) == 65);
    assert((hex_digit(code / 16) as int) == code / 16 + 48);
    let low = code % 16;
    if low < 10 {
        assert((hex_digit(low) as int) == low + 48);
    } else {
        assert((hex_digit(low) as int) == low + 55);
    }
}

/// Escaped text holds no control character, apart from the line feeds that
/// were asked to be kept.
pub proof fn lemma_sanitized_has_no_controls(s: Seq<char>, allow_newlines: bool)
    ensures
        forall|i: int|
            0 <= i < sanitized(s, allow_newlines).len() ==> is_control_code(
                #[trigger] sanitized(s, allow_newlines)[i],
            ) ==> sanitized(s, allow_newlines)[i] == '\n' && allow_newlines,
    decreases s.len(),
{
    if s.len() > 0 {
        lemma_sanitized_has_no_controls(s.drop_last(), allow_newlines);
        let prev = sanitized(s.drop_last(), allow_newlines);
        let tail = sanitized_char(s.last(), allow_newlines);
        assert forall|i: int|
            0 <= i < (prev + tail).len() && is_control_code(
                #[trigger] (prev + tail)[i],
            ) implies (prev + tail)[i] == '\n' && allow_newlines by {
            if i >= prev.len() {
                let c = s.last();
                if !(c == '\n' && allow_newlines) && is_control_code(c) {
                    let code = c as nat;
                    assert(code < 160);
                    assert(code / 16 < 10);
                }
            }
        }
    }
}

/// Text without control characters (other than kept line feeds) is shown
/// as it is.
pub proof fn lemma_sanitized_keeps_plain_text(s: Seq<char>, allow_newlines: bool)
    requires
        forall|i: int|
            0 <= i < s.len() ==> is_control_code(#[trigger] s[i]) ==> s[i] == '\n'
                && allow_newlines,
    ensures
        sanitized(s, allow_newlines) == s,
    decreases s.len(),
{
    if s.len() > 0 {
        assert forall|i: int|
            0 <= i < s.drop_last().len() && is_control_code(
                #[trigger] s.drop_last()[i],
            ) implies s.drop_last()[i] == '\n' && allow_newlines by {
            assert(s.drop_last()[i] == s[i]);
        }
        lemma_sanitized_keeps_plain_text(s.drop_last(), allow_newlines);
        assert(s == s.drop_last().push(s.last()));
    }
}

/// The string holding exactly `literal`.
fn owned(literal: &str) -> (r: String)
    ensures
        r@ == literal@,
{
    let mut r = String::new();
    r.append(literal);
    assert(r@ == literal@);
    r
}

// --- Status line ---

/// What the status line says of the entry under the cursor.
pub open spec fn selection_details(selected: Option<Entry>) -> Seq<char> {
    match selected {
        None => "no selection"@,
        Some(entry) => "selected: "@ + decimal(entry.size as nat) + " bytes, modified: "@ + decimal(
            entry.modified as nat,
        ) + "s"@,
    }
}

/// The key hints, the number of entries and the details of the selection.
pub open spec fn status_line(entry_count: nat, selected: Option<Entry>) -> Seq<char> {
    "j/k or arrows: move | h/l or arrows: parent/open | g/G: first/last | J/K or Ctrl-d/u: scroll preview | q or Ctrl+C: quit | "@
        + decimal(entry_count) + " items | "@ + selection_details(selected)
}

/// The text of the status bar.
pub fn status_text(app: &App) -> (r: String)
    ensures
        r@ == status_line(app@.entries.len(), app@.selected_entry()),
{
    let mut out = owned(
        "j/k or arrows: move | h/l or arrows: parent/open | g/G: first/last | J/K or Ctrl-d/u: scroll preview | q or Ctrl+C: quit | ",
    );
    let count = app.entries().len();
    push_decimal(&mut out, count as u64);
    out.append(" items | ");
    match app.selected_entry() {
        None => {
            out.append("no selection");
        },
        Some(entry) => {
            out.append("selected: ");
            push_decimal(&mut out, entry.size);
            out.append(" bytes, modified: ");
            push_decimal(&mut out, entry.modified);
            out.append("s");
        },
    }
    out
}

// --- File list ---

/// One row of the file list.
pub struct ListRow {
    pub text: String,
    pub highlighted: bool,
}

/// The text of an entry's row: `/` for directories or a blank for files, a
/// blank, and the escaped name.
pub open spec fn row_text(entry: Entry) -> Seq<char> {
    seq![if entry.is_dir { '/' } else { ' ' }, ' '] + sanitized(entry.name@, false)
}

/// How many rows a window of `visible_height` rows starting at entry
/// `scroll_offset` shows out of `len` entries.
pub open spec fn visible_rows(len: nat, scroll_offset: nat, visible_height: nat) -> nat {
    if scroll_offset >= len {
        0
    } else if len - scroll_offset < visible_height {
        (len - scroll_offset) as nat
    } else {
        visible_height
    }
}

/// The rows of the file list shown in a window of `visible_height` rows from
/// the app's scroll offset; the row of the selected entry is highlighted.
pub fn file_list_rows(app: &App, visible_height: usize) -> (r: Vec<ListRow>)
    ensures
        r.len() == visible_rows(app@.entries.len(), app@.scroll_offset, visible_height as nat),
        r.len() <= visible_height,
        r.len() > 0 ==> app@.scroll_offset + r.len() <= app@.entries.len(),
        forall|k: int|
            #[trigger] in_window(k, app@.entries.len(), app@.scroll_offset, visible_height as nat)
                ==> k - app@.scroll_offset < r.len(),
        forall|i: int|
            0 <= i < r.len() ==> (#[trigger] r@[i]).text@ == row_text(
                app@.entries[app@.scroll_offset + i],
            ) && r@[i].highlighted == (app@.scroll_offset + i == app@.selected),
{
    let entries = app.entries();
    let scroll_offset = app.scroll_offset();
    let selected = app.selected();
    let mut rows: Vec<ListRow> = Vec::new();
    let mut i: usize = 0;
    while i < visible_height && scroll_offset < entries.len() && i < entries.len() - scroll_offset
        invariant
            entries@ == app@.entries,
            scroll_offset == app@.scroll_offset,
            selected == app@.selected,
            i <= visible_height,
            scroll_offset < entries.len() ==> i <= entries.len() - scroll_offset,
            scroll_offset >= entries.len() ==> i == 0,
            rows.len() == i,
            forall|k: int|
                0 <= k < i ==> (#[trigger] rows@[k]).text@ == row_text(entries@[scroll_offset + k])
                    && rows@[k].highlighted == (scroll_offset + k == selected),
        decreases visible_height - i,
    {
        let index = scroll_offset + i;
        let entry = &entries[index];
        let mut text = String::new();
        push_char(&mut text, if entry.is_dir { '/' } else { ' ' });
        push_char(&mut text, ' ');
        let name = sanitize_for_terminal(entry.name.as_str(), false);
        text.append(name.as_str());
        rows.push(ListRow { text, highlighted: index == selected });
        i = i + 1;
    }
    rows
}

/// Entry `k` of `len` lies in the window of `visible_height` rows starting at
/// entry `scroll_offset`.
pub open spec fn in_window(k: int, len: nat, scroll_offset: nat, visible_height: nat) -> bool {
    scroll_offset <= k < len && k < scroll_offset + visible_height
}

/// The window shows exactly the entries inside it: never more rows than it
/// has, only entries that exist, and every entry from the first row shown up
/// to the window's height.
pub proof fn lemma_window_shows_its_entries(len: nat, scroll_offset: nat, visible_height: nat)
    ensures
        visible_rows(len, scroll_offset, visible_height) <= visible_height,
        visible_rows(len, scroll_offset, visible_height) > 0 ==> scroll_offset + visible_rows(
            len,
            scroll_offset,
            visible_height,
        ) <= len,
        forall|k: int|
            #[trigger] in_window(k, len, scroll_offset, visible_height) ==> k - scroll_offset
                < visible_rows(len, scroll_offset, visible_height),
{
}

/// After the list's scroll offset is clamped to a window of
/// `visible_height > 0` rows, the selected entry has a row in that window.
pub proof fn lemma_selection_shown_after_clamp(v: AppView, visible_height: nat)
    requires
        v.well_formed(),
        v.entries.len() > 0,
        visible_height > 0,
    ensures
        ({
            let c = v.scroll_clamped(visible_height);
            c.scroll_offset <= c.selected && c.selected - c.scroll_offset < visible_rows(
                c.entries.len(),
                c.scroll_offset,
                visible_height,
            )
        }),
{
}

// --- Preview ---

/// The name of the selected entry when it is a file, whose leading bytes the
/// caller reads for the preview.
pub fn preview_file_name(app: &App) -> (r: Option<String>)
    ensures
        r == (match app@.selected_entry() {
            Some(entry) => if entry.is_dir {
                None
            } else {
                Some(entry.name)
            },
            None => None,
        }),
{
    match app.selected_entry() {
        Some(entry) => if entry.is_dir {
            None
        } else {
            Some(entry.name.clone())
        },
        None => None,
    }
}

/// The preview pane's title and rows: `Preview` and nothing without a
/// selection, `<directory>` for a directory, else the file's text (or
/// `<binary or unreadable>` when it has none), escaped and wrapped to
/// `width` columns; the title is the escaped name.
pub open spec fn preview_view(v: AppView, width: nat, file_content: Option<String>) -> (
    Seq<char>,
    Seq<Seq<char>>,
) {
    match v.selected_entry() {
        None => ("Preview"@, Seq::empty()),
        Some(entry) => if entry.is_dir {
            (sanitized(entry.name@, false), seq!["<directory>"@])
        } else {
            let text = match file_content {
                Some(content) => content@,
                None => "<binary or unreadable>"@,
            };
            (sanitized(entry.name@, false), wrapped_text(sanitized(text, true), width as int))
        },
    }
}

/// The title and rows of the preview pane. `file_content` is what the caller
/// read of the selected file (see [`preview_file_name`]); it is ignored when
/// the selection is not a file.
pub fn preview_lines(app: &App, width: usize, file_content: Option<String>) -> (r: (
    String,
    Vec<String>,
))
    ensures
        (r.0@, r.1.deep_view()) == preview_view(app@, width as nat, file_content),
{
    match app.selected_entry() {
        None => (owned("Preview"), Vec::new()),
        Some(entry) => {
            let title = sanitize_for_terminal(entry.name.as_str(), false);
            if entry.is_dir {
                let mut lines: Vec<String> = Vec::new();
                lines.push(owned("<directory>"));
                (title, lines)
            } else {
                let text = match file_content {
                    Some(content) => content,
                    None => owned("<binary or unreadable>"),
                };
                let safe = sanitize_for_terminal(text.as_str(), true);
                (title, wrap_text(safe.as_str(), width))
            }
        },
    }
}

} // verus!
