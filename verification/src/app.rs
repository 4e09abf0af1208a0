//! Application state and the navigation logic that mutates it.
//!
//! `App` owns its own invariants: callers move the selection or change
//! directories through methods, and the struct keeps `selected` and
//! `scroll_offset` consistent with the current entries. Work that touches the filesystem (resolving a
//! target directory and listing it) is left to the caller: `enter_selected`
//! and `enter_parent` say where to go, and `navigate_to` takes the result.

use std::path::PathBuf;
use vstd::prelude::*;
use crate::entry::Entry;
use crate::text::chars_of;

verus! {

/// Lets `std::path::PathBuf` stand in fields and signatures; the proofs never
/// look inside a path.
#[verifier::external_type_specification]
#[verifier::external_body]
pub struct ExPathBuf(PathBuf);

/// Where the user asked to go: the parent of the current directory, or the
/// child directory of the given name.
#[derive(Debug, PartialEq, Eq)]
pub enum Navigation {
    Parent,
    Child(String),
}

/// The browser's state: the directory shown, its listing, the cursor, the
/// scroll offsets of the list and of the preview, and whether to quit.
pub struct App {
    current_dir: PathBuf,
    entries: Vec<Entry>,
    selected: usize,
    scroll_offset: usize,
    preview_scroll: usize,
    should_quit: bool,
}

/// The abstract state of an [`App`].
pub struct AppView {
    pub current_dir: PathBuf,
    pub entries: Seq<Entry>,
    pub selected: nat,
    pub scroll_offset: nat,
    pub preview_scroll: nat,
    pub should_quit: bool,
}

/// The index of the last of `len` entries, or 0 when there are none.
pub open spec fn last_index(len: nat) -> nat {
    if len == 0 {
        0
    } else {
        (len - 1) as nat
    }
}

/// The name of the synthetic entry that leads to the parent directory.
pub open spec fn is_parent_link(name: Seq<char>) -> bool {
    name == seq!['.', '.']
}

/// The smaller of `a` and `b`.
pub open spec fn min_nat(a: nat, b: nat) -> nat {
    if a <= b {
        a
    } else {
        b
    }
}

impl AppView {
    /// The selection and the first row shown point at entries, or at 0 when
    /// there are none.
    pub open spec fn well_formed(self) -> bool {
        &&& self.selected <= last_index(self.entries.len())
        &&& self.scroll_offset <= last_index(self.entries.len())
    }

    /// Moves the cursor to `index`; a change of selection rewinds the preview.
    pub open spec fn select(self, index: nat) -> AppView {
        if index == self.selected {
            self
        } else {
            AppView { selected: index, preview_scroll: 0, ..self }
        }
    }

    pub open spec fn quitting(self) -> AppView {
        AppView { should_quit: true, ..self }
    }

    pub open spec fn moved_down(self) -> AppView {
        if self.selected + 1 < self.entries.len() {
            self.select(self.selected + 1)
        } else {
            self
        }
    }

    pub open spec fn moved_up(self) -> AppView {
        if self.selected > 0 {
            self.select((self.selected - 1) as nat)
        } else {
            self
        }
    }

    pub open spec fn jumped_first(self) -> AppView {
        self.select(0)
    }

    pub open spec fn jumped_last(self) -> AppView {
        self.select(last_index(self.entries.len()))
    }

    /// The scroll offset that keeps the selection within a window of
    /// `visible_height` rows, moving the window as little as possible.
    pub open spec fn scroll_for(self, visible_height: nat) -> nat {
        if visible_height == 0 {
            self.selected
        } else if self.selected < self.scroll_offset {
            self.selected
        } else if self.selected >= self.scroll_offset + visible_height {
            (self.selected + 1 - visible_height) as nat
        } else {
            self.scroll_offset
        }
    }

    pub open spec fn scroll_clamped(self, visible_height: nat) -> AppView {
        AppView { scroll_offset: self.scroll_for(visible_height), ..self }
    }

    pub open spec fn preview_scrolled_down(self, amount: nat) -> AppView {
        AppView {
            preview_scroll: min_nat(self.preview_scroll + amount, usize::MAX as nat),
            ..self
        }
    }

    pub open spec fn preview_scrolled_up(self, amount: nat) -> AppView {
        AppView {
            preview_scroll: if self.preview_scroll >= amount {
                (self.preview_scroll - amount) as nat
            } else {
                0
            },
            ..self
        }
    }

    /// The largest preview offset that still fills `visible_height` rows of a
    /// preview of `total_lines` rows.
    pub open spec fn preview_limit(total_lines: nat, visible_height: nat) -> nat {
        if total_lines >= visible_height {
            (total_lines - visible_height) as nat
        } else {
            0
        }
    }

    pub open spec fn preview_clamped(self, total_lines: nat, visible_height: nat) -> AppView {
        AppView {
            preview_scroll: min_nat(
                self.preview_scroll,
                AppView::preview_limit(total_lines, visible_height),
            ),
            ..self
        }
    }

    /// New entries for the same directory, with the cursor and scroll offset
    /// pulled back into range.
    pub open spec fn reloaded(self, entries: Seq<Entry>) -> AppView {
        let selected = min_nat(self.selected, last_index(entries.len()));
        AppView {
            entries,
            selected,
            scroll_offset: min_nat(self.scroll_offset, selected),
            ..self
        }
    }

    /// The state after moving into `dir`, listed as `entries`.
    pub open spec fn navigated(self, dir: PathBuf, entries: Seq<Entry>) -> AppView {
        AppView {
            current_dir: dir,
            entries,
            selected: 0,
            scroll_offset: 0,
            preview_scroll: 0,
            ..self
        }
    }

    /// The entry under the cursor, if any.
    pub open spec fn selected_entry(self) -> Option<Entry> {
        if self.selected < self.entries.len() {
            Some(self.entries[self.selected as int])
        } else {
            None
        }
    }

    /// Where opening the selected entry leads: nowhere for files, the parent
    /// for `..`, the named child for other directories.
    pub open spec fn entry_target(self) -> Option<Navigation> {
        match self.selected_entry() {
            None => None,
            Some(entry) => if !entry.is_dir {
                None
            } else if is_parent_link(entry.name@) {
                Some(Navigation::Parent)
            } else {
                Some(Navigation::Child(entry.name))
            },
        }
    }
}

impl View for App {
    type V = AppView;

    closed spec fn view(&self) -> AppView {
        AppView {
            current_dir: self.current_dir,
            entries: self.entries@,
            selected: self.selected as nat,
            scroll_offset: self.scroll_offset as nat,
            preview_scroll: self.preview_scroll as nat,
            should_quit: self.should_quit,
        }
    }
}

impl App {
    #[verifier::type_invariant]
    spec fn cursor_in_range(self) -> bool {
        &&& self.selected <= last_index(self.entries.len() as nat)
        &&& self.scroll_offset <= last_index(self.entries.len() as nat)
    }

    /// An app showing `entries` of `current_dir`, with the cursor on the first
    /// entry.
    pub fn new(current_dir: PathBuf, entries: Vec<Entry>) -> (app: App)
        ensures
            app@ == (AppView {
                current_dir,
                entries: entries@,
                selected: 0,
                scroll_offset: 0,
                preview_scroll: 0,
                should_quit: false,
            }),
            app@.well_formed(),
    {
        App {
            current_dir,
            entries,
            selected: 0,
            scroll_offset: 0,
            preview_scroll: 0,
            should_quit: false,
        }
    }

    // --- Read-only accessors used by rendering ---
    pub fn current_dir(&self) -> (r: &PathBuf)
        ensures
            *r == self@.current_dir,
    {
        &self.current_dir
    }

    pub fn entries(&self) -> (r: &[Entry])
        ensures
            r@ == self@.entries,
    {
        self.entries.as_slice()
    }

    pub fn selected(&self) -> (r: usize)
        ensures
            r == self@.selected,
            self@.well_formed(),
    {
        proof {
            use_type_invariant(self);
        }
        self.selected
    }

    pub fn scroll_offset(&self) -> (r: usize)
        ensures
            r == self@.scroll_offset,
    {
        self.scroll_offset
    }

    pub fn preview_scroll(&self) -> (r: usize)
        ensures
            r == self@.preview_scroll,
    {
        self.preview_scroll
    }

    /// The entry under the cursor, if any.
    pub fn selected_entry(&self) -> (r: Option<&Entry>)
        ensures
            match r {
                Some(entry) => self@.selected_entry() == Some(*entry),
                None => self@.selected_entry() is None,
            },
    {
        if self.selected < self.entries.len() {
            Some(&self.entries[self.selected])
        } else {
            None
        }
    }

    pub fn should_quit(&self) -> (r: bool)
        ensures
            r == self@.should_quit,
    {
        self.should_quit
    }

    // --- Commands ---
    pub fn quit(&mut self)
        ensures
            final(self)@ == old(self)@.quitting(),
            final(self)@.well_formed(),
    {
        proof {
            use_type_invariant(&*self);
        }
        self.should_quit = true;
    }

    pub fn move_down(&mut self)
        ensures
            final(self)@ == old(self)@.moved_down(),
            final(self)@.well_formed(),
    {
        proof {
            use_type_invariant(&*self);
        }
        if self.selected + 1 < self.entries.len() {
            self.selected += 1;
            self.preview_scroll = 0;
        }
    }

    pub fn move_up(&mut self)
        ensures
            final(self)@ == old(self)@.moved_up(),
            final(self)@.well_formed(),
    {
        proof {
            use_type_invariant(&*self);
        }
        if self.selected > 0 {
            self.selected -= 1;
            self.preview_scroll = 0;
        }
    }

    pub fn jump_first(&mut self)
        ensures
            final(self)@ == old(self)@.jumped_first(),
            final(self)@.well_formed(),
    {
        proof {
            use_type_invariant(&*self);
        }
        if self.selected != 0 {
            self.selected = 0;
            self.preview_scroll = 0;
        }
    }

    pub fn jump_last(&mut self)
        ensures
            final(self)@ == old(self)@.jumped_last(),
            final(self)@.well_formed(),
    {
        proof {
            use_type_invariant(&*self);
        }
        let last = self.entries.len().saturating_sub(1);
        if self.selected != last {
            self.selected = last;
            self.preview_scroll = 0;
        }
    }

    /// Where opening the selected entry leads, if anywhere: the parent for
    /// `..`, the named child for other directories, nowhere for files. The
    /// caller checks that the target is a readable directory and moves there
    /// with [`App::navigate_to`].
    pub fn enter_selected(&self) -> (r: Option<Navigation>)
        ensures
            r == self@.entry_target(),
    {
        if self.selected >= self.entries.len() {
            return None;
        }
        let entry = &self.entries[self.selected];
        if !entry.is_dir {
            return None;
        }
        let name = chars_of(entry.name.as_str());
        if name.len() == 2 && name[0] == '.' && name[1] == '.' {
            assert(name@ == seq!['.', '.']);
            Some(Navigation::Parent)
        } else {
            Some(Navigation::Child(entry.name.clone()))
        }
    }

    /// Navigate to the parent of the current directory: the caller resolves
    /// the parent, if one exists, and moves there with [`App::navigate_to`].
    pub fn enter_parent(&self) -> (r: Navigation)
        ensures
            r == Navigation::Parent,
    {
        Navigation::Parent
    }

    /// Adjust the scroll offset so the selected entry stays within a window of
    /// `visible_height` rows. Called by the renderer once the row count of the
    /// list area is known.
    pub fn clamp_scroll(&mut self, visible_height: usize)
        ensures
            final(self)@ == old(self)@.scroll_clamped(visible_height as nat),
            final(self)@.well_formed(),
    {
        proof {
            use_type_invariant(&*self);
        }
        if visible_height == 0 {
            self.scroll_offset = self.selected;
            return;
        }
        if self.selected < self.scroll_offset {
            self.scroll_offset = self.selected;
        } else if self.selected - self.scroll_offset >= visible_height {
            self.scroll_offset = self.selected + 1 - visible_height;
        }
    }

    /// Over-scrolling is harmless: the renderer clamps to the file's length.
    pub fn scroll_preview_down(&mut self, amount: usize)
        ensures
            final(self)@ == old(self)@.preview_scrolled_down(amount as nat),
            final(self)@.well_formed(),
    {
        proof {
            use_type_invariant(&*self);
        }
        self.preview_scroll = self.preview_scroll.saturating_add(amount);
    }

    pub fn scroll_preview_up(&mut self, amount: usize)
        ensures
            final(self)@ == old(self)@.preview_scrolled_up(amount as nat),
            final(self)@.well_formed(),
    {
        proof {
            use_type_invariant(&*self);
        }
        self.preview_scroll = self.preview_scroll.saturating_sub(amount);
    }

    /// Keep `preview_scroll` within `[0, total_lines - visible_height]` so the
    /// viewport never shows empty rows past the end of the file. Called by the
    /// renderer once the preview's wrapped line count and pane height are known.
    pub fn clamp_preview_scroll(&mut self, total_lines: usize, visible_height: usize)
        ensures
            final(self)@ == old(self)@.preview_clamped(total_lines as nat, visible_height as nat),
            final(self)@.well_formed(),
    {
        proof {
            use_type_invariant(&*self);
        }
        let max = total_lines.saturating_sub(visible_height);
        if self.preview_scroll > max {
            self.preview_scroll = max;
        }
    }

    /// Move into `dir`, whose listing is `entries`, resetting the cursor. The
    /// caller has checked that `dir` is a readable directory and resolved it.
    pub fn navigate_to(&mut self, dir: PathBuf, entries: Vec<Entry>)
        ensures
            final(self)@ == old(self)@.navigated(dir, entries@),
            final(self)@.well_formed(),
    {
        proof {
            use_type_invariant(&*self);
        }
        self.selected = 0;
        self.scroll_offset = 0;
        self.preview_scroll = 0;
        self.current_dir = dir;
        self.reload_entries(entries);
    }

    /// Replace the listing of the current directory, keeping the cursor and
    /// the scroll offset in range.
    pub fn reload_entries(&mut self, entries: Vec<Entry>)
        ensures
            final(self)@ == old(self)@.reloaded(entries@),
            final(self)@.well_formed(),
    {
        proof {
            use_type_invariant(&*self);
        }
        let last = entries.len().saturating_sub(1);
        if self.selected > last {
            self.selected = last;
        }
        if self.scroll_offset > self.selected {
            self.scroll_offset = self.selected;
        }
        self.entries = entries;
    }
}

// --- Laws of the navigation state ---

/// Every command keeps the cursor and the first row shown on an entry (or at
/// 0 when there are none).
pub proof fn lemma_commands_keep_cursor_in_range(
    v: AppView,
    visible_height: nat,
    amount: nat,
    total_lines: nat,
    entries: Seq<Entry>,
    dir: PathBuf,
)
    requires
        v.well_formed(),
    ensures
        v.quitting().well_formed(),
        v.moved_down().well_formed(),
        v.moved_up().well_formed(),
        v.jumped_first().well_formed(),
        v.jumped_last().well_formed(),
        v.scroll_clamped(visible_height).well_formed(),
        v.preview_scrolled_down(amount).well_formed(),
        v.preview_scrolled_up(amount).well_formed(),
        v.preview_clamped(total_lines, visible_height).well_formed(),
        v.reloaded(entries).well_formed(),
        v.navigated(dir, entries).well_formed(),
{
}

/// Moving the cursor changes nothing but the selection, and a changed
/// selection starts its preview from the top.
pub proof fn lemma_moves_rewind_preview(v: AppView)
    ensures
        ({
            let moves = seq![v.moved_down(), v.moved_up(), v.jumped_first(), v.jumped_last()];
            forall|i: int|
                0 <= i < moves.len() ==> if (#[trigger] moves[i]).selected == v.selected {
                    moves[i] == v
                } else {
                    moves[i] == (AppView { selected: moves[i].selected, preview_scroll: 0, ..v })
                }
        }),
{
}

/// Moving up undoes moving down (and the other way round), apart from the
/// preview, which starts from the top again.
pub proof fn lemma_move_up_undoes_move_down(v: AppView)
    requires
        v.well_formed(),
    ensures
        v.selected + 1 < v.entries.len() ==> v.moved_down().moved_up() == (AppView {
            preview_scroll: 0,
            ..v
        }),
        v.selected > 0 ==> v.moved_up().moved_down() == (AppView { preview_scroll: 0, ..v }),
{
}

/// The jumps reach the ends of the listing, and moving further is a no-op.
pub proof fn lemma_jumps_reach_the_ends(v: AppView)
    requires
        v.well_formed(),
    ensures
        v.jumped_first().selected == 0,
        v.jumped_last().selected == last_index(v.entries.len()),
        v.jumped_first().moved_up() == v.jumped_first(),
        v.jumped_last().moved_down() == v.jumped_last(),
        v.jumped_first().jumped_first() == v.jumped_first(),
        v.jumped_last().jumped_last() == v.jumped_last(),
{
}

/// After clamping, the selected row lies inside the window of
/// `visible_height` rows; a window that already shows it is left alone.
pub proof fn lemma_clamped_scroll_shows_selection(v: AppView, visible_height: nat)
    ensures
        visible_height == 0 ==> v.scroll_for(visible_height) == v.selected,
        visible_height > 0 ==> v.scroll_for(visible_height) <= v.selected < v.scroll_for(
            visible_height,
        ) + visible_height,
        v.scroll_offset <= v.selected < v.scroll_offset + visible_height ==> v.scroll_for(
            visible_height,
        ) == v.scroll_offset,
        v.scroll_clamped(visible_height).scroll_clamped(visible_height) == v.scroll_clamped(
            visible_height,
        ),
{
}

/// After clamping, the preview offset never passes the last full screen of
/// the preview; an offset already in range is left alone.
pub proof fn lemma_clamped_preview_in_range(v: AppView, total_lines: nat, visible_height: nat)
    ensures
        v.preview_clamped(total_lines, visible_height).preview_scroll <= AppView::preview_limit(
            total_lines,
            visible_height,
        ),
        v.preview_scroll <= AppView::preview_limit(total_lines, visible_height) ==> v.preview_clamped(
            total_lines,
            visible_height,
        ) == v,
{
}

/// Scrolling the preview up by the amount it was scrolled down restores it,
/// when the offset did not saturate.
pub proof fn lemma_preview_scroll_round_trip(v: AppView, amount: nat)
    requires
        v.preview_scroll + amount <= usize::MAX,
    ensures
        v.preview_scrolled_down(amount).preview_scrolled_up(amount) == v,
{
}

/// Moving to another directory shows its listing from the top.
pub proof fn lemma_navigation_resets_cursor(v: AppView, dir: PathBuf, entries: Seq<Entry>)
    ensures
        v.navigated(dir, entries).current_dir == dir,
        v.navigated(dir, entries).entries == entries,
        v.navigated(dir, entries).selected == 0,
        v.navigated(dir, entries).scroll_offset == 0,
        v.navigated(dir, entries).preview_scroll == 0,
        v.navigated(dir, entries).should_quit == v.should_quit,
{
}

/// How far apart two offsets are.
pub open spec fn distance(a: nat, b: nat) -> nat {
    if a >= b {
        (a - b) as nat
    } else {
        (b - a) as nat
    }
}

/// Each cursor command, stated as arithmetic on the cursor: down moves to the
/// next entry if there is one, up to the previous one if there is one, the
/// jumps to the first and to the last entry. The listing, the directory, the
/// list's scroll offset and the quit flag never change; the preview rewinds
/// exactly when the cursor moved.
pub proof fn lemma_cursor_commands_arithmetic(v: AppView)
    ensures
        v.moved_down() == (AppView {
            selected: if v.selected + 1 < v.entries.len() {
                v.selected + 1
            } else {
                v.selected
            },
            preview_scroll: if v.selected + 1 < v.entries.len() {
                0
            } else {
                v.preview_scroll
            },
            ..v
        }),
        v.moved_up() == (AppView {
            selected: if v.selected > 0 {
                (v.selected - 1) as nat
            } else {
                v.selected
            },
            preview_scroll: if v.selected > 0 {
                0
            } else {
                v.preview_scroll
            },
            ..v
        }),
        v.jumped_first() == (AppView {
            selected: 0,
            preview_scroll: if v.selected != 0 {
                0
            } else {
                v.preview_scroll
            },
            ..v
        }),
        v.jumped_last() == (AppView {
            selected: if v.entries.len() == 0 {
                0
            } else {
                (v.entries.len() - 1) as nat
            },
            preview_scroll: if v.selected + 1 != v.entries.len() && !(v.entries.len() == 0
                && v.selected == 0) {
                0
            } else {
                v.preview_scroll
            },
            ..v
        }),
        v.quitting() == (AppView { should_quit: true, ..v }),
{
}

/// Clamping the list's scroll offset moves the window as little as possible:
/// with a window of `visible_height > 0` rows the new offset shows the
/// selection, and no offset that shows it is closer to the old one; with no
/// rows at all the offset becomes the selection. Nothing else changes.
pub proof fn lemma_clamp_scroll_moves_least(v: AppView, visible_height: nat, other: nat)
    ensures
        visible_height == 0 ==> v.scroll_clamped(visible_height).scroll_offset == v.selected,
        visible_height > 0 ==> v.scroll_clamped(visible_height).scroll_offset <= v.selected
            < v.scroll_clamped(visible_height).scroll_offset + visible_height,
        visible_height > 0 && other <= v.selected < other + visible_height ==> distance(
            v.scroll_clamped(visible_height).scroll_offset,
            v.scroll_offset,
        ) <= distance(other, v.scroll_offset),
        v.scroll_clamped(visible_height) == (AppView {
            scroll_offset: v.scroll_clamped(visible_height).scroll_offset,
            ..v
        }),
{
}

/// The preview offsets as arithmetic: scrolling down adds the amount, stopping
/// at `usize::MAX`; scrolling up subtracts it, stopping at 0; clamping pulls
/// the offset back to `total_lines - visible_height` (0 when the preview is
/// shorter than the pane). Nothing else changes.
pub proof fn lemma_preview_offsets_arithmetic(
    v: AppView,
    amount: nat,
    total_lines: nat,
    visible_height: nat,
)
    ensures
        v.preview_scroll + amount <= usize::MAX ==> v.preview_scrolled_down(amount).preview_scroll
            == v.preview_scroll + amount,
        v.preview_scroll + amount > usize::MAX ==> v.preview_scrolled_down(amount).preview_scroll
            == usize::MAX,
        amount >= v.preview_scroll ==> v.preview_scrolled_up(amount).preview_scroll == 0,
        amount < v.preview_scroll ==> v.preview_scrolled_up(amount).preview_scroll + amount
            == v.preview_scroll,
        total_lines < visible_height ==> v.preview_clamped(
            total_lines,
            visible_height,
        ).preview_scroll == 0,
        total_lines >= visible_height && v.preview_scroll + visible_height <= total_lines
            ==> v.preview_clamped(total_lines, visible_height).preview_scroll == v.preview_scroll,
        total_lines >= visible_height && v.preview_scroll + visible_height > total_lines
            ==> v.preview_clamped(total_lines, visible_height).preview_scroll + visible_height
            == total_lines,
        v.preview_scrolled_down(amount) == (AppView {
            preview_scroll: v.preview_scrolled_down(amount).preview_scroll,
            ..v
        }),
        v.preview_scrolled_up(amount) == (AppView {
            preview_scroll: v.preview_scrolled_up(amount).preview_scroll,
            ..v
        }),
        v.preview_clamped(total_lines, visible_height) == (AppView {
            preview_scroll: v.preview_clamped(total_lines, visible_height).preview_scroll,
            ..v
        }),
{
}

/// A new listing keeps the cursor on the same index while that index still
/// exists, and puts it on the last entry otherwise (on 0 for an empty
/// listing); the list's scroll offset stays unless it would pass the cursor,
/// in which case it becomes the cursor. The listing is replaced and nothing
/// else changes.
pub proof fn lemma_reload_keeps_cursor(v: AppView, entries: Seq<Entry>)
    ensures
        v.reloaded(entries).entries == entries,
        v.reloaded(entries).selected == (if v.selected < entries.len() {
            v.selected as int
        } else if entries.len() == 0 {
            0
        } else {
            entries.len() - 1
        }),
        v.reloaded(entries).scroll_offset == (if v.scroll_offset <= v.reloaded(entries).selected {
            v.scroll_offset
        } else {
            v.reloaded(entries).selected
        }),
        v.reloaded(entries).current_dir == v.current_dir,
        v.reloaded(entries).preview_scroll == v.preview_scroll,
        v.reloaded(entries).should_quit == v.should_quit,
{
}

/// Opening the selection leads nowhere without a selection or when it is a
/// file, to the parent when it is the `..` directory, and otherwise to the
/// child directory of exactly the selected name.
pub proof fn lemma_entry_target_follows_selection(v: AppView)
    ensures
        v.selected >= v.entries.len() ==> v.entry_target() is None,
        v.selected < v.entries.len() && !v.entries[v.selected as int].is_dir ==> v.entry_target() is None,
        v.selected < v.entries.len() && v.entries[v.selected as int].is_dir && v.entries[v.selected as int].name@
            == seq!['.', '.'] ==> v.entry_target() == Some(Navigation::Parent),
        v.selected < v.entries.len() && v.entries[v.selected as int].is_dir && v.entries[v.selected as int].name@
            != seq!['.', '.'] ==> v.entry_target() == Some(
            Navigation::Child(v.entries[v.selected as int].name),
        ),
{
}

} // verus!
