//! What a panel is, as texts, sets and numbers, and what a message makes of it.

use super::directory_list::{DirectoryMessage, Effect, FileSelection, Page, Selection, WIDTH};
use super::entry;
use super::entry::Entry;
use super::search;
use crate::clipboard;
use crate::clipboard::ClipboardOp;
use crate::layout;
use crate::text;
use vstd::arithmetic::div_mod::*;
use vstd::prelude::*;

verus! {

/// A panel as texts, sets and numbers.
#[verifier::ext_equal]
pub struct Panel {
    pub dir: Seq<char>,
    pub entries: Seq<Entry<Seq<char>>>,
    pub selected: Seq<bool>,
    pub cursor: Option<u32>,
    pub cursor_uri: Option<Seq<char>>,
    pub marks: Set<Seq<char>>,
    pub search_term: Seq<char>,
    pub search_matches: Seq<u32>,
    pub search_current: int,
    pub select_first_on_load: bool,
    pub is_cursor_panel: bool,
    pub sliver: bool,
    pub loading: bool,
}

/// A new panel for the directory with the given path.
pub open spec fn fresh(path: Seq<char>, select_first_on_load: bool) -> Panel {
    Panel {
        dir: path,
        entries: Seq::empty(),
        selected: Seq::empty(),
        cursor: None,
        cursor_uri: None,
        marks: Set::empty(),
        search_term: Seq::empty(),
        search_matches: Seq::empty(),
        search_current: 0,
        select_first_on_load,
        is_cursor_panel: false,
        sliver: false,
        loading: true,
    }
}

/// The positions of a list of the given length, in order.
pub open spec fn positions(count: nat) -> Seq<u32> {
    Seq::new(count, |i: int| i as u32)
}

/// The first row with the given URI from `from` on, or the number of rows.
pub open spec fn find_uri(entries: Seq<Entry<Seq<char>>>, uri: Seq<char>, from: int) -> int
    decreases entries.len() - from,
{
    if from >= entries.len() || entries[from].uri == uri {
        from
    } else {
        find_uri(entries, uri, from + 1)
    }
}

/// The first row that is selected from `from` on, or the number of rows.
pub open spec fn first_selected(selected: Seq<bool>, from: int) -> int
    decreases selected.len() - from,
{
    if from >= selected.len() || selected[from] {
        from
    } else {
        first_selected(selected, from + 1)
    }
}

/// The page a panel shows: the spinner while the listing loads, then either the
/// listing or the thin sliver strip.
pub open spec fn page_for(loading: bool, sliver: bool) -> Page {
    if loading {
        Page::Spinner
    } else if sliver {
        Page::Sliver
    } else {
        Page::Listing
    }
}

impl Panel {
    /// Whether the listing fits its positions: there is one flag for each row, and
    /// every position is a `u32`.
    pub open spec fn fits(self) -> bool {
        &&& self.selected.len() == self.entries.len()
        &&& self.entries.len() <= u32::MAX
        &&& 0 <= self.search_current < u32::MAX
    }

    /// Whether the keyboard cursor lives in this panel. Marks deliberately do not
    /// count.
    pub open spec fn has_cursor(self) -> bool {
        match self.cursor {
            Some(pos) => pos < self.entries.len() && self.selected[pos as int],
            None => false,
        }
    }

    /// The row under the cursor, selected or not.
    pub open spec fn cursor_row(self) -> Option<Entry<Seq<char>>> {
        match self.cursor {
            Some(pos) => if pos < self.entries.len() {
                Some(self.entries[pos as int])
            } else {
                None
            },
            None => None,
        }
    }

    /// The panel with the cursor moved to `pos`: that row is selected and no
    /// other. A position outside the listing changes nothing.
    pub open spec fn moved(self, pos: u32) -> Panel {
        if pos < self.entries.len() {
            Panel {
                cursor: Some(pos),
                cursor_uri: Some(self.entries[pos as int].uri),
                selected: Seq::new(self.entries.len(), |i: int| i == pos),
                ..self
            }
        } else {
            self
        }
    }

    /// What moving the cursor to `pos` asks for.
    pub open spec fn moving(self, pos: u32) -> Seq<Effect<Seq<char>, Seq<Seq<char>>>> {
        if pos < self.entries.len() {
            seq![Effect::Select(pos), Effect::RestyleCursor, Effect::ScrollTo(pos)]
        } else {
            Seq::empty()
        }
    }

    /// Whether the row at `pos` is marked.
    pub open spec fn marked_at(self, pos: u32) -> bool {
        self.marks.contains(self.entries[pos as int].uri)
    }

    /// The rows that are marked.
    pub open spec fn marking(self) -> spec_fn(u32) -> bool {
        |pos: u32| self.marked_at(pos)
    }

    /// The rows that are selected without being marked.
    pub open spec fn merely_selected(self) -> spec_fn(u32) -> bool {
        |pos: u32| self.selected[pos as int] && !self.marked_at(pos)
    }

    /// The rows that match the search term.
    pub open spec fn matching(self) -> spec_fn(u32) -> bool {
        |pos: u32| search::matched(self.entries[pos as int].display_name, self.search_term)
    }

    /// The positions of the marked rows.
    pub open spec fn marked_rows(self) -> Seq<u32> {
        positions(self.entries.len()).filter(self.marking())
    }

    /// The rows an operation applies to: the marked ones, or what is selected when
    /// nothing is marked.
    pub open spec fn operation(self) -> Seq<u32> {
        if self.marked_rows().len() > 0 {
            self.marked_rows()
        } else {
            positions(self.entries.len()).filter(self.merely_selected())
        }
    }

    /// The URIs of the rows an operation applies to.
    pub open spec fn operation_uris(self) -> Seq<Seq<char>> {
        self.operation().map_values(|pos: u32| self.entries[pos as int].uri)
    }

    /// The names of the rows an operation applies to.
    pub open spec fn operation_names(self) -> Seq<Seq<char>> {
        self.operation().map_values(|pos: u32| self.entries[pos as int].display_name)
    }

    /// The file under the cursor, if the cursor lives here.
    pub open spec fn cursor_file(self) -> Option<Seq<char>> {
        if self.has_cursor() {
            Some(self.entries[self.cursor->0 as int].uri)
        } else {
            None
        }
    }

    /// The file under the cursor and then those of the first `count` rows that are
    /// selected or marked, each once.
    pub open spec fn gathered(self, count: nat) -> Seq<Seq<char>>
        decreases count,
    {
        if count == 0 {
            match self.cursor_file() {
                Some(uri) => seq![uri],
                None => Seq::empty(),
            }
        } else {
            let before = self.gathered((count - 1) as nat);
            let row = self.entries[count - 1];
            if before.contains(row.uri) {
                before
            } else if self.selected[count - 1] || self.marks.contains(row.uri) {
                before.push(row.uri)
            } else {
                before
            }
        }
    }

    /// What is selected: the selected rows plus every marked entry, with the
    /// cursor file leading the list.
    pub open spec fn selection(self) -> Selection<Seq<char>, Seq<Seq<char>>> {
        let files = self.gathered(self.entries.len());
        if files.len() == 0 {
            Selection::Nothing
        } else {
            Selection::Files(
                FileSelection { parent: self.dir, files, cursor_file: self.cursor_file() },
            )
        }
    }

    /// The positions of the entries matching the search term.
    pub open spec fn matches(self) -> Seq<u32> {
        positions(self.entries.len()).filter(self.matching())
    }

    /// The panel with its matches up to date.
    pub open spec fn searched(self) -> Panel {
        Panel { search_matches: self.matches(), ..self }
    }

    /// The panel with the cursor on the given match.
    pub open spec fn at_match(self, current: int) -> Panel {
        Panel { search_current: current, ..self }.moved(self.search_matches[current])
    }

    /// The match after the current one, and behind the last the first.
    pub open spec fn next_match(self) -> int {
        (self.search_current + 1) % (self.search_matches.len() as int)
    }

    /// The match before the current one, and before the first the last.
    pub open spec fn previous_match(self) -> int {
        if self.search_current == 0 {
            self.search_matches.len() - 1
        } else {
            self.search_current - 1
        }
    }

    /// Where the cursor moves from: where it is, or else the first selected row.
    pub open spec fn moving_from(self) -> Option<int> {
        match self.cursor {
            Some(pos) if pos < self.entries.len() => Some(pos as int),
            _ => if first_selected(self.selected, 0) < self.entries.len() {
                Some(first_selected(self.selected, 0))
            } else {
                None
            },
        }
    }

    /// Where moving the cursor by `delta` leads: not beyond either end, and from
    /// nowhere to the end that the move comes from.
    pub open spec fn moving_to(self, delta: i32) -> int {
        let last = self.entries.len() - 1;
        match self.moving_from() {
            Some(pos) => layout::clamped(pos + delta, 0, last),
            None => if delta >= 0 {
                0
            } else {
                last
            },
        }
    }

    /// The panel with the mark on `uri` toggled.
    pub open spec fn toggled(self, uri: Seq<char>) -> Panel {
        Panel {
            marks: if self.marks.contains(uri) {
                self.marks.remove(uri)
            } else {
                self.marks.insert(uri)
            },
            ..self
        }
    }

    /// Where the cursor lands after the listing shifted: on the file it was on, or
    /// if that is gone on the row that took its place.
    pub open spec fn landing(self, previous: u32) -> int {
        let found = match self.cursor_uri {
            Some(uri) => find_uri(self.entries, uri, 0),
            None => self.entries.len() as int,
        };
        if found < self.entries.len() {
            found
        } else if previous < self.entries.len() {
            previous as int
        } else {
            self.entries.len() - 1
        }
    }

    /// Whether the panel can be told this: an item can only be opened where there
    /// is one, and there is no match before one that is itself long gone.
    pub open spec fn accepts(self, msg: DirectoryMessage<Seq<char>>) -> bool {
        match msg {
            DirectoryMessage::OpenItemAtPosition(pos) => pos < self.entries.len(),
            DirectoryMessage::SearchPrev => self.matches().len() > 0 ==> self.search_current
                <= self.matches().len(),
            _ => true,
        }
    }

    /// The panel after it was told `msg`.
    pub open spec fn after(self, msg: DirectoryMessage<Seq<char>>) -> Panel {
        match msg {
            DirectoryMessage::SetSearch(term) => {
                let found = Panel { search_term: term, search_current: 0, ..self }.searched();
                if found.search_matches.len() > 0 {
                    found.at_match(0)
                } else {
                    found
                }
            },
            DirectoryMessage::SearchNext => {
                let found = self.searched();
                if found.search_matches.len() > 0 {
                    found.at_match(found.next_match())
                } else {
                    found
                }
            },
            DirectoryMessage::SearchPrev => {
                let found = self.searched();
                if found.search_matches.len() > 0 {
                    found.at_match(found.previous_match())
                } else {
                    found
                }
            },
            DirectoryMessage::ClearSearch => Panel {
                search_term: Seq::empty(),
                search_matches: Seq::empty(),
                search_current: 0,
                ..self
            },
            DirectoryMessage::MoveCursor(delta) => if self.entries.len() > 0 {
                self.moved(self.moving_to(delta) as u32)
            } else {
                self
            },
            DirectoryMessage::SelectFirst => self.moved(0),
            DirectoryMessage::SelectLast => if self.entries.len() > 0 {
                self.moved((self.entries.len() - 1) as u32)
            } else {
                self
            },
            DirectoryMessage::UnselectAll => Panel {
                selected: Seq::new(self.entries.len(), |i: int| false),
                ..self
            },
            DirectoryMessage::AutoSelectIfPending => if self.select_first_on_load
                && self.entries.len() > 0 {
                Panel { select_first_on_load: false, ..self }.moved(0)
            } else {
                self
            },
            DirectoryMessage::ToggleMark => match self.cursor_row() {
                Some(row) => self.toggled(row.uri).moved_on(self.cursor->0),
                None => self,
            },
            DirectoryMessage::InvalidateCursor => match self.cursor {
                Some(previous) => if self.entries.len() == 0 {
                    Panel { cursor: None, ..self }
                } else {
                    self.moved(self.landing(previous) as u32)
                },
                None => self,
            },
            DirectoryMessage::SetCursorPanel(owns) => Panel { is_cursor_panel: owns, ..self },
            DirectoryMessage::SetLayout(plan) => if plan.visible {
                Panel { sliver: plan.sliver, ..self }
            } else {
                self
            },
            DirectoryMessage::ResetLayout => Panel { sliver: false, ..self },
            _ => self,
        }
    }

    /// The panel with the cursor one row further, if there is one.
    pub open spec fn moved_on(self, pos: u32) -> Panel {
        if pos + 1 < self.entries.len() {
            self.moved((pos + 1) as u32)
        } else {
            self
        }
    }

    /// What moving the cursor one row further asks for.
    pub open spec fn moving_on(self, pos: u32) -> Seq<Effect<Seq<char>, Seq<Seq<char>>>> {
        if pos + 1 < self.entries.len() {
            self.moving((pos + 1) as u32)
        } else {
            Seq::empty()
        }
    }

    /// What the user reads after copying or cutting: how many files, and which of
    /// the two.
    pub open spec fn copied(op: ClipboardOp, count: nat) -> Seq<char> {
        let verb = match op {
            ClipboardOp::Copy => "copied"@,
            ClipboardOp::Cut => "cut"@,
        };
        if count == 1 {
            "1 file "@ + verb
        } else {
            text::decimal(count) + " files "@ + verb
        }
    }

    /// What the panel asks for when it is told `msg`.
    pub open spec fn asks(self, msg: DirectoryMessage<Seq<char>>) -> Seq<
        Effect<Seq<char>, Seq<Seq<char>>>,
    > {
        match msg {
            DirectoryMessage::OpenItemAtPosition(pos) => seq![
                Effect::Open(self.entries[pos as int].uri),
            ],
            DirectoryMessage::ChooseAndLaunchApp(uri) => seq![Effect::ChooseAndLaunchApp(uri)],
            DirectoryMessage::TrashSelection => seq![
                Effect::Trash(self.operation_uris(), self.operation_names()),
            ],
            DirectoryMessage::RestoreSelectionFromTrash => seq![
                Effect::Restore(self.operation_uris()),
            ],
            DirectoryMessage::ShowNewFolderDialog => seq![Effect::ShowNewFolderDialog],
            DirectoryMessage::SetSearch(term) => {
                let found = Panel { search_term: term, ..self }.matches();
                seq![Effect::SetSearchTerm(term)] + (if found.len() > 0 {
                    self.moving(found[0])
                } else {
                    Seq::empty()
                }) + seq![Effect::RefreshHighlights]
            },
            DirectoryMessage::SearchNext => {
                let found = self.searched();
                if found.search_matches.len() > 0 {
                    self.moving(found.search_matches[found.next_match()])
                } else {
                    Seq::empty()
                }
            },
            DirectoryMessage::SearchPrev => {
                let found = self.searched();
                if found.search_matches.len() > 0 {
                    self.moving(found.search_matches[found.previous_match()])
                } else {
                    Seq::empty()
                }
            },
            DirectoryMessage::ClearSearch => seq![
                Effect::SetSearchTerm(Seq::empty()),
                Effect::RefreshHighlights,
            ],
            DirectoryMessage::RenameSelected => match self.cursor_row() {
                Some(row) => seq![Effect::Rename(row.uri)],
                None => Seq::empty(),
            },
            DirectoryMessage::MoveCursor(delta) => if self.entries.len() > 0 {
                self.moving(self.moving_to(delta) as u32)
            } else {
                Seq::empty()
            },
            DirectoryMessage::SelectFirst => self.moving(0),
            DirectoryMessage::SelectLast => if self.entries.len() > 0 {
                self.moving((self.entries.len() - 1) as u32)
            } else {
                Seq::empty()
            },
            DirectoryMessage::UnselectAll => seq![Effect::UnselectAll],
            DirectoryMessage::OpenSelected => match self.cursor_row() {
                Some(row) => if entry::audio(row) {
                    seq![Effect::ToggleAudioPreview]
                } else {
                    seq![Effect::Open(row.uri)]
                },
                None => Seq::empty(),
            },
            DirectoryMessage::AutoSelectIfPending => if self.select_first_on_load {
                self.moving(0)
            } else {
                Seq::empty()
            },
            DirectoryMessage::ToggleMark => match self.cursor_row() {
                Some(row) => seq![
                    Effect::RestyleRow(self.cursor->0),
                    Effect::NewSelection(self.toggled(row.uri).selection()),
                ] + self.moving_on(self.cursor->0),
                None => Seq::empty(),
            },
            DirectoryMessage::DeleteSelectionPermanent => if self.operation().len() == 0 {
                Seq::empty()
            } else {
                seq![Effect::DeletePermanently(self.operation_uris())]
            },
            DirectoryMessage::InvalidateCursor => match self.cursor {
                Some(previous) => if self.entries.len() == 0 {
                    seq![Effect::RestyleCursor]
                } else {
                    self.moving(self.landing(previous) as u32).push(
                        Effect::NewSelection(self.after(msg).selection()),
                    )
                },
                None => Seq::empty(),
            },
            DirectoryMessage::ClipboardCopy(op) => {
                let uris = self.operation_uris();
                if uris.len() == 0 {
                    seq![Effect::Toast("Nothing to copy"@)]
                } else {
                    seq![
                        Effect::SetClipboard(
                            clipboard::encoded(op, uris),
                            clipboard::encoded_uri_list(uris),
                        ),
                        Effect::Toast(Panel::copied(op, uris.len())),
                    ]
                }
            },
            DirectoryMessage::ClipboardPaste => seq![Effect::Paste],
            DirectoryMessage::SetCursorPanel(_) => seq![Effect::RestyleCursor],
            DirectoryMessage::SetLayout(plan) => if plan.visible {
                seq![
                    Effect::SetVisible(true),
                    Effect::SetWidth(plan.width),
                    Effect::ShowPage(page_for(self.loading, plan.sliver)),
                ]
            } else {
                seq![Effect::SetVisible(false)]
            },
            DirectoryMessage::ResetLayout => seq![
                Effect::SetVisible(true),
                Effect::SetWidth(WIDTH),
                Effect::ShowPage(page_for(self.loading, false)),
            ],
        }
    }
}

pub proof fn lemma_positions_grow(count: nat, i: int)
    requires
        0 <= i < count <= u32::MAX,
    ensures
        positions(count).take(i + 1) == positions(count).take(i).push(i as u32),
{
    assert(positions(count).take(i + 1) =~= positions(count).take(i).push(i as u32));
}

pub proof fn lemma_no_positions(count: nat, f: spec_fn(u32) -> bool)
    ensures
        positions(count).take(0).filter(f) == Seq::<u32>::empty(),
        positions(count).take(count as int) == positions(count),
{
    assert(positions(count).take(0) =~= Seq::<u32>::empty());
    assert(Seq::<u32>::empty().filter(f) == Seq::<u32>::empty()) by {
        reveal(Seq::filter);
    }
    assert(positions(count).take(count as int) =~= positions(count));
}

pub proof fn lemma_removing_a_mark(marks: Seq<Seq<char>>, i: int)
    requires
        0 <= i < marks.len(),
        marks.no_duplicates(),
    ensures
        marks.remove(i).to_set() == marks.to_set().remove(marks[i]),
        marks.remove(i).no_duplicates(),
{
    let fewer = marks.remove(i);
    assert forall|uri: Seq<char>| fewer.to_set().contains(uri) == marks.to_set().remove(
        marks[i],
    ).contains(uri) by {
        if fewer.contains(uri) {
            let j = choose|j: int| 0 <= j < fewer.len() && fewer[j] == uri;
            assert(marks[if j < i {
                j
            } else {
                j + 1
            }] == uri);
        }
        if marks.contains(uri) && uri != marks[i] {
            let j = choose|j: int| 0 <= j < marks.len() && marks[j] == uri;
            assert(fewer[if j < i {
                j
            } else {
                j - 1
            }] == uri);
        }
    }
    assert(fewer.to_set() =~= marks.to_set().remove(marks[i]));
}

impl Panel {
    /// The rows an operation applies to are rows of the listing.
    pub proof fn lemma_operation_in_listing(self, i: int)
        requires
            self.fits(),
            0 <= i < self.operation().len(),
        ensures
            0 <= self.operation()[i] < self.entries.len(),
    {
        let all = positions(self.entries.len());
        let row = self.operation()[i];
        assert(self.operation().contains(row));
        if self.marked_rows().len() > 0 {
            all.lemma_filter_contains_rev(self.marking(), row);
        } else {
            all.lemma_filter_contains_rev(self.merely_selected(), row);
        }
        let j = choose|j: int| 0 <= j < all.len() && all[j] == row;
    }

    /// The matches are rows of the listing.
    pub proof fn lemma_matches_in_listing(self, i: int)
        requires
            self.fits(),
            0 <= i < self.matches().len(),
        ensures
            0 <= self.matches()[i] < self.entries.len(),
            search::matched(self.entries[self.matches()[i] as int].display_name, self.search_term),
            self.matches().len() <= self.entries.len(),
    {
        let all = positions(self.entries.len());
        let row = self.matches()[i];
        assert(self.matches().contains(row));
        all.lemma_filter_contains_rev(self.matching(), row);
        all.lemma_filter_pred(self.matching(), i);
        all.lemma_filter_len(self.matching());
        let j = choose|j: int| 0 <= j < all.len() && all[j] == row;
    }
}

/// A message leaves the directory and its listing as they are.
pub proof fn law_a_message_leaves_the_listing(panel: Panel, msg: DirectoryMessage<Seq<char>>)
    ensures
        panel.after(msg).dir == panel.dir,
        panel.after(msg).entries == panel.entries,
{
}

/// Marks survive everything but being toggled: moving about, searching, sorting
/// and a listing that shifted.
pub proof fn law_marks_survive(panel: Panel, msg: DirectoryMessage<Seq<char>>)
    requires
        msg !is ToggleMark,
    ensures
        panel.after(msg).marks == panel.marks,
{
}

/// Toggling a mark twice leaves everything as it was.
pub proof fn law_toggling_twice_changes_nothing(panel: Panel, uri: Seq<char>)
    ensures
        panel.toggled(uri).toggled(uri) == panel,
{
    assert(panel.toggled(uri).toggled(uri).marks =~= panel.marks);
}

pub proof fn lemma_filter_positions(panel: Panel, f: spec_fn(u32) -> bool, pos: u32)
    requires
        panel.fits(),
    ensures
        positions(panel.entries.len()).filter(f).contains(pos) <==> pos < panel.entries.len()
            && f(pos),
{
    let all = positions(panel.entries.len());
    let kept = all.filter(f);
    if kept.contains(pos) {
        let i = choose|i: int| 0 <= i < kept.len() && kept[i] == pos;
        all.lemma_filter_pred(f, i);
        all.lemma_filter_contains_rev(f, pos);
        let j = choose|j: int| 0 <= j < all.len() && all[j] == pos;
    }
    if pos < panel.entries.len() && f(pos) {
        assert(all[pos as int] == pos);
        all.lemma_filter_contains(f, pos as int);
    }
}

/// Marks win outright: once anything in the listing is marked, an operation takes
/// the marked rows and no other. Only with nothing marked does it take the
/// selected ones.
pub proof fn law_marks_win(panel: Panel, pos: u32)
    requires
        panel.fits(),
    ensures
        (exists|row: u32| row < panel.entries.len() && #[trigger] panel.marked_at(row)) ==> (
        panel.operation().contains(pos) <==> pos < panel.entries.len() && panel.marked_at(pos)),
        !(exists|row: u32| row < panel.entries.len() && #[trigger] panel.marked_at(row)) ==> (
        panel.operation().contains(pos) <==> pos < panel.entries.len()
            && panel.selected[pos as int]),
{
    lemma_filter_positions(panel, panel.marking(), pos);
    lemma_filter_positions(panel, panel.merely_selected(), pos);
    if exists|row: u32| row < panel.entries.len() && #[trigger] panel.marked_at(row) {
        let row = choose|row: u32| row < panel.entries.len() && #[trigger] panel.marked_at(row);
        lemma_filter_positions(panel, panel.marking(), row);
        assert(panel.marked_rows().contains(row));
    } else if panel.marked_rows().len() > 0 {
        let row = panel.marked_rows()[0];
        assert(panel.marked_rows().contains(row));
        lemma_filter_positions(panel, panel.marking(), row);
        assert(panel.marked_at(row));
    }
}

pub proof fn lemma_filter_keeps_order(all: Seq<u32>, f: spec_fn(u32) -> bool)
    requires
        forall|i: int, j: int| 0 <= i < j < all.len() ==> all[i] < all[j],
    ensures
        forall|i: int, j: int|
            0 <= i < j < all.filter(f).len() ==> all.filter(f)[i] < all.filter(f)[j],
    decreases all.len(),
{
    if all.len() == 0 {
        assert(all.filter(f).len() == 0) by {
            all.lemma_filter_len(f);
        }
    } else {
        let fewer = all.drop_last();
        lemma_filter_keeps_order(fewer, f);
        fewer.lemma_filter_push(all.last(), f);
        assert(fewer.push(all.last()) =~= all);
        assert forall|i: int| 0 <= i < fewer.filter(f).len() implies fewer.filter(f)[i]
            < all.last() by {
            let row = fewer.filter(f)[i];
            assert(fewer.filter(f).contains(row));
            fewer.lemma_filter_contains_rev(f, row);
            let j = choose|j: int| 0 <= j < fewer.len() && fewer[j] == row;
            assert(all[j] == row);
        }
    }
}

/// An operation takes each row once, in the order of the listing, and so do the
/// matches of a search.
pub proof fn law_rows_are_taken_in_order(panel: Panel, i: int, j: int)
    requires
        panel.fits(),
        0 <= i < j,
    ensures
        j < panel.operation().len() ==> panel.operation()[i] < panel.operation()[j],
        j < panel.matches().len() ==> panel.matches()[i] < panel.matches()[j],
{
    let all = positions(panel.entries.len());
    lemma_filter_keeps_order(all, panel.marking());
    lemma_filter_keeps_order(all, panel.merely_selected());
    lemma_filter_keeps_order(all, panel.matching());
}

/// The matches of a search are the rows whose names match.
pub proof fn law_matches_are_what_matches(panel: Panel, pos: u32)
    requires
        panel.fits(),
    ensures
        panel.matches().contains(pos) <==> pos < panel.entries.len() && search::matched(
            panel.entries[pos as int].display_name,
            panel.search_term,
        ),
{
    lemma_filter_positions(panel, panel.matching(), pos);
}

/// A listing that shifts never takes the cursor out of its panel, as long as
/// anything is listed: it would look like jumping a level up the tree.
pub proof fn law_the_cursor_survives_a_shift(panel: Panel)
    requires
        panel.fits(),
        panel.cursor is Some,
        panel.entries.len() > 0,
    ensures
        panel.after(DirectoryMessage::InvalidateCursor).has_cursor(),
{
    if let Some(uri) = panel.cursor_uri {
        lemma_find_uri(panel.entries, uri, 0);
    }
}

pub proof fn lemma_find_uri(entries: Seq<Entry<Seq<char>>>, uri: Seq<char>, from: int)
    requires
        0 <= from <= entries.len(),
    ensures
        from <= find_uri(entries, uri, from) <= entries.len(),
        find_uri(entries, uri, from) < entries.len() ==> entries[find_uri(
            entries,
            uri,
            from,
        )].uri == uri,
        forall|i: int|
            from <= i < find_uri(entries, uri, from) ==> (#[trigger] entries[i]).uri != uri,
    decreases entries.len() - from,
{
    if from < entries.len() && entries[from].uri != uri {
        lemma_find_uri(entries, uri, from + 1);
    }
}

/// When the listing shifts, the cursor follows its file, wherever that went.
pub proof fn law_the_cursor_follows_its_file(panel: Panel, at: int)
    requires
        panel.fits(),
        panel.cursor is Some,
        panel.cursor_uri is Some,
        0 <= at < panel.entries.len(),
        panel.entries[at].uri == panel.cursor_uri->0,
    ensures
        ({
            let after = panel.after(DirectoryMessage::InvalidateCursor);
            after.cursor_row() is Some && after.cursor_row()->0.uri == panel.cursor_uri->0
        }),
{
    lemma_find_uri(panel.entries, panel.cursor_uri->0, 0);
}

/// Once a file under the cursor is gone, the cursor stays on the row that took
/// its place, or on the last row.
pub proof fn law_the_cursor_stays_where_its_file_was(panel: Panel)
    requires
        panel.fits(),
        panel.cursor is Some,
        panel.cursor_uri is Some,
        panel.entries.len() > 0,
        forall|i: int|
            0 <= i < panel.entries.len() ==> (#[trigger] panel.entries[i]).uri
                != panel.cursor_uri->0,
    ensures
        panel.after(DirectoryMessage::InvalidateCursor).cursor == Some(
            if panel.cursor->0 < panel.entries.len() {
                panel.cursor->0
            } else {
                (panel.entries.len() - 1) as u32
            },
        ),
{
    lemma_find_uri(panel.entries, panel.cursor_uri->0, 0);
}

pub proof fn lemma_first_selected(selected: Seq<bool>, from: int)
    requires
        0 <= from <= selected.len(),
    ensures
        from <= first_selected(selected, from) <= selected.len(),
    decreases selected.len() - from,
{
    if from < selected.len() && !selected[from] {
        lemma_first_selected(selected, from + 1);
    }
}

/// Moving the cursor always leaves it on a row of the listing.
pub proof fn law_moving_leaves_a_cursor(panel: Panel, delta: i32)
    requires
        panel.fits(),
        panel.entries.len() > 0,
    ensures
        panel.after(DirectoryMessage::MoveCursor(delta)).has_cursor(),
        panel.after(DirectoryMessage::SelectFirst).has_cursor(),
        panel.after(DirectoryMessage::SelectLast).has_cursor(),
{
    lemma_first_selected(panel.selected, 0);
}

/// Moving down and up again comes back, unless the end of the listing held the
/// cursor up.
pub proof fn law_up_undoes_down(panel: Panel, delta: i32)
    requires
        panel.fits(),
        panel.cursor is Some,
        0 <= delta,
        panel.cursor->0 + delta < panel.entries.len(),
        panel == panel.moved(panel.cursor->0),
    ensures
        panel.after(DirectoryMessage::MoveCursor(delta)).after(
            DirectoryMessage::MoveCursor((-delta) as i32),
        ) == panel,
{
    let there = panel.after(DirectoryMessage::MoveCursor(delta));
    let back = there.after(DirectoryMessage::MoveCursor((-delta) as i32));
    assert(back =~= panel.moved(panel.cursor->0));
}

/// Going to the next match and back again comes back to the same match.
pub proof fn law_the_previous_match_undoes_the_next(panel: Panel)
    requires
        panel.fits(),
        panel.matches().len() > 0,
        0 <= panel.search_current < panel.matches().len(),
    ensures
        ({
            let there = panel.after(DirectoryMessage::SearchNext);
            let back = there.after(DirectoryMessage::SearchPrev);
            &&& there.accepts(DirectoryMessage::SearchPrev)
            &&& back.search_current == panel.search_current
            &&& back.cursor == Some(panel.matches()[panel.search_current])
        }),
{
    let there = panel.after(DirectoryMessage::SearchNext);
    let count = panel.matches().len() as int;
    let next = panel.searched().next_match();
    panel.lemma_matches_in_listing(panel.search_current);
    assert(next == if panel.search_current + 1 == count {
        0
    } else {
        panel.search_current + 1
    }) by {
        if panel.search_current + 1 == count {
            lemma_mod_self_0(count);
        } else {
            lemma_small_mod((panel.search_current + 1) as nat, count as nat);
        }
    }
    panel.lemma_matches_in_listing(next);
    assert(there.matching() =~= panel.matching());
    assert(there.matches() == panel.matches());
    assert(there.search_current == next);
}

/// A search without a term has no matches, and clearing a search leaves none.
pub proof fn law_no_term_no_matches(panel: Panel)
    requires
        panel.fits(),
    ensures
        panel.after(DirectoryMessage::SetSearch(Seq::empty())).search_matches.len() == 0,
        panel.after(DirectoryMessage::ClearSearch).search_matches.len() == 0,
        panel.after(DirectoryMessage::ClearSearch).matches().len() == 0,
{
    let cleared = panel.after(DirectoryMessage::ClearSearch);
    if cleared.matches().len() > 0 {
        cleared.lemma_matches_in_listing(0);
    }
    let found = Panel { search_term: Seq::empty(), search_current: 0, ..panel };
    if found.matches().len() > 0 {
        found.lemma_matches_in_listing(0);
    }
}

/// Unselecting moves the cursor out of the panel, whatever is marked in it.
pub proof fn law_unselecting_leaves_the_panel(panel: Panel)
    requires
        panel.fits(),
    ensures
        !panel.after(DirectoryMessage::UnselectAll).has_cursor(),
{
}

proof fn lemma_gathered(panel: Panel, count: nat, uri: Seq<char>)
    requires
        panel.fits(),
        count <= panel.entries.len(),
    ensures
        panel.gathered(count).no_duplicates(),
        panel.gathered(count).contains(uri) <==> panel.cursor_file() == Some(uri) || exists|i: int|
            0 <= i < count && (#[trigger] panel.entries[i]).uri == uri && (panel.selected[i]
                || panel.marks.contains(uri)),
        panel.cursor_file() is Some ==> panel.gathered(count).len() > 0 && panel.gathered(
            count,
        )[0] == panel.cursor_file()->0,
    decreases count,
{
    let all = panel.gathered(count);
    if count == 0 {
        if panel.cursor_file() is Some {
            assert(all[0] == panel.cursor_file()->0);
        }
    } else {
        let before = panel.gathered((count - 1) as nat);
        let row = panel.entries[count - 1];
        lemma_gathered(panel, (count - 1) as nat, uri);
        lemma_gathered(panel, (count - 1) as nat, row.uri);
        if all != before {
            assert(all == before.push(row.uri));
            assert(all[before.len() as int] == row.uri);
            if before.contains(uri) {
                let i = choose|i: int| 0 <= i < before.len() && before[i] == uri;
                assert(all[i] == uri);
            }
            if all.contains(uri) && !before.contains(uri) {
                let i = choose|i: int| 0 <= i < all.len() && all[i] == uri;
                if i < before.len() {
                    assert(before[i] == uri);
                }
            }
        }
    }
}

/// What is reported as selected is what is selected or marked, each file once,
/// with the file under the cursor leading.
pub proof fn law_the_selection_is_what_is_selected_or_marked(panel: Panel, uri: Seq<char>)
    requires
        panel.fits(),
    ensures
        match panel.selection() {
            Selection::Files(selection) => {
                &&& selection.parent == panel.dir
                &&& selection.files.len() > 0
                &&& selection.files.no_duplicates()
                &&& selection.files.contains(uri) <==> exists|i: int|
                    0 <= i < panel.entries.len() && (#[trigger] panel.entries[i]).uri == uri && (
                    panel.selected[i] || panel.marks.contains(uri))
                &&& selection.cursor_file is Some <==> panel.has_cursor()
                &&& selection.cursor_file is Some ==> selection.files[0]
                    == selection.cursor_file->0
            },
            Selection::Nothing => !exists|i: int|
                0 <= i < panel.entries.len() && (#[trigger] panel.entries[i]).uri == uri && (
                panel.selected[i] || panel.marks.contains(uri)),
        },
{
    lemma_gathered(panel, panel.entries.len(), uri);
    if panel.has_cursor() {
        assert(panel.entries[panel.cursor->0 as int].uri == panel.cursor_file()->0);
    }
}

/// A sliver stays one while its listing is loaded anew: once the spinner is gone
/// the strip is back, and never the listing that does not fit.
pub proof fn law_a_sliver_never_shows_its_listing(loading: bool)
    ensures
        page_for(loading, true) != Page::Listing,
{
}

} // verus!
