//! What a panel does, message by message, said of its rows, its marks and its cursor.

use super::directory_list;
use super::directory_list::{Directory, DirectoryMessage, Effect, Page, Selection};
use super::entry::Entry;
use super::panel;
use super::panel::Panel;
use super::search;
use crate::clipboard;
use crate::clipboard::ClipboardOp;
use crate::layout::PanelLayout;
use crate::text;
use vstd::arithmetic::div_mod::*;
use vstd::prelude::*;

verus! {

/// What a panel asks for, as texts.
pub type Ask = Effect<Seq<char>, Seq<Seq<char>>>;

/// Going to the first row puts the cursor on it and selects it and no other; going to
/// the last does the same there. Nothing else changes, and without rows nothing does.
pub proof fn law_the_ends_are_reached(panel: Panel)
    requires
        panel.selected.len() == panel.entries.len(),
        panel.entries.len() <= u32::MAX,
    ensures
        panel.entries.len() > 0 ==> ({
            let after = panel.after(DirectoryMessage::SelectFirst);
            &&& after.cursor == Some(0u32)
            &&& after.cursor_uri == Some(panel.entries[0int].uri)
            &&& after.selected.len() == panel.entries.len()
            &&& forall|i: int|
                0 <= i < panel.entries.len() ==> #[trigger] after.selected[i] == (i == 0int)
            &&& after == (Panel {
                selected: after.selected,
                cursor: after.cursor,
                cursor_uri: after.cursor_uri,
                ..panel
            })
            &&& panel.asks(DirectoryMessage::SelectFirst) == seq![
                Ask::Select(0u32),
                Ask::RestyleCursor,
                Ask::ScrollTo(0u32),
            ]
        }),
        panel.entries.len() > 0 ==> ({
            let after = panel.after(DirectoryMessage::SelectLast);
            let last = panel.entries.len() - 1;
            &&& after.cursor == Some(last as u32)
            &&& after.cursor_uri == Some(panel.entries[last].uri)
            &&& after.selected.len() == panel.entries.len()
            &&& forall|i: int|
                0 <= i < panel.entries.len() ==> #[trigger] after.selected[i] == (i == last)
            &&& after == (Panel {
                selected: after.selected,
                cursor: after.cursor,
                cursor_uri: after.cursor_uri,
                ..panel
            })
            &&& panel.asks(DirectoryMessage::SelectLast) == seq![
                Ask::Select(last as u32),
                Ask::RestyleCursor,
                Ask::ScrollTo(last as u32),
            ]
        }),
        panel.entries.len() == 0 ==> {
            &&& panel.after(DirectoryMessage::SelectFirst) == panel
            &&& panel.after(DirectoryMessage::SelectLast) == panel
            &&& panel.asks(DirectoryMessage::SelectFirst).len() == 0
            &&& panel.asks(DirectoryMessage::SelectLast).len() == 0
        },
{
}

/// Moving by some rows puts the cursor that many rows further, or as far as there are
/// any. It starts from the row the cursor is on, else from the first selected row.
pub proof fn law_moving_goes_as_far_as_it_is_told(panel: Panel, from: int, delta: i32)
    requires
        panel.selected.len() == panel.entries.len(),
        panel.entries.len() <= u32::MAX,
        0 <= from < panel.entries.len(),
        panel.cursor == Some(from as u32) || {
            &&& panel.cursor is None || panel.cursor->0 >= panel.entries.len()
            &&& panel.selected[from]
            &&& forall|i: int| 0 <= i < from ==> !#[trigger] panel.selected[i]
        },
    ensures
        ({
            let after = panel.after(DirectoryMessage::MoveCursor(delta));
            let last = panel.entries.len() - 1;
            let row = if from + delta < 0 {
                0
            } else if from + delta > last {
                last
            } else {
                from + delta
            };
            &&& after.cursor == Some(row as u32)
            &&& after.cursor_uri == Some(panel.entries[row].uri)
            &&& after.selected.len() == panel.entries.len()
            &&& forall|i: int|
                0 <= i < panel.entries.len() ==> #[trigger] after.selected[i] == (i == row)
            &&& after == (Panel {
                selected: after.selected,
                cursor: after.cursor,
                cursor_uri: after.cursor_uri,
                ..panel
            })
            &&& panel.asks(DirectoryMessage::MoveCursor(delta)) == seq![
                Ask::Select(row as u32),
                Ask::RestyleCursor,
                Ask::ScrollTo(row as u32),
            ]
        }),
{
    if !(panel.cursor == Some(from as u32)) {
        lemma_first_selected_is(panel.selected, 0, from);
    }
}

proof fn lemma_first_selected_is(selected: Seq<bool>, start: int, at: int)
    requires
        0 <= start <= at < selected.len(),
        selected[at],
        forall|i: int| start <= i < at ==> !#[trigger] selected[i],
    ensures
        panel::first_selected(selected, start) == at,
    decreases at - start,
{
    if start < at {
        lemma_first_selected_is(selected, start + 1, at);
    }
}

proof fn lemma_none_selected(selected: Seq<bool>, start: int)
    requires
        0 <= start <= selected.len(),
        forall|i: int| 0 <= i < selected.len() ==> !#[trigger] selected[i],
    ensures
        panel::first_selected(selected, start) == selected.len(),
    decreases selected.len() - start,
{
    if start < selected.len() {
        lemma_none_selected(selected, start + 1);
    }
}

/// With no row to start from, moving down goes to the first row and moving up to the
/// last. Without rows nothing happens.
pub proof fn law_moving_from_nowhere_comes_in_at_an_end(panel: Panel, delta: i32)
    requires
        panel.selected.len() == panel.entries.len(),
        panel.entries.len() <= u32::MAX,
        panel.cursor is None || panel.cursor->0 >= panel.entries.len(),
        forall|i: int| 0 <= i < panel.entries.len() ==> !#[trigger] panel.selected[i],
    ensures
        panel.entries.len() > 0 && delta >= 0 ==> panel.after(DirectoryMessage::MoveCursor(delta))
            == panel.after(DirectoryMessage::SelectFirst) && panel.asks(
            DirectoryMessage::MoveCursor(delta),
        ) == panel.asks(DirectoryMessage::SelectFirst),
        panel.entries.len() > 0 && delta < 0 ==> panel.after(DirectoryMessage::MoveCursor(delta))
            == panel.after(DirectoryMessage::SelectLast) && panel.asks(
            DirectoryMessage::MoveCursor(delta),
        ) == panel.asks(DirectoryMessage::SelectLast),
        panel.entries.len() == 0 ==> panel.after(DirectoryMessage::MoveCursor(delta)) == panel
            && panel.asks(DirectoryMessage::MoveCursor(delta)).len() == 0,
{
    lemma_none_selected(panel.selected, 0);
}

/// A panel that was to select its first row does so once anything is listed, and only
/// once; any other panel is left alone.
pub proof fn law_the_first_row_is_selected_once(panel: Panel)
    requires
        panel.selected.len() == panel.entries.len(),
        panel.entries.len() <= u32::MAX,
    ensures
        ({
            let msg = DirectoryMessage::<Seq<char>>::AutoSelectIfPending;
            let after = panel.after(msg);
            if panel.select_first_on_load && panel.entries.len() > 0 {
                &&& !after.select_first_on_load
                &&& Panel { select_first_on_load: true, ..after } == panel.after(
                    DirectoryMessage::SelectFirst,
                )
                &&& panel.asks(msg) == panel.asks(DirectoryMessage::SelectFirst)
                &&& after.after(msg) == after
                &&& after.asks(msg).len() == 0
            } else {
                &&& after == panel
                &&& panel.asks(msg).len() == 0
            }
        }),
{
    let after = panel.after(DirectoryMessage::AutoSelectIfPending);
    if panel.select_first_on_load && panel.entries.len() > 0 {
        assert(Panel { select_first_on_load: true, ..after } =~= panel.after(
            DirectoryMessage::SelectFirst,
        ));
    }
}

/// Marking turns the mark of the row under the cursor and of no other file, tells the
/// window what is selected now, and then the cursor goes on by exactly one row, or
/// stays if it is on the last. Without a row under the cursor nothing happens.
pub proof fn law_marking_goes_on_by_one_row(panel: Panel, row: int, uri: Seq<char>)
    requires
        panel.selected.len() == panel.entries.len(),
        panel.entries.len() <= u32::MAX,
    ensures
        panel.cursor == Some(row as u32) && 0 <= row < panel.entries.len() ==> ({
            let msg = DirectoryMessage::<Seq<char>>::ToggleMark;
            let after = panel.after(msg);
            let told = Panel { marks: after.marks, ..panel }.selection();
            &&& after.marks.contains(uri) == (panel.marks.contains(uri) != (uri
                == panel.entries[row].uri))
            &&& row + 1 < panel.entries.len() ==> {
                &&& after.cursor == Some((row + 1) as u32)
                &&& after.cursor_uri == Some(panel.entries[(row + 1)].uri)
                &&& after.selected.len() == panel.entries.len()
                &&& forall|i: int|
                    0 <= i < panel.entries.len() ==> #[trigger] after.selected[i] == (i == (row + 1))
                &&& panel.asks(msg) == seq![
                    Ask::RestyleRow(row as u32),
                    Ask::NewSelection(told),
                    Ask::Select((row + 1) as u32),
                    Ask::RestyleCursor,
                    Ask::ScrollTo((row + 1) as u32),
                ]
            }
            &&& row + 1 == panel.entries.len() ==> {
                &&& after.cursor == panel.cursor
                &&& after.cursor_uri == panel.cursor_uri
                &&& after.selected == panel.selected
                &&& panel.asks(msg) == seq![Ask::RestyleRow(row as u32), Ask::NewSelection(told)]
            }
            &&& after == (Panel {
                marks: after.marks,
                selected: after.selected,
                cursor: after.cursor,
                cursor_uri: after.cursor_uri,
                ..panel
            })
        }),
        panel.cursor is None || panel.cursor->0 >= panel.entries.len() ==> panel.after(
            DirectoryMessage::ToggleMark,
        ) == panel && panel.asks(DirectoryMessage::ToggleMark).len() == 0,
{
    let msg = DirectoryMessage::<Seq<char>>::ToggleMark;
    if panel.cursor == Some(row as u32) && 0 <= row < panel.entries.len() {
        let after = panel.after(msg);
        let toggled = panel.toggled(panel.entries[row].uri);
        assert(toggled == Panel { marks: after.marks, ..panel });
        if row + 1 < panel.entries.len() {
            assert(panel.asks(msg) =~= seq![
                Ask::RestyleRow(row as u32),
                Ask::NewSelection(toggled.selection()),
                Ask::Select((row + 1) as u32),
                Ask::RestyleCursor,
                Ask::ScrollTo((row + 1) as u32),
            ]);
        } else {
            assert(panel.asks(msg) =~= seq![
                Ask::RestyleRow(row as u32),
                Ask::NewSelection(toggled.selection()),
            ]);
        }
    }
}

/// When a listing has shifted, the cursor goes to the first row that shows its file; if
/// none does it stays at its row, or at the last if that is gone. That row is selected
/// and no other, and the window is told what is selected.
pub proof fn law_a_shift_is_answered(panel: Panel, row: int)
    requires
        panel.selected.len() == panel.entries.len(),
        panel.entries.len() <= u32::MAX,
        panel.cursor is Some,
        0 <= row < panel.entries.len(),
        ({
            &&& panel.cursor_uri is Some
            &&& panel.entries[row].uri == panel.cursor_uri->0
            &&& forall|i: int| 0 <= i < row
                ==> (#[trigger] panel.entries[i]).uri != panel.cursor_uri->0
        }) || ({
            &&& panel.cursor_uri is None || forall|i: int|
                0 <= i < panel.entries.len() ==> (#[trigger] panel.entries[i]).uri
                    != panel.cursor_uri->0
            &&& row == panel.cursor->0 || (row == panel.entries.len() - 1 && row < panel.cursor->0)
        }),
    ensures
        ({
            let msg = DirectoryMessage::<Seq<char>>::InvalidateCursor;
            let after = panel.after(msg);
            &&& after.cursor == Some(row as u32)
            &&& after.cursor_uri == Some(panel.entries[row].uri)
            &&& after.selected.len() == panel.entries.len()
            &&& forall|i: int|
                0 <= i < panel.entries.len() ==> #[trigger] after.selected[i] == (i == row)
            &&& after == (Panel {
                selected: after.selected,
                cursor: after.cursor,
                cursor_uri: after.cursor_uri,
                ..panel
            })
            &&& panel.asks(msg) == seq![
                Ask::Select(row as u32),
                Ask::RestyleCursor,
                Ask::ScrollTo(row as u32),
                Ask::NewSelection(after.selection()),
            ]
        }),
{
    if let Some(uri) = panel.cursor_uri {
        panel::lemma_find_uri(panel.entries, uri, 0);
        let found = panel::find_uri(panel.entries, uri, 0);
        if panel.entries[row].uri == uri {
            assert(found == row) by {
                if found < row {
                    assert(panel.entries[found].uri != uri);
                }
            }
        }
    }
    let msg = DirectoryMessage::<Seq<char>>::InvalidateCursor;
    assert(panel.asks(msg) =~= seq![
        Ask::Select(row as u32),
        Ask::RestyleCursor,
        Ask::ScrollTo(row as u32),
        Ask::NewSelection(panel.after(msg).selection()),
    ]);
}

/// A cursor with no rows left is given up, and where there was none a shift brings
/// none.
pub proof fn law_a_shift_brings_no_cursor(panel: Panel)
    requires
        panel.cursor is None || panel.entries.len() == 0,
    ensures
        ({
            let msg = DirectoryMessage::<Seq<char>>::InvalidateCursor;
            let after = panel.after(msg);
            &&& after.cursor is None
            &&& after == (Panel { cursor: after.cursor, ..panel })
            &&& panel.cursor is None ==> panel.asks(msg).len() == 0
            &&& panel.cursor is Some ==> panel.asks(msg) == seq![Ask::RestyleCursor]
        }),
{
}

/// Searching remembers the term and the rows that match it, in order, starts at the
/// first of them and puts the cursor there. Without a match the cursor stays.
pub proof fn law_a_search_goes_to_its_first_match(panel: Panel, term: Seq<char>, row: int)
    requires
        panel.selected.len() == panel.entries.len(),
        panel.entries.len() <= u32::MAX,
        0 <= row < panel.entries.len() ==> search::matched(panel.entries[row].display_name, term),
        forall|i: int|
            0 <= i < panel.entries.len() && i < row ==> !search::matched(
                (#[trigger] panel.entries[i]).display_name,
                term,
            ),
        0 <= row <= panel.entries.len(),
        0 <= panel.search_current < u32::MAX,
    ensures
        ({
            let msg = DirectoryMessage::SetSearch(term);
            let after = panel.after(msg);
            &&& after.search_term == term
            &&& after.search_current == 0
            &&& row < panel.entries.len() ==> {
                &&& after.search_matches.len() > 0
                &&& after.search_matches[0] == row
                &&& after.cursor == Some(row as u32)
                &&& after.cursor_uri == Some(panel.entries[row].uri)
                &&& after.selected.len() == panel.entries.len()
                &&& forall|i: int|
                    0 <= i < panel.entries.len() ==> #[trigger] after.selected[i] == (i == row)
                &&& panel.asks(msg) == seq![
                    Ask::SetSearchTerm(term),
                    Ask::Select(row as u32),
                    Ask::RestyleCursor,
                    Ask::ScrollTo(row as u32),
                    Ask::RefreshHighlights,
                ]
            }
            &&& row == panel.entries.len() ==> {
                &&& after.search_matches.len() == 0
                &&& after.cursor == panel.cursor
                &&& after.cursor_uri == panel.cursor_uri
                &&& after.selected == panel.selected
                &&& panel.asks(msg) == seq![Ask::SetSearchTerm(term), Ask::RefreshHighlights]
            }
            &&& after == (Panel {
                search_term: after.search_term,
                search_matches: after.search_matches,
                search_current: after.search_current,
                selected: after.selected,
                cursor: after.cursor,
                cursor_uri: after.cursor_uri,
                ..panel
            })
        }),
{
    let msg = DirectoryMessage::SetSearch(term);
    let found = Panel { search_term: term, search_current: 0, ..panel };
    let seen = Panel { search_term: term, ..panel };
    assert(found.matching() =~= seen.matching());
    assert(found.matches() == seen.matches());
    if row < panel.entries.len() {
        panel::law_matches_are_what_matches(found, row as u32);
        let i = choose|i: int| 0 <= i < found.matches().len() && found.matches()[i] == row as u32;
        let first = found.matches()[0];
        found.lemma_matches_in_listing(0);
        if i > 0 {
            panel::law_rows_are_taken_in_order(found, 0, i);
            assert(!search::matched(panel.entries[first as int].display_name, term));
        }
        assert(first == row as u32);
        assert(panel.asks(msg) =~= seq![
            Ask::SetSearchTerm(term),
            Ask::Select(row as u32),
            Ask::RestyleCursor,
            Ask::ScrollTo(row as u32),
            Ask::RefreshHighlights,
        ]);
    } else {
        if found.matches().len() > 0 {
            let first = found.matches()[0];
            found.lemma_matches_in_listing(0);
            assert(!search::matched(panel.entries[first as int].display_name, term));
        }
        assert(panel.asks(msg) =~= seq![Ask::SetSearchTerm(term), Ask::RefreshHighlights]);
    }
}

/// What is remembered of a search are all rows that match and no others, each once and
/// in the order of the listing, and it is brought up to date by every step.
pub proof fn law_all_matches_are_remembered(
    panel: Panel,
    msg: DirectoryMessage<Seq<char>>,
    pos: u32,
    i: int,
    j: int,
)
    requires
        panel.selected.len() == panel.entries.len(),
        panel.entries.len() <= u32::MAX,
        0 <= panel.search_current < u32::MAX,
        msg is SetSearch || msg is SearchNext || msg is SearchPrev,
    ensures
        ({
            let after = panel.after(msg);
            let term = if msg is SetSearch {
                msg->SetSearch_0
            } else {
                panel.search_term
            };
            &&& after.search_term == term
            &&& after.search_matches.contains(pos) <==> pos < panel.entries.len()
                && search::matched(panel.entries[pos as int].display_name, term)
            &&& 0 <= i < j < after.search_matches.len() ==> after.search_matches[i]
                < after.search_matches[j]
        }),
{
    let term = if msg is SetSearch {
        msg->SetSearch_0
    } else {
        panel.search_term
    };
    let found = Panel { search_term: term, ..panel };
    let anew = Panel { search_term: term, search_current: 0, ..panel };
    assert(found.matching() =~= anew.matching());
    assert(found.matching() =~= panel.searched().matching() || msg is SetSearch);
    panel::law_matches_are_what_matches(found, pos);
    if 0 <= i < j {
        panel::law_rows_are_taken_in_order(found, i, j);
    }
}

/// Stepping through the matches goes to the one behind the current one, and behind the
/// last to the first; stepping back goes to the one before it, and before the first to
/// the last. The cursor goes there, and without a match it stays.
pub proof fn law_matches_are_stepped_through(panel: Panel)
    requires
        panel.selected.len() == panel.entries.len(),
        panel.entries.len() <= u32::MAX,
        0 <= panel.search_current < u32::MAX,
    ensures
        ({
            let msg = DirectoryMessage::<Seq<char>>::SearchNext;
            let after = panel.after(msg);
            let count = after.search_matches.len() as int;
            let row = after.search_matches[after.search_current] as int;
            &&& count > 0 ==> {
                &&& 0 <= after.search_current < count
                &&& panel.search_current + 1 < count ==> after.search_current
                    == panel.search_current + 1
                &&& panel.search_current + 1 == count ==> after.search_current == 0
                &&& (panel.search_current + 1 - after.search_current) % count == 0
                &&& 0 <= row < panel.entries.len()
                &&& after.cursor == Some(row as u32)
                &&& after.cursor_uri == Some(panel.entries[row].uri)
                &&& after.selected.len() == panel.entries.len()
                &&& forall|i: int|
                    0 <= i < panel.entries.len() ==> #[trigger] after.selected[i] == (i == row)
                &&& panel.asks(msg) == seq![
                    Ask::Select(row as u32),
                    Ask::RestyleCursor,
                    Ask::ScrollTo(row as u32),
                ]
            }
            &&& count == 0 ==> after == Panel { search_matches: Seq::empty(), ..panel }
                && panel.asks(msg).len() == 0
            &&& after == (Panel {
                search_matches: after.search_matches,
                search_current: after.search_current,
                selected: after.selected,
                cursor: after.cursor,
                cursor_uri: after.cursor_uri,
                ..panel
            })
        }),
        panel.accepts(DirectoryMessage::SearchPrev) ==> ({
            let msg = DirectoryMessage::<Seq<char>>::SearchPrev;
            let after = panel.after(msg);
            let count = after.search_matches.len() as int;
            let row = after.search_matches[after.search_current] as int;
            &&& count > 0 ==> {
                &&& after.search_current == if panel.search_current == 0 {
                    count - 1
                } else {
                    panel.search_current - 1
                }
                &&& 0 <= row < panel.entries.len()
                &&& after.cursor == Some(row as u32)
                &&& after.cursor_uri == Some(panel.entries[row].uri)
                &&& after.selected.len() == panel.entries.len()
                &&& forall|i: int|
                    0 <= i < panel.entries.len() ==> #[trigger] after.selected[i] == (i == row)
                &&& panel.asks(msg) == seq![
                    Ask::Select(row as u32),
                    Ask::RestyleCursor,
                    Ask::ScrollTo(row as u32),
                ]
            }
            &&& count == 0 ==> after == Panel { search_matches: Seq::empty(), ..panel }
                && panel.asks(msg).len() == 0
            &&& after == (Panel {
                search_matches: after.search_matches,
                search_current: after.search_current,
                selected: after.selected,
                cursor: after.cursor,
                cursor_uri: after.cursor_uri,
                ..panel
            })
        }),
{
    let found = panel.searched();
    let count = found.search_matches.len() as int;
    if count > 0 {
        let next = found.next_match();
        lemma_mod_bound(panel.search_current + 1, count);
        if panel.search_current + 1 < count {
            lemma_small_mod((panel.search_current + 1) as nat, count as nat);
        } else if panel.search_current + 1 == count {
            lemma_mod_self_0(count);
        }
        assert((panel.search_current + 1 - next) % count == 0) by {
            lemma_fundamental_div_mod(panel.search_current + 1, count);
            lemma_mod_multiples_basic((panel.search_current + 1) / count, count);
            assert(panel.search_current + 1 - next == ((panel.search_current + 1) / count) * count)
                by (nonlinear_arith)
                requires
                    panel.search_current + 1 == count * ((panel.search_current + 1) / count) + next,
            ;
        }
        panel.lemma_matches_in_listing(next);
        let msg = DirectoryMessage::<Seq<char>>::SearchNext;
        let row = found.search_matches[next] as int;
        assert(panel.asks(msg) =~= seq![
            Ask::Select(row as u32),
            Ask::RestyleCursor,
            Ask::ScrollTo(row as u32),
        ]);
        if panel.accepts(DirectoryMessage::SearchPrev) {
            panel.lemma_matches_in_listing(found.previous_match());
        }
    } else {
        assert(found.search_matches =~= Seq::<u32>::empty());
    }
}

/// Clearing a search forgets the term and the matches, and nothing else.
pub proof fn law_a_cleared_search_leaves_no_trace(panel: Panel)
    ensures
        ({
            let msg = DirectoryMessage::<Seq<char>>::ClearSearch;
            let after = panel.after(msg);
            &&& after.search_term.len() == 0
            &&& after.search_matches.len() == 0
            &&& after.search_current == 0
            &&& after == (Panel {
                search_term: after.search_term,
                search_matches: after.search_matches,
                search_current: after.search_current,
                ..panel
            })
            &&& panel.asks(msg) == seq![Ask::SetSearchTerm(Seq::empty()), Ask::RefreshHighlights]
        }),
{
}

/// The rows an operation applies to, in the order of the listing: every marked row, or
/// every selected one if none is marked.
proof fn lemma_operation_rows(panel: Panel, rows: Seq<u32>)
    requires
        panel.selected.len() == panel.entries.len(),
        panel.entries.len() <= u32::MAX,
        forall|i: int, j: int| 0 <= i < j < rows.len() ==> rows[i] < rows[j],
        forall|pos: u32|
            #[trigger] rows.contains(pos) <==> pos < panel.entries.len() && if exists|k: int|
                0 <= k < panel.entries.len() && panel.marks.contains(
                    (#[trigger] panel.entries[k]).uri,
                ) {
                panel.marks.contains(panel.entries[pos as int].uri)
            } else {
                panel.selected[pos as int]
            },
    ensures
        panel.operation() == rows,
{
    let taken = panel.operation();
    let fitting = Panel { search_current: 0, ..panel };
    assert(fitting.marking() =~= panel.marking());
    assert(fitting.merely_selected() =~= panel.merely_selected());
    assert(fitting.operation() == taken);
    assert forall|pos: u32| taken.contains(pos) <==> rows.contains(pos) by {
        panel::law_marks_win(fitting, pos);
        if exists|row: u32| row < panel.entries.len() && #[trigger] fitting.marked_at(row) {
            let row = choose|row: u32| row < panel.entries.len()
                && #[trigger] fitting.marked_at(row);
            assert(panel.marks.contains(panel.entries[row as int].uri));
        }
        if exists|k: int| 0 <= k < panel.entries.len() && panel.marks.contains(
            (#[trigger] panel.entries[k]).uri,
        ) {
            let k = choose|k: int| 0 <= k < panel.entries.len() && panel.marks.contains(
                (#[trigger] panel.entries[k]).uri,
            );
            assert(fitting.marked_at(k as u32));
        }
    }
    assert forall|i: int, j: int| 0 <= i < j < taken.len() implies taken[i] < taken[j] by {
        panel::law_rows_are_taken_in_order(fitting, i, j);
    }
    lemma_increasing_lists_are_one(taken, rows);
}

/// Two increasing lists of the same numbers are one list.
proof fn lemma_increasing_lists_are_one(a: Seq<u32>, b: Seq<u32>)
    requires
        forall|i: int, j: int| 0 <= i < j < a.len() ==> a[i] < a[j],
        forall|i: int, j: int| 0 <= i < j < b.len() ==> b[i] < b[j],
        forall|pos: u32| a.contains(pos) <==> b.contains(pos),
    ensures
        a == b,
    decreases a.len(),
{
    if a.len() == 0 {
        if b.len() > 0 {
            assert(b.contains(b[0]));
        }
        assert(a =~= b);
    } else {
        assert(a.contains(a[a.len() - 1]));
        assert(b.len() > 0);
        assert(b.contains(b[b.len() - 1]));
        let i = choose|i: int| 0 <= i < b.len() && b[i] == a.last();
        let j = choose|j: int| 0 <= j < a.len() && a[j] == b.last();
        assert(a.last() == b.last());
        let fewer = a.drop_last();
        let other = b.drop_last();
        assert forall|pos: u32| fewer.contains(pos) <==> other.contains(pos) by {
            if fewer.contains(pos) {
                let k = choose|k: int| 0 <= k < fewer.len() && fewer[k] == pos;
                assert(a[k] == pos);
                assert(a.contains(pos));
                assert(b.contains(pos));
                let m = choose|m: int| 0 <= m < b.len() && b[m] == pos;
                assert(other[m] == pos);
            }
            if other.contains(pos) {
                let k = choose|k: int| 0 <= k < other.len() && other[k] == pos;
                assert(b[k] == pos);
                assert(b.contains(pos));
                assert(a.contains(pos));
                let m = choose|m: int| 0 <= m < a.len() && a[m] == pos;
                assert(fewer[m] == pos);
            }
        }
        lemma_increasing_lists_are_one(fewer, other);
        assert(a =~= fewer.push(a.last()));
        assert(b =~= other.push(b.last()));
    }
}

/// Trashing, restoring, deleting and putting on the clipboard take all rows that are
/// meant, and only those, once each and in the order of the listing: every marked row,
/// or every selected one if none is marked. Each file is given by its URI, and what is
/// trashed by its name too. With no row to take, deleting does nothing and copying says
/// so. None of it changes the panel.
pub proof fn law_an_operation_takes_every_row_that_is_meant(
    panel: Panel,
    rows: Seq<u32>,
    op: ClipboardOp,
)
    requires
        panel.selected.len() == panel.entries.len(),
        panel.entries.len() <= u32::MAX,
        forall|i: int, j: int| 0 <= i < j < rows.len() ==> rows[i] < rows[j],
        forall|pos: u32|
            #[trigger] rows.contains(pos) <==> pos < panel.entries.len() && if exists|k: int|
                0 <= k < panel.entries.len() && panel.marks.contains(
                    (#[trigger] panel.entries[k]).uri,
                ) {
                panel.marks.contains(panel.entries[pos as int].uri)
            } else {
                panel.selected[pos as int]
            },
    ensures
        ({
            let uris = rows.map_values(|pos: u32| panel.entries[pos as int].uri);
            let names = rows.map_values(|pos: u32| panel.entries[pos as int].display_name);
            let trash = DirectoryMessage::<Seq<char>>::TrashSelection;
            let restore = DirectoryMessage::<Seq<char>>::RestoreSelectionFromTrash;
            let delete = DirectoryMessage::<Seq<char>>::DeleteSelectionPermanent;
            let copy = DirectoryMessage::<Seq<char>>::ClipboardCopy(op);
            let verb = if op == ClipboardOp::Copy {
                "copied"@
            } else {
                "cut"@
            };
            &&& panel.asks(trash) == seq![Ask::Trash(uris, names)]
            &&& panel.asks(restore) == seq![Ask::Restore(uris)]
            &&& rows.len() == 0 ==> panel.asks(delete).len() == 0 && panel.asks(copy) == seq![
                Ask::Toast("Nothing to copy"@),
            ]
            &&& rows.len() > 0 ==> panel.asks(delete) == seq![Ask::DeletePermanently(uris)]
            &&& rows.len() == 1 ==> panel.asks(copy) == seq![
                Ask::SetClipboard(clipboard::encoded(op, uris), clipboard::encoded_uri_list(uris)),
                Ask::Toast("1 file "@ + verb),
            ]
            &&& rows.len() > 1 ==> panel.asks(copy) == seq![
                Ask::SetClipboard(clipboard::encoded(op, uris), clipboard::encoded_uri_list(uris)),
                Ask::Toast(text::decimal(rows.len()) + " files "@ + verb),
            ]
            &&& panel.after(trash) == panel
            &&& panel.after(restore) == panel
            &&& panel.after(delete) == panel
            &&& panel.after(copy) == panel
        }),
{
    lemma_operation_rows(panel, rows);
    let uris = rows.map_values(|pos: u32| panel.entries[pos as int].uri);
    let names = rows.map_values(|pos: u32| panel.entries[pos as int].display_name);
    assert(panel.operation_uris() =~= uris);
    assert(panel.operation_names() =~= names);
}

/// There is always exactly one such list of rows to take.
pub proof fn law_there_are_rows_to_take(panel: Panel) -> (rows: Seq<u32>)
    requires
        panel.selected.len() == panel.entries.len(),
        panel.entries.len() <= u32::MAX,
    ensures
        forall|i: int, j: int| 0 <= i < j < rows.len() ==> rows[i] < rows[j],
        forall|pos: u32|
            #[trigger] rows.contains(pos) <==> pos < panel.entries.len() && if exists|k: int|
                0 <= k < panel.entries.len() && panel.marks.contains(
                    (#[trigger] panel.entries[k]).uri,
                ) {
                panel.marks.contains(panel.entries[pos as int].uri)
            } else {
                panel.selected[pos as int]
            },
        panel.asks(DirectoryMessage::TrashSelection).len() == 1,
        panel.asks(DirectoryMessage::TrashSelection)[0] matches Effect::Trash(uris, names)
            && uris.len() == rows.len() && names.len() == rows.len(),
{
    let fitting = Panel { search_current: 0, ..panel };
    let rows = fitting.operation();
    assert(fitting.marking() =~= panel.marking());
    assert(fitting.merely_selected() =~= panel.merely_selected());
    assert forall|i: int, j: int| 0 <= i < j < rows.len() implies rows[i] < rows[j] by {
        panel::law_rows_are_taken_in_order(fitting, i, j);
    }
    assert forall|pos: u32|
        #[trigger] rows.contains(pos) <==> pos < panel.entries.len() && if exists|k: int|
            0 <= k < panel.entries.len()
                && panel.marks.contains((#[trigger] panel.entries[k]).uri) {
            panel.marks.contains(panel.entries[pos as int].uri)
        } else {
            panel.selected[pos as int]
        } by {
        panel::law_marks_win(fitting, pos);
        if exists|row: u32| row < panel.entries.len() && #[trigger] fitting.marked_at(row) {
            let row = choose|row: u32| row < panel.entries.len()
                && #[trigger] fitting.marked_at(row);
            assert(panel.marks.contains(panel.entries[row as int].uri));
        }
        if exists|k: int| 0 <= k < panel.entries.len() && panel.marks.contains(
            (#[trigger] panel.entries[k]).uri,
        ) {
            let k = choose|k: int| 0 <= k < panel.entries.len() && panel.marks.contains(
                (#[trigger] panel.entries[k]).uri,
            );
            assert(fitting.marked_at(k as u32));
        }
    }
    rows
}

/// Renaming and opening are about the row under the cursor, selected or not, and
/// happen only if there is one; a sound is played instead of opened. A row that is
/// activated is opened, whatever it is.
pub proof fn law_the_row_under_the_cursor_is_opened(panel: Panel, row: int, kind: Seq<char>)
    requires
        0 <= row < panel.entries.len() <= u32::MAX,
    ensures
        ({
            let rename = DirectoryMessage::<Seq<char>>::RenameSelected;
            let open = DirectoryMessage::<Seq<char>>::OpenSelected;
            let activate = DirectoryMessage::<Seq<char>>::OpenItemAtPosition(row as u32);
            let entry = panel.entries[row];
            let sound = entry.mime_type is Some && "audio/"@.is_prefix_of(entry.mime_type->0);
            &&& panel.asks(activate) == seq![Ask::Open(entry.uri)]
            &&& panel.cursor == Some(row as u32) ==> {
                &&& panel.asks(rename) == seq![Ask::Rename(entry.uri)]
                &&& sound ==> panel.asks(open) == seq![Ask::ToggleAudioPreview]
                &&& !sound ==> panel.asks(open) == seq![Ask::Open(entry.uri)]
            }
            &&& panel.cursor is None || panel.cursor->0 >= panel.entries.len() ==> panel.asks(
                rename,
            ).len() == 0 && panel.asks(open).len() == 0
            &&& panel.after(rename) == panel
            &&& panel.after(open) == panel
            &&& panel.after(activate) == panel
            &&& panel.asks(DirectoryMessage::ChooseAndLaunchApp(kind)) == seq![
                Ask::ChooseAndLaunchApp(kind),
            ]
            &&& panel.after(DirectoryMessage::ChooseAndLaunchApp(kind)) == panel
            &&& panel.asks(DirectoryMessage::ShowNewFolderDialog) == seq![Ask::ShowNewFolderDialog]
            &&& panel.after(DirectoryMessage::ShowNewFolderDialog) == panel
            &&& panel.asks(DirectoryMessage::ClipboardPaste) == seq![Ask::Paste]
            &&& panel.after(DirectoryMessage::ClipboardPaste) == panel
        }),
{
}

/// Unselecting unselects every row and leaves the cursor where it is. A panel that is
/// told whether the cursor is its own remembers that, and nothing else.
pub proof fn law_unselecting_and_owning_change_one_thing(panel: Panel, owns: bool)
    ensures
        ({
            let after = panel.after(DirectoryMessage::UnselectAll);
            &&& after.selected.len() == panel.entries.len()
            &&& forall|i: int| 0 <= i < panel.entries.len() ==> !#[trigger] after.selected[i]
            &&& after == (Panel { selected: after.selected, ..panel })
            &&& panel.asks(DirectoryMessage::UnselectAll) == seq![Ask::UnselectAll]
        }),
        ({
            let after = panel.after(DirectoryMessage::SetCursorPanel(owns));
            &&& after.is_cursor_panel == owns
            &&& after == (Panel { is_cursor_panel: after.is_cursor_panel, ..panel })
            &&& panel.asks(DirectoryMessage::SetCursorPanel(owns)) == seq![Ask::RestyleCursor]
        }),
{
}

/// A panel takes the width it is given and shows its listing, a strip or a spinner: the
/// spinner while it loads, then the strip if it is told to. One that is squeezed out is
/// hidden and otherwise left as it was. Falling back, every panel is as wide as the
/// next, and shows its listing.
pub proof fn law_a_panel_takes_the_layout_it_is_given(panel: Panel, plan: PanelLayout)
    ensures
        ({
            let after = panel.after(DirectoryMessage::SetLayout(plan));
            let page = if panel.loading {
                Page::Spinner
            } else if plan.sliver {
                Page::Sliver
            } else {
                Page::Listing
            };
            &&& plan.visible ==> after.sliver == plan.sliver && panel.asks(
                DirectoryMessage::SetLayout(plan),
            ) == seq![Ask::SetVisible(true), Ask::SetWidth(plan.width), Ask::ShowPage(page)]
            &&& !plan.visible ==> after.sliver == panel.sliver && panel.asks(
                DirectoryMessage::SetLayout(plan),
            ) == seq![Ask::SetVisible(false)]
            &&& after == (Panel { sliver: after.sliver, ..panel })
        }),
        ({
            let after = panel.after(DirectoryMessage::ResetLayout);
            let page = if panel.loading {
                Page::Spinner
            } else {
                Page::Listing
            };
            &&& !after.sliver
            &&& panel.asks(DirectoryMessage::ResetLayout) == seq![
                Ask::SetVisible(true),
                Ask::SetWidth(200),
                Ask::ShowPage(page),
            ]
            &&& after == (Panel { sliver: after.sliver, ..panel })
        }),
{
}

/// A panel shows the spinner exactly while it loads, and its listing exactly if it
/// neither loads nor is a strip.
pub proof fn law_a_page_for_each_state(loading: bool, sliver: bool)
    ensures
        panel::page_for(loading, sliver) == Page::Spinner <==> loading,
        panel::page_for(loading, sliver) == Page::Sliver <==> !loading && sliver,
        panel::page_for(loading, sliver) == Page::Listing <==> !loading && !sliver,
{
}

/// A new panel lists nothing yet: nothing is marked, selected or searched, the cursor
/// is not in it, and it loads.
pub proof fn law_a_new_panel_is_empty(path: Seq<char>, select_first_on_load: bool)
    ensures
        ({
            let new = panel::fresh(path, select_first_on_load);
            &&& new.dir == path
            &&& new.select_first_on_load == select_first_on_load
            &&& new.entries.len() == 0
            &&& new.selected.len() == 0
            &&& new.cursor is None
            &&& new.cursor_uri is None
            &&& forall|uri: Seq<char>| !#[trigger] new.marks.contains(uri)
            &&& new.search_term.len() == 0
            &&& new.search_matches.len() == 0
            &&& new.search_current == 0
            &&& !new.is_cursor_panel
            &&& !new.sliver
            &&& new.loading
        }),
{
}

/// The cursor is in a panel exactly if it is on a row and that row is selected. The
/// file under it is that row's, and it leads what is reported as selected.
pub proof fn law_the_cursor_is_on_a_selected_row(panel: Panel, row: u32)
    requires
        panel.selected.len() == panel.entries.len(),
        panel.entries.len() <= u32::MAX,
        panel.cursor == Some(row),
    ensures
        panel.has_cursor() <==> row < panel.entries.len() && panel.selected[row as int],
        !(Panel { cursor: None, ..panel }).has_cursor(),
        row < panel.entries.len() && panel.selected[row as int] ==> ({
            let uri = panel.entries[row as int].uri;
            panel.selection() matches Selection::Files(chosen) && chosen.cursor_file == Some(uri)
                && chosen.files.len() > 0 && chosen.files[0] == uri && chosen.parent == panel.dir
        }),
        !(row < panel.entries.len() && panel.selected[row as int]) ==> (panel.selection() matches
            Selection::Files(chosen) ==> chosen.cursor_file is None && chosen.parent == panel.dir),
{
    let fitting = Panel { search_current: 0, ..panel };
    lemma_gathered_alike(panel, fitting, panel.entries.len());
    panel::law_the_selection_is_what_is_selected_or_marked(
        fitting,
        panel.entries[row as int].uri,
    );
    assert(fitting.selection() == panel.selection());
    if row < panel.entries.len() && panel.selected[row as int] {
        assert(panel.entries[row as int].uri == panel.entries[row as int].uri);
    }
}

proof fn lemma_gathered_alike(a: Panel, b: Panel, count: nat)
    requires
        a == (Panel { search_current: a.search_current, ..b }),
    ensures
        a.gathered(count) == b.gathered(count),
    decreases count,
{
    if count > 0 {
        lemma_gathered_alike(a, b, (count - 1) as nat);
    }
}

/// What is reported as selected follows the order of the listing, behind the file under
/// the cursor.
pub proof fn law_the_selection_follows_the_listing(panel: Panel, r: int, s: int, i: int, j: int)
    requires
        panel.selected.len() == panel.entries.len(),
        panel.entries.len() <= u32::MAX,
        forall|a: int, b: int|
            0 <= a < b < panel.entries.len() ==> (#[trigger] panel.entries[a]).uri != (
            #[trigger] panel.entries[b]).uri,
        panel.selection() matches Selection::Files(chosen) && {
            &&& 0 <= i < j < chosen.files.len()
            &&& i > 0 || chosen.cursor_file is None
            &&& 0 <= r < panel.entries.len()
            &&& 0 <= s < panel.entries.len()
            &&& chosen.files[i] == panel.entries[r].uri
            &&& chosen.files[j] == panel.entries[s].uri
        },
    ensures
        r < s,
{
    lemma_gathered_in_order(panel, panel.entries.len(), r, s, i, j);
}

proof fn lemma_gathered_in_order(panel: Panel, count: nat, r: int, s: int, i: int, j: int)
    requires
        panel.selected.len() == panel.entries.len(),
        panel.entries.len() <= u32::MAX,
        count <= panel.entries.len(),
        forall|a: int, b: int|
            0 <= a < b < panel.entries.len() ==> (#[trigger] panel.entries[a]).uri != (
            #[trigger] panel.entries[b]).uri,
        0 <= i < j < panel.gathered(count).len(),
        i > 0 || panel.cursor_file() is None,
        0 <= r < panel.entries.len(),
        0 <= s < panel.entries.len(),
        panel.gathered(count)[i] == panel.entries[r].uri,
        panel.gathered(count)[j] == panel.entries[s].uri,
    ensures
        r < s < count,
    decreases count,
{
    if count > 0 {
        let less = (count - 1) as nat;
        let before = panel.gathered(less);
        let row = panel.entries[count - 1];
        if j < before.len() {
            lemma_gathered_in_order(panel, less, r, s, i, j);
        } else {
            assert(panel.gathered(count) == before.push(row.uri));
            assert(panel.entries[s].uri == row.uri);
            assert(s == count - 1) by {
                if s < count - 1 {
                    assert(panel.entries[s].uri != panel.entries[count - 1].uri);
                } else if s > count - 1 {
                    assert(panel.entries[count - 1].uri != panel.entries[s].uri);
                }
            }
            lemma_gathered_from(panel, less, r, i);
        }
    }
}

proof fn lemma_gathered_from(panel: Panel, count: nat, r: int, i: int)
    requires
        panel.selected.len() == panel.entries.len(),
        panel.entries.len() <= u32::MAX,
        count <= panel.entries.len(),
        forall|a: int, b: int|
            0 <= a < b < panel.entries.len() ==> (#[trigger] panel.entries[a]).uri != (
            #[trigger] panel.entries[b]).uri,
        0 <= i < panel.gathered(count).len(),
        i > 0 || panel.cursor_file() is None,
        0 <= r < panel.entries.len(),
        panel.gathered(count)[i] == panel.entries[r].uri,
    ensures
        r < count,
    decreases count,
{
    if count > 0 {
        let less = (count - 1) as nat;
        let before = panel.gathered(less);
        let row = panel.entries[count - 1];
        if i < before.len() {
            lemma_gathered_from(panel, less, r, i);
        } else {
            assert(panel.gathered(count) == before.push(row.uri));
            if r > count - 1 {
                assert(panel.entries[count - 1].uri != panel.entries[r].uri);
            }
        }
    }
}

/// A panel can be told anything, but to open a row that it does not have, and to go back
/// from a match that is not there any more.
pub proof fn law_what_a_panel_can_be_told(panel: Panel, msg: DirectoryMessage<Seq<char>>, pos: u32)
    ensures
        panel.accepts(DirectoryMessage::OpenItemAtPosition(pos)) <==> pos < panel.entries.len(),
        panel.accepts(DirectoryMessage::SearchPrev) <==> panel.matches().len() == 0
            || panel.search_current <= panel.matches().len(),
        !(msg is OpenItemAtPosition) && !(msg is SearchPrev) ==> panel.accepts(msg),
{
}

/// A panel that is told to trash, to restore or to delete hands over the files of all
/// rows that are meant, each by its URI, and what is to be trashed by its name as well,
/// in the order of the rows.
pub proof fn law_every_file_that_is_meant_is_handed_over(
    trashing: &mut Directory,
    trashed: Vec<Effect>,
    restoring: &mut Directory,
    restored: Vec<Effect>,
    deleting: &mut Directory,
    deleted: Vec<Effect>,
    rows: Seq<u32>,
    k: int,
)
    requires
        old(trashing).wf(),
        *old(restoring) == *old(trashing),
        *old(deleting) == *old(trashing),
        call_ensures(
            Directory::update_with_view,
            (trashing, DirectoryMessage::<String>::TrashSelection),
            trashed,
        ),
        call_ensures(
            Directory::update_with_view,
            (restoring, DirectoryMessage::<String>::RestoreSelectionFromTrash),
            restored,
        ),
        call_ensures(
            Directory::update_with_view,
            (deleting, DirectoryMessage::<String>::DeleteSelectionPermanent),
            deleted,
        ),
        forall|i: int, j: int| 0 <= i < j < rows.len() ==> rows[i] < rows[j],
        forall|pos: u32|
            #[trigger] rows.contains(pos) <==> pos < old(trashing)@.entries.len() && if exists|
                i: int,
            |
                0 <= i < old(trashing)@.entries.len() && old(trashing)@.marks.contains(
                    (#[trigger] old(trashing)@.entries[i]).uri,
                ) {
                old(trashing)@.marks.contains(old(trashing)@.entries[pos as int].uri)
            } else {
                old(trashing)@.selected[pos as int]
            },
        0 <= k < rows.len(),
    ensures
        trashed@.len() == 1,
        restored@.len() == 1,
        deleted@.len() == 1,
        ({
            let row: Entry = old(trashing).entries@[rows[k] as int];
            &&& trashed@[0] matches Effect::Trash(uris, names) && uris@.len() == rows.len()
                && names@.len() == rows.len() && uris@[k]@ == row.uri@ && names@[k]@
                == row.display_name@
            &&& restored@[0] matches Effect::Restore(uris) && uris@.len() == rows.len()
                && uris@[k]@ == row.uri@
            &&& deleted@[0] matches Effect::DeletePermanently(uris) && uris@.len() == rows.len()
                && uris@[k]@ == row.uri@
        }),
        final(trashing)@ == old(trashing)@,
        final(restoring)@ == old(restoring)@,
        final(deleting)@ == old(deleting)@,
{
    let panel = old(trashing)@;
    law_an_operation_takes_every_row_that_is_meant(panel, rows, ClipboardOp::Copy);
    let first = directory_list::told(trashed@);
    let second = directory_list::told(restored@);
    let third = directory_list::told(deleted@);
    assert(first.len() == trashed@.len() && second.len() == restored@.len() && third.len()
        == deleted@.len());
    assert(first[0] == trashed@[0]@);
    assert(second[0] == restored@[0]@);
    assert(third[0] == deleted@[0]@);
    assert(rows.contains(rows[k]));
    assert(panel.entries[rows[k] as int] == old(trashing).entries@[rows[k] as int]@);
    let uris = rows.map_values(|pos: u32| panel.entries[pos as int].uri);
    let names = rows.map_values(|pos: u32| panel.entries[pos as int].display_name);
    let to_trash = trashed@[0]->Trash_0@;
    let called = trashed@[0]->Trash_1@;
    let to_restore = restored@[0]->Restore_0@;
    let to_delete = deleted@[0]->DeletePermanently_0@;
    assert(text::texts(to_trash) == uris);
    assert(text::texts(called) == names);
    assert(text::texts(to_restore) == uris);
    assert(text::texts(to_delete) == uris);
    assert(uris.len() == rows.len() && names.len() == rows.len());
    assert(text::texts(to_trash).len() == to_trash.len());
    assert(text::texts(called).len() == called.len());
    assert(text::texts(to_restore).len() == to_restore.len());
    assert(text::texts(to_delete).len() == to_delete.len());
    assert(text::texts(to_trash)[k] == to_trash[k]@);
    assert(text::texts(called)[k] == called[k]@);
    assert(text::texts(to_restore)[k] == to_restore[k]@);
    assert(text::texts(to_delete)[k] == to_delete[k]@);
}

/// A panel that is told to toggle a mark then has its cursor on the next row, selects
/// that row and scrolls to it. On the last row the cursor stays.
pub proof fn law_the_cursor_goes_on_after_marking(
    panel: &mut Directory,
    pos: u32,
    effects: Vec<Effect>,
)
    requires
        old(panel).wf(),
        old(panel).cursor == Some(pos),
        pos < old(panel).entries@.len(),
        call_ensures(
            Directory::update_with_view,
            (panel, DirectoryMessage::<String>::ToggleMark),
            effects,
        ),
    ensures
        pos + 1 < old(panel).entries@.len() ==> {
            &&& final(panel).cursor == Some((pos + 1) as u32)
            &&& effects@.len() == 5
            &&& effects@[2] == Effect::<String, Vec<String>>::Select((pos + 1) as u32)
            &&& effects@[4] == Effect::<String, Vec<String>>::ScrollTo((pos + 1) as u32)
        },
        pos + 1 == old(panel).entries@.len() ==> final(panel).cursor == Some(pos) && effects@.len()
            == 2,
{
    law_marking_goes_on_by_one_row(old(panel)@, pos as int, Seq::empty());
    let told = directory_list::told(effects@);
    assert(told.len() == effects@.len());
    if pos + 1 < old(panel).entries@.len() {
        assert(told[2] == effects@[2]@);
        assert(told[4] == effects@[4]@);
    }
}

} // verus!
