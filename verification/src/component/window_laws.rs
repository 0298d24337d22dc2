//! What the window does, message by message, said of its panels, its transfers and its
//! settings.

use super::app::{AppEffect, AppMsg, Running, Transfer};
use super::directory_list::{DirectoryMessage, FileSelection, Selection};
use super::entry::FilterChange;
use super::panel;
use super::window;
use super::window::{Journey, Window};
use crate::clipboard::ClipboardOp;
use crate::config::{Settings, SortKey};
use crate::layout;
use crate::ops::Progress;
use crate::path;
use vstd::prelude::*;

verus! {

/// What the window is told, as texts.
pub type Told = AppMsg<Seq<char>, Seq<Seq<char>>>;

/// What the window asks for, as texts.
pub type Ask = AppEffect<Seq<char>, Seq<Seq<char>>>;

proof fn lemma_here(window: Window, here: int)
    requires
        0 <= here < window.directories.len() <= usize::MAX,
        forall|i: int|
            here < i < window.directories.len()
                ==> !(#[trigger] window.directories[i]).has_cursor(),
        window.directories[here].has_cursor() || (here
            == window.directories.len() - 1 && forall|i: int|
            0 <= i < here ==> !(#[trigger] window.directories[i]).has_cursor()),
    ensures
        window.here() == here,
        window.cursor_panel() == if window.directories[here].has_cursor() {
            Some(here)
        } else {
            None
        },
{
    window::law_the_cursor_panel_is_the_deepest(window, here);
    if let Some(index) = window.cursor_panel() {
        window::law_the_cursor_panel_is_the_deepest(window, index);
    }
}

proof fn lemma_nowhere(window: Window)
    requires
        forall|i: int|
            0 <= i < window.directories.len() ==> !(#[trigger] window.directories[i]).has_cursor(),
    ensures
        window.cursor_panel() is None,
        window.directories.len() > 0 ==> window.here() == window.directories.len() - 1,
{
    if window.directories.len() > 0 {
        window::law_the_cursor_panel_is_the_deepest(window, 0);
        if let Some(index) = window.cursor_panel() {
            assert(!window.directories[index].has_cursor());
        }
    } else {
        assert(window.cursor_among(0) is None);
    }
}

/// Going to an end, copying, cutting and pasting are for the panel the user is in, and
/// a search that is opened is a search there. That is the deepest panel that holds the
/// cursor, or if none does the deepest of all.
pub proof fn law_the_panel_the_user_is_in_is_told(
    window: Window,
    here: int,
    op: ClipboardOp,
    verdicts: Seq<bool>,
)
    requires
        0 <= here < window.directories.len() <= usize::MAX,
        forall|i: int|
            here < i < window.directories.len()
                ==> !(#[trigger] window.directories[i]).has_cursor(),
        window.directories[here].has_cursor() || (here
            == window.directories.len() - 1 && forall|i: int|
            0 <= i < here ==> !(#[trigger] window.directories[i]).has_cursor()),
    ensures
        window.asks(Told::NavFirst, verdicts) == seq![
            Ask::Tell(here as usize, DirectoryMessage::SelectFirst),
        ],
        window.asks(Told::NavLast, verdicts) == seq![
            Ask::Tell(here as usize, DirectoryMessage::SelectLast),
        ],
        window.asks(Told::ClipboardCopy(op), verdicts) == seq![
            Ask::Tell(here as usize, DirectoryMessage::ClipboardCopy(op)),
        ],
        window.asks(Told::ClipboardPaste, verdicts) == seq![
            Ask::Tell(here as usize, DirectoryMessage::ClipboardPaste),
        ],
        window.asks(Told::SearchOpen, verdicts) == seq![Ask::OpenSearchBar],
        window.changed(Told::SearchOpen, verdicts) == (Window {
            search_panel: Some(here as usize),
            ..window
        }),
        window.changed(Told::NavFirst, verdicts) == window,
        window.changed(Told::NavLast, verdicts) == window,
        window.changed(Told::ClipboardCopy(op), verdicts) == window,
        window.changed(Told::ClipboardPaste, verdicts) == window,
{
    lemma_here(window, here);
}

/// Renaming, marking, trashing, deleting and moving are for the panel that holds the
/// cursor.
pub proof fn law_the_panel_with_the_cursor_is_told(
    window: Window,
    here: int,
    delta: i32,
    verdicts: Seq<bool>,
)
    requires
        0 <= here < window.directories.len() <= usize::MAX,
        forall|i: int|
            here < i < window.directories.len()
                ==> !(#[trigger] window.directories[i]).has_cursor(),
        window.directories[here].has_cursor(),
    ensures
        window.asks(Told::RenameSelected, verdicts) == seq![
            Ask::Tell(here as usize, DirectoryMessage::RenameSelected),
        ],
        window.asks(Told::ToggleMark, verdicts) == seq![
            Ask::Tell(here as usize, DirectoryMessage::ToggleMark),
        ],
        window.asks(Told::TrashSelected, verdicts) == seq![
            Ask::Tell(here as usize, DirectoryMessage::TrashSelection),
        ],
        window.asks(Told::DeletePermanentSelected, verdicts) == seq![
            Ask::Tell(here as usize, DirectoryMessage::DeleteSelectionPermanent),
        ],
        window.asks(Told::NavMove(delta), verdicts) == seq![
            Ask::Tell(here as usize, DirectoryMessage::MoveCursor(delta)),
        ],
        window.changed(Told::RenameSelected, verdicts) == window,
        window.changed(Told::ToggleMark, verdicts) == window,
        window.changed(Told::TrashSelected, verdicts) == window,
        window.changed(Told::DeletePermanentSelected, verdicts) == window,
        window.changed(Told::NavMove(delta), verdicts) == window,
{
    lemma_here(window, here);
}

/// Going in goes to the first row of the next panel, and from the deepest panel opens
/// what the cursor is on. Going out leaves the panel, and from the root goes to the
/// directory the root is in, if there is one.
pub proof fn law_going_in_and_out(window: Window, here: int, verdicts: Seq<bool>)
    requires
        0 <= here < window.directories.len() <= usize::MAX,
        forall|i: int|
            here < i < window.directories.len()
                ==> !(#[trigger] window.directories[i]).has_cursor(),
        window.directories[here].has_cursor(),
    ensures
        here + 1 < window.directories.len() ==> window.asks(Told::NavInto, verdicts) == seq![
            Ask::Tell((here + 1) as usize, DirectoryMessage::SelectFirst),
        ],
        here + 1 == window.directories.len() ==> window.asks(Told::NavInto, verdicts) == seq![
            Ask::Tell(here as usize, DirectoryMessage::OpenSelected),
        ],
        here > 0 ==> window.asks(Told::NavParent, verdicts) == seq![
            Ask::Tell(here as usize, DirectoryMessage::UnselectAll),
        ],
        here == 0 && path::parent(window.root) is Some ==> window.asks(Told::NavParent, verdicts)
            == seq![Ask::Say(Told::NewRoot(path::parent(window.root)->0))],
        here == 0 && path::parent(window.root) is None ==> window.asks(
            Told::NavParent,
            verdicts,
        ).len() == 0,
        window.changed(Told::NavInto, verdicts) == window,
        window.changed(Told::NavParent, verdicts) == window,
{
    lemma_here(window, here);
}

/// With the cursor nowhere, what is about the row under it does nothing. Moving comes in
/// at an end of the deepest panel, going in does nothing, and going out goes to the
/// directory the root is in.
pub proof fn law_without_a_cursor(window: Window, delta: i32, verdicts: Seq<bool>)
    requires
        window.directories.len() <= usize::MAX,
        forall|i: int|
            0 <= i < window.directories.len() ==> !(#[trigger] window.directories[i]).has_cursor(),
    ensures
        window.asks(Told::RenameSelected, verdicts).len() == 0,
        window.asks(Told::ToggleMark, verdicts).len() == 0,
        window.asks(Told::TrashSelected, verdicts).len() == 0,
        window.asks(Told::DeletePermanentSelected, verdicts).len() == 0,
        window.asks(Told::NavInto, verdicts).len() == 0,
        path::parent(window.root) is Some ==> window.asks(Told::NavParent, verdicts) == seq![
            Ask::Say(Told::NewRoot(path::parent(window.root)->0)),
        ],
        path::parent(window.root) is None ==> window.asks(Told::NavParent, verdicts).len() == 0,
        window.directories.len() > 0 && delta >= 0 ==> window.asks(Told::NavMove(delta), verdicts)
            == seq![
                Ask::Tell((window.directories.len() - 1) as usize, DirectoryMessage::SelectFirst),
            ],
        window.directories.len() > 0 && delta < 0 ==> window.asks(Told::NavMove(delta), verdicts)
            == seq![
                Ask::Tell((window.directories.len() - 1) as usize, DirectoryMessage::SelectLast),
            ],
        window.changed(Told::RenameSelected, verdicts) == window,
        window.changed(Told::ToggleMark, verdicts) == window,
        window.changed(Told::TrashSelected, verdicts) == window,
        window.changed(Told::DeletePermanentSelected, verdicts) == window,
        window.changed(Told::NavInto, verdicts) == window,
        window.changed(Told::NavParent, verdicts) == window,
        window.changed(Told::NavMove(delta), verdicts) == window,
{
    lemma_nowhere(window);
}

/// A search goes to the panel it was opened in, and nowhere once that panel is gone.
/// Giving it up clears it there and hides the bar; confirming it only gives the keys
/// back.
#[verifier::rlimit(40)]
#[verifier::spinoff_prover]
pub proof fn law_a_search_stays_in_its_panel(window: Window, term: Seq<char>, verdicts: Seq<bool>)
    ensures
        window.search_panel matches Some(index) && index < window.directories.len() ==> {
            let index = window.search_panel->0;
            &&& window.asks(Told::SearchChanged(term), verdicts) == seq![
                Ask::Tell(index, DirectoryMessage::SetSearch(term)),
            ]
            &&& window.asks(Told::SearchNext, verdicts) == seq![
                Ask::Tell(index, DirectoryMessage::SearchNext),
            ]
            &&& window.asks(Told::SearchPrev, verdicts) == seq![
                Ask::Tell(index, DirectoryMessage::SearchPrev),
            ]
            &&& window.asks(Told::SearchCancel, verdicts) == seq![
                Ask::Tell(index, DirectoryMessage::ClearSearch),
                Ask::CloseSearchBar,
                Ask::Unfocus,
            ]
        },
        window.search_panel is None || window.search_panel->0 >= window.directories.len() ==> {
            &&& window.asks(Told::SearchChanged(term), verdicts).len() == 0
            &&& window.asks(Told::SearchNext, verdicts).len() == 0
            &&& window.asks(Told::SearchPrev, verdicts).len() == 0
            &&& window.asks(Told::SearchCancel, verdicts) == seq![Ask::CloseSearchBar, Ask::Unfocus]
        },
        window.asks(Told::SearchConfirm, verdicts) == seq![Ask::Unfocus],
        window.changed(Told::SearchCancel, verdicts) == (Window { search_panel: None, ..window }),
        window.changed(Told::SearchChanged(term), verdicts) == window,
        window.changed(Told::SearchNext, verdicts) == window,
        window.changed(Told::SearchPrev, verdicts) == window,
        window.changed(Told::SearchConfirm, verdicts) == window,
{
    if window.search_panel is Some && window.search_panel->0 < window.directories.len() {
        let index = window.search_panel->0;
        assert(window.asks(Told::SearchCancel, verdicts) =~= seq![
            Ask::Tell(index, DirectoryMessage::ClearSearch),
            Ask::CloseSearchBar,
            Ask::Unfocus,
        ]);
    } else {
        assert(window.asks(Told::SearchCancel, verdicts) =~= seq![
            Ask::CloseSearchBar,
            Ask::Unfocus,
        ]);
    }
}

/// A transfer that begins gets a row of its own behind the others, with nothing moved
/// yet, and the button is there.
pub proof fn law_a_transfer_begins(
    window: Window,
    id: u64,
    description: Seq<char>,
    verdicts: Seq<bool>,
)
    ensures
        ({
            let msg = Told::Transfer(Transfer::New { id, description });
            let after = window.changed(msg, verdicts);
            let row = after.transfers[window.transfers.len() as int];
            &&& after.transfers.len() == window.transfers.len() + 1
            &&& row.id == id
            &&& row.description == description
            &&& row.current == 0
            &&& row.total == 0
            &&& after.transfers.take(window.transfers.len() as int) == window.transfers
            &&& after == (Window { transfers: after.transfers, ..window })
            &&& window.asks(msg, verdicts) == seq![
                Ask::AddTransfer(id, description),
                Ask::ShowTransferButton(true),
            ]
        }),
{
    let msg = Told::Transfer(Transfer::New { id, description });
    assert(window.changed(msg, verdicts).transfers.take(window.transfers.len() as int)
        =~= window.transfers);
}

/// News of a transfer change its own row and no other: how much was moved and how much
/// there is. Once it is over its row goes, the others stay in order, and with the last
/// one goes the button.
pub proof fn law_a_transfer_goes_on_and_ends(
    window: Window,
    at: int,
    progress: Progress,
    verdicts: Seq<bool>,
)
    requires
        0 <= at < window.transfers.len() <= usize::MAX,
        window.transfers[at].id == progress.id,
        forall|i: int| 0 <= i < at ==> (#[trigger] window.transfers[i]).id != progress.id,
    ensures
        ({
            let msg = Told::Transfer(Transfer::Progress(progress));
            let after = window.changed(msg, verdicts);
            &&& after.transfers.len() == window.transfers.len()
            &&& after.transfers[at].id == progress.id
            &&& after.transfers[at].description == window.transfers[at].description
            &&& after.transfers[at].current == progress.current
            &&& after.transfers[at].total == progress.total
            &&& forall|i: int|
                0 <= i < window.transfers.len() && i != at ==> #[trigger] after.transfers[i]
                    == window.transfers[i]
            &&& after == (Window { transfers: after.transfers, ..window })
            &&& window.asks(msg, verdicts) == seq![
                Ask::UpdateTransfer(at as usize, progress),
                Ask::ShowTransferButton(true),
            ]
        }),
        ({
            let msg = Told::Transfer(Transfer::Done { id: progress.id });
            let after = window.changed(msg, verdicts);
            &&& after.transfers.len() == window.transfers.len() - 1
            &&& forall|i: int|
                0 <= i < after.transfers.len() ==> #[trigger] after.transfers[i] == if i < at {
                    window.transfers[i]
                } else {
                    window.transfers[i + 1]
                }
            &&& after == (Window { transfers: after.transfers, ..window })
            &&& window.asks(msg, verdicts) == seq![
                Ask::RemoveTransfer(at as usize),
                Ask::ShowTransferButton(window.transfers.len() >= 2),
            ]
        }),
{
    window::lemma_find_transfer(window.transfers, progress.id, 0);
    let found = window.transfer_at(progress.id);
    assert(found == at) by {
        if found < at {
            assert(window.transfers[found].id != progress.id);
        }
    }
}

/// News of a transfer that is not under way change nothing.
pub proof fn law_an_unknown_transfer_changes_nothing(
    window: Window,
    progress: Progress,
    verdicts: Seq<bool>,
)
    requires
        forall|i: int|
            0 <= i < window.transfers.len() ==> (#[trigger] window.transfers[i]).id != progress.id,
    ensures
        ({
            let news = Told::Transfer(Transfer::Progress(progress));
            let over = Told::Transfer(Transfer::Done { id: progress.id });
            &&& window.changed(news, verdicts) == window
            &&& window.changed(over, verdicts) == window
            &&& window.asks(news, verdicts) == seq![
                Ask::ShowTransferButton(window.transfers.len() > 0),
            ]
            &&& window.asks(over, verdicts) == seq![
                Ask::ShowTransferButton(window.transfers.len() > 0),
            ]
        }),
{
    window::lemma_find_transfer(window.transfers, progress.id, 0);
    let found = window.transfer_at(progress.id);
    if found < window.transfers.len() {
        assert(window.transfers[found].id == progress.id);
    }
}

/// A toast is shown with an epoch of its own, one more than the last, and changes
/// nothing else.
pub proof fn law_a_toast_has_its_own_epoch(window: Window, message: Seq<char>, verdicts: Seq<bool>)
    requires
        window.toast_epoch < u64::MAX,
    ensures
        ({
            let after = window.changed(Told::Toast(message), verdicts);
            &&& after.toast_epoch == window.toast_epoch + 1
            &&& after == (Window { toast_epoch: after.toast_epoch, ..window })
            &&& window.asks(Told::Toast(message), verdicts) == seq![
                Ask::Toast(message, after.toast_epoch),
            ]
        }),
{
}

/// Sorting by the key that is active turns the order round; by another key it starts
/// with the newest, with A, or with the directories. Every panel is sorted anew, and a
/// toast says by what.
pub proof fn law_sorting_says_what_it_did(window: Window, key: SortKey, verdicts: Seq<bool>)
    requires
        window.toast_epoch < u64::MAX,
    ensures
        ({
            let after = window.changed(Told::SetSort(key), verdicts);
            let reversed = if window.settings.sort_key == key {
                !window.settings.sort_reversed
            } else {
                key == SortKey::Modified
            };
            let message = if key == SortKey::Modified && reversed {
                "Sort: modified (newest first)"@
            } else if key == SortKey::Modified {
                "Sort: modified (oldest first)"@
            } else if key == SortKey::Name && !reversed {
                "Sort: name (A\u{2192}Z)"@
            } else if key == SortKey::Name {
                "Sort: name (Z\u{2192}A)"@
            } else if !reversed {
                "Sort: type (dirs first)"@
            } else {
                "Sort: type (reversed)"@
            };
            &&& after.settings.sort_key == key
            &&& after.settings.sort_reversed == reversed
            &&& after.settings.show_hidden == window.settings.show_hidden
            &&& after.toast_epoch == window.toast_epoch + 1
            &&& after == (Window {
                settings: after.settings,
                toast_epoch: after.toast_epoch,
                ..window
            })
            &&& window.asks(Told::SetSort(key), verdicts) == seq![
                Ask::RefreshSorters,
                Ask::Toast(message, after.toast_epoch),
            ]
        }),
{
}

/// Showing hidden files and hiding them turns that setting and no other, filters every
/// panel anew and says which of the two it was.
pub proof fn law_hidden_files_are_shown_and_hidden(window: Window)
    ensures
        ({
            let after = window.hidden_toggled();
            &&& after.settings.show_hidden == !window.settings.show_hidden
            &&& after.settings.sort_key == window.settings.sort_key
            &&& after.settings.sort_reversed == window.settings.sort_reversed
            &&& after == (Window { settings: after.settings, ..window })
            &&& after.settings.show_hidden ==> window.toggling_hidden() == seq![
                Ask::RefreshHiddenFilters(FilterChange::LessStrict),
                Ask::Say(Told::Toast("Showing hidden files"@)),
            ]
            &&& !after.settings.show_hidden ==> window.toggling_hidden() == seq![
                Ask::RefreshHiddenFilters(FilterChange::MoreStrict),
                Ask::Say(Told::Toast("Hiding hidden files"@)),
            ]
        }),
{
}

/// What only passes through the window: errors, dialogs, the sound, an empty selection
/// and a change of its size. None of it changes the window.
pub proof fn law_the_window_passes_on(
    window: Window,
    message: Seq<char>,
    path: Option<Seq<char>>,
    verdicts: Seq<bool>,
)
    ensures
        window.asks(Told::Error(message), verdicts) == seq![Ask::Alert(message)],
        window.asks(Told::About, verdicts) == seq![Ask::ShowAbout],
        window.asks(Told::Mount, verdicts) == seq![Ask::ShowMount],
        window.asks(Told::ToggleAudioPreview, verdicts) == seq![Ask::ToggleAudio],
        window.asks(Told::NewSelection(Selection::Nothing, path), verdicts) == seq![
            Ask::HidePreview,
        ],
        window.asks(Told::Relayout, verdicts).len() == 0,
        window.changed(Told::Error(message), verdicts) == window,
        window.changed(Told::About, verdicts) == window,
        window.changed(Told::Mount, verdicts) == window,
        window.changed(Told::ToggleAudioPreview, verdicts) == window,
        window.changed(Told::NewSelection(Selection::Nothing, path), verdicts) == window,
        window.changed(Told::Relayout, verdicts) == window,
{
}

/// A new root takes the place of all panels: the only one left lists it, and selects its
/// first row once it is loaded.
pub proof fn law_a_new_root_is_the_only_panel(window: Window, root: Seq<char>, verdicts: Seq<bool>)
    ensures
        ({
            let after = window.changed(Told::NewRoot(root), verdicts);
            &&& after.root == root
            &&& after.directories == seq![panel::fresh(root, true)]
            &&& after == (Window { root: after.root, directories: after.directories, ..window })
            &&& window.asks(Told::NewRoot(root), verdicts) == seq![
                Ask::ClearPanels,
                Ask::Push(root, true),
                Ask::HidePreview,
            ]
        }),
{
}

/// The panels follow the file under the cursor, or the only file that is selected; if
/// several are, they follow the directory those are in. What is selected is previewed
/// behind that. A file whose path is not known is not followed, and nothing happens.
pub proof fn law_the_selected_file_is_followed(
    window: Window,
    chosen: FileSelection<Seq<char>, Seq<Seq<char>>>,
    path: Option<Seq<char>>,
    verdicts: Seq<bool>,
    area: i32,
)
    ensures
        ({
            let msg = Told::NewSelection(Selection::Files(chosen), path);
            let one = chosen.cursor_file is Some || chosen.files.len() == 1;
            let after = window.changed(msg, verdicts);
            &&& after == (Window { directories: after.directories, ..window })
            &&& one && path is None ==> {
                &&& after == window
                &&& window.after(msg, verdicts, area) == window
                &&& window.causes(msg, verdicts, area).len() == 0
            }
            &&& one && path is Some ==> {
                let way = window.departure().along(window.steps(path->0), verdicts);
                &&& after.directories == way.panels
                &&& window.asks(msg, verdicts)
                    == way.asks.push(Ask::Preview(Selection::Files(chosen)))
            }
            &&& !one ==> {
                let way = window.departure().along(window.steps(chosen.parent), verdicts);
                &&& after.directories == way.panels
                &&& window.asks(msg, verdicts)
                    == way.asks.push(Ask::Preview(Selection::Files(chosen)))
            }
        }),
{
}

/// Panels set out from the deepest directory that is listed. A step up leaves one panel
/// and goes to the directory above; a name adds a panel for what it leads to, if that
/// is a directory, and else is passed over.
pub proof fn law_panels_go_step_by_step(
    window: Window,
    journey: Journey,
    steps: Seq<Seq<char>>,
    verdicts: Seq<bool>,
    name: Seq<char>,
)
    requires
        steps.len() == verdicts.len(),
        name != seq!['.', '.'],
    ensures
        window.departure().panels == window.directories,
        window.directories.len() > 0 ==> window.departure().here == path::components(
            window.directories[window.directories.len() - 1].dir,
        ),
        window.departure().asks.len() == 0,
        journey.along(Seq::empty(), Seq::empty()) == journey,
        ({
            let before = journey.along(steps, verdicts);
            let up = journey.along(steps.push(seq!['.', '.']), verdicts.push(false));
            let into = journey.along(steps.push(name), verdicts.push(true));
            let over = journey.along(steps.push(name), verdicts.push(false));
            let there = before.here.push(name);
            &&& up.here == before.here.drop_last()
            &&& before.panels.len() > 0 ==> up.panels == before.panels.drop_last()
            &&& before.panels.len() == 0 ==> up.panels.len() == 0
            &&& up.asks == before.asks.push(Ask::Pop)
            &&& into.here == there
            &&& into.panels == before.panels.push(panel::fresh(path::spelled(there), false))
            &&& into.asks == before.asks.push(Ask::Push(path::spelled(there), false))
            &&& over == before
        }),
{
    assert(steps.push(seq!['.', '.']).drop_last() =~= steps);
    assert(steps.push(name).drop_last() =~= steps);
    assert(verdicts.push(false).drop_last() =~= verdicts);
    assert(verdicts.push(true).drop_last() =~= verdicts);
    assert(path::up() =~= seq!['.', '.']);
}

proof fn lemma_going_down(
    from: Journey,
    names: Seq<Seq<char>>,
    verdicts: Seq<bool>,
)
    requires
        verdicts.len() == names.len(),
        forall|i: int| 0 <= i < names.len() ==> #[trigger] names[i] != path::up() && verdicts[i],
    ensures
        from.along(names, verdicts).here == from.here + names,
        from.along(names, verdicts).panels.len() == from.panels.len() + names.len(),
    decreases names.len(),
{
    if names.len() == 0 {
        assert(from.here + names =~= from.here);
    } else {
        let fewer = names.drop_last();
        assert forall|i: int| 0 <= i < fewer.len() implies #[trigger] fewer[i] != path::up()
            && verdicts.drop_last()[i] by {
            assert(names[i] == fewer[i]);
        }
        lemma_going_down(from, fewer, verdicts.drop_last());
        assert(names[names.len() - 1] != path::up());
        assert((from.here + fewer).push(names.last()) =~= from.here + names);
    }
}

/// Following a directory below the deepest one that is listed, every name on the way
/// being a directory, adds a panel for each of them, and the last one lists it.
pub proof fn law_panels_arrive_at_what_they_follow(
    window: Window,
    names: Seq<Seq<char>>,
    verdicts: Seq<bool>,
    file: Seq<char>,
)
    requires
        window.directories.len() > 0,
        path::absolute(window.directories[window.directories.len() - 1].dir),
        path::absolute(file),
        path::components(file) == path::components(
            window.directories[window.directories.len() - 1].dir,
        ) + names,
        verdicts.len() == window.steps(file).len(),
        forall|i: int| 0 <= i < names.len() ==> #[trigger] names[i] != path::up(),
        forall|i: int| 0 <= i < verdicts.len() ==> #[trigger] verdicts[i],
    ensures
        window.steps(file) == names,
        window.arrival(file, verdicts).here == path::components(file),
        window.arrival(file, verdicts).panels.len() == window.directories.len() + names.len(),
{
    let dir = window.directories[window.directories.len() - 1].dir;
    let base = path::components(dir);
    path::lemma_steps_are_the_way(file, dir);
    assert(base[0] == seq!['/']);
    assert(seq!['.'][0] != seq!['/'][0]);
    assert(base + Seq::<Seq<char>>::empty() =~= base);
    window::lemma_in_common_behind(base, names, Seq::empty());
    assert(path::in_common(names, Seq::<Seq<char>>::empty()) == 0);
    assert(path::in_common(path::components(file), base) == base.len());
    assert(path::components(file).skip(base.len() as int) =~= names);
    assert(path::ups(0) + names =~= names);
    lemma_going_down(window.departure(), names, verdicts);
}

/// Whatever the window is told, in the end each panel is told whether the cursor is its
/// own, which holds of the one the user is in and of no other. Then the panels are laid
/// out, or each falls back to the same width and the rightmost is kept in view. Last the
/// window is titled with where the user is.
#[verifier::rlimit(40)]
#[verifier::spinoff_prover]
pub proof fn law_every_message_ends_alike(
    window: Window,
    msg: AppMsg<Seq<char>, Seq<Seq<char>>>,
    verdicts: Seq<bool>,
    area: i32,
    here: int,
)
    requires
        msg !is NewSelection,
        ({
            let changed = window.changed(msg, verdicts);
            &&& 0 <= here < changed.directories.len() <= usize::MAX
            &&& changed.directories[here].has_cursor() || (here
                == changed.directories.len() - 1 && forall|i: int|
                0 <= i < here ==> !(#[trigger] changed.directories[i]).has_cursor())
            &&& forall|i: int|
                here < i < changed.directories.len()
                    ==> !(#[trigger] changed.directories[i]).has_cursor()
        }),
    ensures
        ({
            let changed = window.changed(msg, verdicts);
            let count = changed.directories.len() as int;
            let asked = window.asks(msg, verdicts);
            let caused = window.causes(msg, verdicts, area);
            let n = asked.len() as int;
            let fits = layout::laid_out(area as int, count as nat, here as nat);
            let after = window.after(msg, verdicts, area);
            &&& after.columns_overflow == !fits
            &&& after == (Window { columns_overflow: after.columns_overflow, ..changed })
            &&& caused.take(n) == asked
            &&& forall|i: int|
                0 <= i < count ==> #[trigger] caused[n + i] == Ask::Tell(
                    i as usize,
                    DirectoryMessage::SetCursorPanel(i == here),
                )
            &&& fits ==> {
                &&& caused.len() == n + count + 1 + count + 1
                &&& caused[n + count] == Ask::SetGutter(
                    layout::gutter(area as int, here as nat) as i32,
                )
                &&& forall|i: int|
                    0 <= i < count ==> #[trigger] caused[n + count + 1 + i] == Ask::Tell(
                        i as usize,
                        DirectoryMessage::SetLayout(
                            layout::planned_panels(area as int, count as nat, here as nat)[i],
                        ),
                    )
            }
            &&& !fits ==> {
                &&& caused.len() == n + count + 1 + count + 2
                &&& caused[n + count] == Ask::SetGutter(0)
                &&& forall|i: int|
                    0 <= i < count ==> #[trigger] caused[n + count + 1 + i] == Ask::Tell(
                        i as usize,
                        DirectoryMessage::ResetLayout,
                    )
                &&& caused[n + count + 1 + count] == Ask::ScrollToEnd
            }
            &&& caused.last() == Ask::Retitle(here as usize)
        }),
{
    let changed = window.changed(msg, verdicts);
    lemma_here(changed, here);
    let count = changed.directories.len() as int;
    let asked = window.asks(msg, verdicts);
    let caused = window.causes(msg, verdicts, area);
    let n = asked.len() as int;
    assert(!window.passes_over(msg));
    let marking = changed.marking();
    let laying = changed.laying_out(area);
    let titling = changed.titling();
    assert(caused == asked + (marking + laying + titling));
    assert(caused.take(n) =~= asked);
    assert(marking.len() == count);
    assert(titling.len() == 1);
    assert forall|i: int| 0 <= i < count implies #[trigger] caused[n + i] == Ask::Tell(
        i as usize,
        DirectoryMessage::SetCursorPanel(i == here),
    ) by {
        assert(caused[n + i] == marking[i]);
    }
    assert(caused.last() == titling[0]);
    assert(caused[n + count] == laying[0]);
    assert forall|i: int| 0 <= i < count implies #[trigger] caused[n + count + 1 + i]
        == laying[1 + i] by {}
}

/// A selection that is followed ends as every other message does.
pub proof fn law_following_ends_alike(
    window: Window,
    msg: AppMsg<Seq<char>, Seq<Seq<char>>>,
    verdicts: Seq<bool>,
    area: i32,
)
    requires
        msg is NewSelection,
        !(msg matches AppMsg::NewSelection(Selection::Files(chosen), path) && path is None && (
        chosen.cursor_file is Some || chosen.files.len() == 1)),
    ensures
        window.causes(msg, verdicts, area) == window.asks(msg, verdicts) + window.changed(
            msg,
            verdicts,
        ).causes(Told::Relayout, Seq::empty(), area),
        window.after(msg, verdicts, area) == window.changed(msg, verdicts).after(
            Told::Relayout,
            Seq::empty(),
            area,
        ),
{
    let changed = window.changed(msg, verdicts);
    assert(changed.asks(Told::Relayout, Seq::empty()) + changed.settling(area) =~= changed.settling(
        area,
    ));
}

/// On the way to a file, each name is asked about where the steps before it have led,
/// and of a step up nothing is asked. What `is_directory` says of that path, for a
/// question that always has the same answer, is what counts.
#[verifier::rlimit(40)]
#[verifier::spinoff_prover]
pub proof fn law_names_are_asked_about_where_they_stand<F: Fn(&str) -> bool>(
    journey: Journey,
    steps: Seq<Seq<char>>,
    is_directory: F,
    truth: spec_fn(Seq<char>) -> bool,
    verdicts: Seq<bool>,
    i: int,
)
    requires
        journey.answered(steps, is_directory, verdicts),
        forall|s: &str| #[trigger] call_ensures(is_directory, (s,), true) ==> truth(s@),
        forall|s: &str| #[trigger] call_ensures(is_directory, (s,), false) ==> !truth(s@),
        0 <= i < steps.len(),
    ensures
        verdicts.len() == steps.len(),
        steps[i] == seq!['.', '.'] ==> !verdicts[i],
        steps[i] != seq!['.', '.'] ==> verdicts[i] == truth(
            path::spelled(journey.along(steps.take(i), verdicts.take(i)).here.push(steps[i])),
        ),
        steps[0] != seq!['.', '.'] ==> verdicts[0] == truth(
            path::spelled(journey.here.push(steps[0])),
        ),
{
    assert(steps[i] == seq!['.', '.'] || steps[i] != seq!['.', '.']);
    assert(steps[0] == seq!['.', '.'] || steps[0] != seq!['.', '.']);
    assert(steps.take(0) =~= Seq::<Seq<char>>::empty());
    if steps[i] != path::up() {
        assert(crate::text::answers(
            is_directory,
            journey.asked_about(steps, verdicts, i),
            verdicts[i],
        ));
    }
    if steps[0] != path::up() {
        assert(crate::text::answers(
            is_directory,
            journey.asked_about(steps, verdicts, 0),
            verdicts[0],
        ));
    }
}

/// Only on the way to a selected file is anything asked, and there from the deepest
/// directory that is listed on.
pub proof fn law_questions_are_asked_only_on_the_way<F: Fn(&str) -> bool>(
    window: Window,
    selection: FileSelection<Seq<char>, Seq<Seq<char>>>,
    file: Seq<char>,
    msg: Told,
    is_directory: F,
    verdicts: Seq<bool>,
)
    requires
        window.directories.len() > 0,
        selection.cursor_file is Some,
    ensures
        window.consulted(
            Told::NewSelection(Selection::Files(selection), Some(file)),
            is_directory,
            verdicts,
        ) ==> ({
            let dir = path::components(window.directories[window.directories.len() - 1].dir);
            let steps = path::steps(path::components(file), dir);
            let from = Journey { panels: window.directories, here: dir, asks: Seq::empty() };
            from.answered(steps, is_directory, verdicts)
        }),
        window.consulted(
            Told::NewSelection(Selection::Files(selection), None),
            is_directory,
            verdicts,
        ) <==> verdicts.len() == 0,
        !(msg is NewSelection) ==> (window.consulted(msg, is_directory, verdicts)
            <==> verdicts.len() == 0),
{
}

proof fn lemma_climbing(count: nat, names: Seq<Seq<char>>)
    requires
        forall|i: int| 0 <= i < names.len() ==> #[trigger] names[i] != path::up(),
    ensures
        window::climbs(path::ups(count) + names) == count,
    decreases count + names.len(),
{
    let all = path::ups(count) + names;
    if names.len() > 0 {
        let fewer = names.drop_last();
        assert forall|i: int| 0 <= i < fewer.len() implies #[trigger] fewer[i] != path::up() by {
            assert(fewer[i] == names[i]);
        }
        lemma_climbing(count, fewer);
        assert(all.drop_last() =~= path::ups(count) + fewer);
        assert(all.last() == names[names.len() - 1]);
    } else if count > 0 {
        let less = (count - 1) as nat;
        lemma_climbing(less, names);
        assert(all.drop_last() =~= path::ups(less) + names);
        assert(all.last() == path::up());
    }
}

/// Every step up counts as one, and a path has room for as many as it has names.
pub proof fn law_there_is_room_up_to_the_root(steps: Seq<Seq<char>>, parts: Seq<Seq<char>>)
    requires
        forall|i: int|
            0 <= i < parts.len() ==> {
                let part = #[trigger] parts[i];
                part.len() > 0 && part != seq!['.'] && !part.contains('/')
            },
    ensures
        window::climbs(Seq::empty()) == 0,
        window::climbs(steps.push(seq!['.', '.'])) == window::climbs(steps) + 1,
        forall|name: Seq<char>|
            name != seq!['.', '.'] ==> #[trigger] window::climbs(steps.push(name))
                == window::climbs(steps),
        window::room(seq!['/'] + crate::text::joined(parts, seq!['/'])) == parts.len(),
        window::room(crate::text::joined(parts, seq!['/'])) == parts.len(),
{
    assert(steps.push(seq!['.', '.']).drop_last() =~= steps);
    assert forall|name: Seq<char>| name != seq!['.', '.'] implies #[trigger] window::climbs(
        steps.push(name),
    ) == window::climbs(steps) by {
        assert(steps.push(name).drop_last() =~= steps);
    }
    path::law_components_are_what_is_between_separators(parts);
    let relative = crate::text::joined(parts, seq!['/']);
    let rooted = seq!['/'] + relative;
    assert(rooted[0] == '/');
    if path::absolute(relative) {
        assert(path::components(relative)[0] == seq!['/']);
        assert(parts[0] == seq!['/']);
        assert(seq!['/'][0] == '/');
        assert(parts[0].contains('/'));
    }
}

/// The panels can follow every file from every directory, if both are given from the
/// root on and by names alone; without a panel they can follow none.
pub proof fn law_every_file_can_be_followed(
    window: Window,
    dir: Seq<Seq<char>>,
    file: Seq<Seq<char>>,
    other: Seq<char>,
)
    requires
        window.directories.len() > 0,
        window.directories[window.directories.len() - 1].dir == seq!['/'] + crate::text::joined(
            dir,
            seq!['/'],
        ),
        forall|i: int|
            0 <= i < dir.len() ==> {
                let part = #[trigger] dir[i];
                part.len() > 0 && part != seq!['.'] && part != seq!['.', '.'] && !part.contains('/')
            },
        forall|i: int|
            0 <= i < file.len() ==> {
                let part = #[trigger] file[i];
                part.len() > 0 && part != seq!['.'] && part != seq!['.', '.'] && !part.contains('/')
            },
    ensures
        window.can_follow(seq!['/'] + crate::text::joined(file, seq!['/'])),
        other.len() == 0 || other[0] != '/' ==> !window.can_follow(other),
        !(Window { directories: Seq::empty(), ..window }).can_follow(other),
{
    assert forall|i: int| 0 <= i < dir.len() implies {
        let part = #[trigger] dir[i];
        part.len() > 0 && part != seq!['.'] && !part.contains('/')
    } by {
        assert(dir[i].len() > 0);
    }
    assert forall|i: int| 0 <= i < file.len() implies {
        let part = #[trigger] file[i];
        part.len() > 0 && part != seq!['.'] && !part.contains('/')
    } by {
        assert(file[i].len() > 0);
    }
    path::law_components_are_what_is_between_separators(dir);
    path::law_components_are_what_is_between_separators(file);
    law_there_is_room_up_to_the_root(Seq::empty(), dir);
    let from = seq!['/'] + crate::text::joined(dir, seq!['/']);
    let to = seq!['/'] + crate::text::joined(file, seq!['/']);
    let base = seq![seq!['/']] + dir;
    let goal = seq![seq!['/']] + file;
    assert(from[0] == '/');
    assert(to[0] == '/');
    path::lemma_steps_are_the_way(to, from);
    path::lemma_in_common(goal, base);
    let shared = path::in_common(goal, base) as int;
    assert(goal[0] == base[0]);
    assert(shared >= 1);
    assert(seq!['/'].len() == 1);
    assert(seq!['.', '.'].len() == 2);
    if shared < base.len() {
        assert(base[shared] == dir[shared - 1]);
    }
    let rest = goal.skip(shared);
    assert forall|i: int| 0 <= i < rest.len() implies #[trigger] rest[i] != path::up() by {
        assert(rest[i] == file[i + shared - 1]);
    }
    lemma_climbing((base.len() - shared) as nat, rest);
    assert(seq!['/'][0] != seq!['.'][0]);
}

/// The window can be told anything, but for what goes to a panel when it has none, for a
/// toast when there is no number left for one, and for a file that it cannot follow.
pub proof fn law_what_a_window_can_be_told(
    window: Window,
    msg: Told,
    selection: FileSelection<Seq<char>, Seq<Seq<char>>>,
    file: Seq<char>,
)
    requires
        selection.cursor_file is Some,
    ensures
        msg is Toast || msg is SetSort ==> (window.accepts(msg) <==> window.toast_epoch
            != u64::MAX),
        msg is NavMove || msg is NavFirst || msg is NavLast || msg is ClipboardCopy
            || msg is ClipboardPaste ==> (window.accepts(msg) <==> window.directories.len() > 0),
        !(msg is Toast || msg is SetSort || msg is NavMove || msg is NavFirst || msg is NavLast
            || msg is ClipboardCopy || msg is ClipboardPaste || msg is NewSelection)
            ==> window.accepts(msg),
        window.accepts(Told::NewSelection(Selection::Nothing, Some(file))),
        window.accepts(Told::NewSelection(Selection::Files(selection), Some(file)))
            <==> window.can_follow(file),
        window.accepts(Told::NewSelection(Selection::Files(selection), None))
            <==> window.directories.len() > 0,
{
}

} // verus!
