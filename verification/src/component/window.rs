//! What the window is, as texts and numbers, and what a message makes of it.

use super::app::{AppEffect, AppMsg, Running, Transfer};
use super::directory_list::{DirectoryMessage, FileSelection, Selection};
use super::entry;
use super::entry::FilterChange;
use super::panel;
use super::panel::Panel;
use crate::config::{Settings, SortKey, State};
use crate::layout;
use crate::ops::Progress;
use crate::path;
use crate::text;
use vstd::prelude::*;

verus! {

/// The window as texts and numbers.
#[verifier::ext_equal]
pub struct Window {
    pub root: Seq<char>,
    pub directories: Seq<Panel>,
    pub transfers: Seq<Running<Seq<char>>>,
    pub search_panel: Option<usize>,
    pub toast_epoch: u64,
    pub columns_overflow: bool,
    pub settings: Settings,
    pub state: State,
}

/// How far the panels have got on their way to a file.
#[verifier::ext_equal]
pub struct Journey {
    /// The panels.
    pub panels: Seq<Panel>,

    /// The components of the path of the directory that was reached.
    pub here: Seq<Seq<char>>,

    /// What was asked for on the way.
    pub asks: Seq<AppEffect<Seq<char>, Seq<Seq<char>>>>,
}

impl Journey {
    /// One step further. A step up leaves the deepest panel. A name leads to a panel
    /// for the directory of that name, if `leads` says that it is one, and is passed
    /// over otherwise.
    pub open spec fn step(self, step: Seq<char>, leads: bool) -> Journey {
        if step == path::up() {
            Journey {
                panels: if self.panels.len() == 0 {
                    self.panels
                } else {
                    self.panels.drop_last()
                },
                here: self.here.drop_last(),
                asks: self.asks.push(AppEffect::Pop),
            }
        } else if leads {
            let there = self.here.push(step);
            Journey {
                panels: self.panels.push(panel::fresh(path::spelled(there), false)),
                here: there,
                asks: self.asks.push(AppEffect::Push(path::spelled(there), false)),
            }
        } else {
            self
        }
    }

    /// All of some steps further, where `verdicts` says of each name whether it
    /// leads to a directory.
    pub open spec fn along(self, steps: Seq<Seq<char>>, verdicts: Seq<bool>) -> Journey
        decreases steps.len(),
    {
        if steps.len() == 0 {
            self
        } else {
            self.along(steps.drop_last(), verdicts.drop_last()).step(steps.last(), verdicts.last())
        }
    }

    /// The path that is asked about at step `i`.
    pub open spec fn asked_about(
        self,
        steps: Seq<Seq<char>>,
        verdicts: Seq<bool>,
        i: int,
    ) -> Seq<char> {
        path::spelled(self.along(steps.take(i), verdicts.take(i)).here.push(steps[i]))
    }

    /// Whether `verdicts` is what `is_directory` said of the names among the steps.
    /// Of a step up nothing is asked.
    pub open spec fn answered<F: Fn(&str) -> bool>(
        self,
        steps: Seq<Seq<char>>,
        is_directory: F,
        verdicts: Seq<bool>,
    ) -> bool {
        &&& verdicts.len() == steps.len()
        &&& forall|i: int|
            0 <= i < steps.len() ==> if #[trigger] steps[i] == path::up() {
                !verdicts[i]
            } else {
                text::answers(is_directory, self.asked_about(steps, verdicts, i), verdicts[i])
            }
    }
}

/// How many of some steps lead up.
pub open spec fn climbs(steps: Seq<Seq<char>>) -> nat
    decreases steps.len(),
{
    if steps.len() == 0 {
        0
    } else if steps.last() == path::up() {
        climbs(steps.drop_last()) + 1
    } else {
        climbs(steps.drop_last())
    }
}

/// How many steps up a path has room for.
pub open spec fn room(path: Seq<char>) -> nat {
    if path::absolute(path) {
        (path::components(path).len() - 1) as nat
    } else {
        path::components(path).len()
    }
}

/// The index of the transfer with the given number from `from` on, or the number
/// of transfers.
pub open spec fn find_transfer(transfers: Seq<Running<Seq<char>>>, id: u64, from: int) -> int
    decreases transfers.len() - from,
{
    if from >= transfers.len() || transfers[from].id == id {
        from
    } else {
        find_transfer(transfers, id, from + 1)
    }
}

/// What the user reads after the order of entries changed.
pub open spec fn sort_description(key: SortKey, reversed: bool) -> Seq<char> {
    match (key, reversed) {
        (SortKey::Modified, true) => "Sort: modified (newest first)"@,
        (SortKey::Modified, false) => "Sort: modified (oldest first)"@,
        (SortKey::Name, false) => "Sort: name (A\u{2192}Z)"@,
        (SortKey::Name, true) => "Sort: name (Z\u{2192}A)"@,
        (SortKey::Type, false) => "Sort: type (dirs first)"@,
        (SortKey::Type, true) => "Sort: type (reversed)"@,
    }
}

/// The settings after the user chose to sort by `key`: the key that is active
/// already turns the order round. Modified starts newest first; name and type
/// start ascending.
pub open spec fn sorted_by(settings: Settings, key: SortKey) -> Settings {
    if settings.sort_key == key {
        Settings { sort_reversed: !settings.sort_reversed, ..settings }
    } else {
        Settings { sort_key: key, sort_reversed: key == SortKey::Modified, ..settings }
    }
}

/// The file that panels and preview follow, by its path: the one under the
/// cursor, else the only one, else the directory they are in. `path` is the path
/// of the file itself, where its URI could be read.
pub open spec fn followed(
    selection: FileSelection<Seq<char>, Seq<Seq<char>>>,
    path: Option<Seq<char>>,
) -> Option<Seq<char>> {
    if selection.cursor_file is Some || selection.files.len() == 1 {
        path
    } else {
        Some(selection.parent)
    }
}

impl Window {
    /// The deepest of the first `count` panels that holds the cursor.
    pub open spec fn cursor_among(self, count: nat) -> Option<int>
        decreases count,
    {
        if count == 0 {
            None
        } else if self.directories[count - 1].has_cursor() {
            Some(count - 1)
        } else {
            self.cursor_among((count - 1) as nat)
        }
    }

    /// The index of the deepest panel holding the cursor.
    pub open spec fn cursor_panel(self) -> Option<int> {
        self.cursor_among(self.directories.len())
    }

    /// The deepest panel.
    pub open spec fn deepest(self) -> int {
        if self.directories.len() == 0 {
            0
        } else {
            self.directories.len() - 1
        }
    }

    /// The panel the user is in: the one holding the cursor, or else the deepest.
    pub open spec fn here(self) -> int {
        match self.cursor_panel() {
            Some(index) => index,
            None => self.deepest(),
        }
    }

    /// What tells each panel whether it owns the keyboard cursor. Exactly one row
    /// on screen says "you are here".
    pub open spec fn marking(self) -> Seq<AppEffect<Seq<char>, Seq<Seq<char>>>> {
        Seq::new(
            self.directories.len(),
            |i: int|
                AppEffect::Tell(i as usize, DirectoryMessage::SetCursorPanel(i == self.here())),
        )
    }

    /// Whether the panels can be laid out in an area of the given width.
    pub open spec fn lays_out(self, area: i32) -> bool {
        layout::laid_out(area as int, self.directories.len(), self.here() as nat)
    }

    /// What lays the panels out in an area of the given width. Uniform columns
    /// overflow a narrow area, so there the rightmost panels are kept in view.
    pub open spec fn laying_out(self, area: i32) -> Seq<AppEffect<Seq<char>, Seq<Seq<char>>>> {
        let count = self.directories.len();
        if self.lays_out(area) {
            seq![
                AppEffect::SetGutter(layout::gutter(area as int, self.here() as nat) as i32),
            ] + Seq::new(
                count,
                |i: int|
                    AppEffect::Tell(
                        i as usize,
                        DirectoryMessage::SetLayout(
                            layout::planned_panels(area as int, count, self.here() as nat)[i],
                        ),
                    ),
            )
        } else {
            seq![AppEffect::SetGutter(0)] + Seq::new(
                count,
                |i: int| AppEffect::Tell(i as usize, DirectoryMessage::ResetLayout),
            ) + seq![AppEffect::ScrollToEnd]
        }
    }

    /// What titles the window.
    pub open spec fn titling(self) -> Seq<AppEffect<Seq<char>, Seq<Seq<char>>>> {
        if self.directories.len() == 0 {
            Seq::empty()
        } else {
            seq![AppEffect::Retitle(self.here() as usize)]
        }
    }

    /// The window after it was laid out in an area of the given width.
    pub open spec fn settled(self, area: i32) -> Window {
        Window { columns_overflow: !self.lays_out(area), ..self }
    }

    /// What follows every message.
    pub open spec fn settling(self, area: i32) -> Seq<AppEffect<Seq<char>, Seq<Seq<char>>>> {
        self.marking() + self.laying_out(area) + self.titling()
    }

    /// The components of the path of the deepest directory that is listed.
    pub open spec fn last_dir(self) -> Seq<Seq<char>> {
        path::components(self.directories.last().dir)
    }

    /// The steps from there to a file.
    pub open spec fn steps(self, file: Seq<char>) -> Seq<Seq<char>> {
        path::steps(path::components(file), self.last_dir())
    }

    /// Where the panels set out from.
    pub open spec fn departure(self) -> Journey {
        Journey { panels: self.directories, here: self.last_dir(), asks: Seq::empty() }
    }

    /// Where the panels get to when they follow a file.
    pub open spec fn arrival(self, file: Seq<char>, verdicts: Seq<bool>) -> Journey {
        self.departure().along(self.steps(file), verdicts)
    }

    /// The window after its panels followed a file.
    pub open spec fn followed_to(self, file: Seq<char>, verdicts: Seq<bool>) -> Window {
        Window { directories: self.arrival(file, verdicts).panels, ..self }
    }

    /// What following a file asks for: the panels that do not lead to it go, and
    /// those that do come.
    pub open spec fn following(self, file: Seq<char>, verdicts: Seq<bool>) -> Seq<
        AppEffect<Seq<char>, Seq<Seq<char>>>,
    > {
        self.arrival(file, verdicts).asks
    }

    /// Whether the panels can follow a file: something is listed, and there is a way
    /// from there to the file that never steps up from the root, not even if every
    /// name on it is passed over.
    pub open spec fn can_follow(self, file: Seq<char>) -> bool {
        &&& self.directories.len() > 0
        &&& path::connected(file, self.directories.last().dir)
        &&& path::has_way(path::components(file), self.last_dir())
        &&& climbs(self.steps(file)) <= room(self.directories.last().dir)
    }

    /// The file whose panels a message makes the window follow.
    pub open spec fn target(self, msg: AppMsg<Seq<char>, Seq<Seq<char>>>) -> Option<Seq<char>> {
        match msg {
            AppMsg::NewSelection(Selection::Files(selection), path) => followed(selection, path),
            _ => None,
        }
    }

    /// Whether a message is passed over: it is about a file whose URI cannot be
    /// read.
    pub open spec fn passes_over(self, msg: AppMsg<Seq<char>, Seq<Seq<char>>>) -> bool {
        msg matches AppMsg::NewSelection(Selection::Files(_), _) && self.target(msg) is None
    }

    /// Whether `verdicts` is what `is_directory` said when the window took `msg`.
    pub open spec fn consulted<F: Fn(&str) -> bool>(
        self,
        msg: AppMsg<Seq<char>, Seq<Seq<char>>>,
        is_directory: F,
        verdicts: Seq<bool>,
    ) -> bool {
        match self.target(msg) {
            Some(file) => self.departure().answered(self.steps(file), is_directory, verdicts),
            None => verdicts.len() == 0,
        }
    }

    /// Whether the window can be told this. What goes to the deepest panel needs
    /// one, a file must be one that the panels can follow, and there must be an
    /// epoch left for a toast.
    pub open spec fn accepts(self, msg: AppMsg<Seq<char>, Seq<Seq<char>>>) -> bool {
        match msg {
            AppMsg::NewSelection(Selection::Files(selection), path) => {
                &&& self.directories.len() > 0
                &&& followed(selection, path) is Some ==> self.can_follow(
                    followed(selection, path)->0,
                )
            },
            AppMsg::Toast(_) => self.toast_epoch < u64::MAX,
            AppMsg::SetSort(_) => self.toast_epoch < u64::MAX,
            AppMsg::NavMove(_) => self.directories.len() > 0,
            AppMsg::NavFirst => self.directories.len() > 0,
            AppMsg::NavLast => self.directories.len() > 0,
            AppMsg::ClipboardCopy(_) => self.directories.len() > 0,
            AppMsg::ClipboardPaste => self.directories.len() > 0,
            _ => true,
        }
    }

    /// The index of the transfer with the given number, or the number of
    /// transfers.
    pub open spec fn transfer_at(self, id: u64) -> int {
        find_transfer(self.transfers, id, 0)
    }

    /// The window after it was told `msg`, before its panels are laid out anew.
    pub open spec fn changed(
        self,
        msg: AppMsg<Seq<char>, Seq<Seq<char>>>,
        verdicts: Seq<bool>,
    ) -> Window {
        match msg {
            AppMsg::NewSelection(Selection::Files(selection), path) => match followed(
                selection,
                path,
            ) {
                Some(file) => self.followed_to(file, verdicts),
                None => self,
            },
            AppMsg::NewRoot(root) => Window { root, directories: seq![panel::fresh(root, true)], ..self },
            AppMsg::Transfer(Transfer::New { id, description }) => Window {
                transfers: self.transfers.push(Running { id, description, current: 0, total: 0 }),
                ..self
            },
            AppMsg::Transfer(Transfer::Progress(progress)) => {
                let index = self.transfer_at(progress.id);
                if index < self.transfers.len() {
                    Window {
                        transfers: self.transfers.update(
                            index,
                            Running {
                                current: progress.current,
                                total: progress.total,
                                ..self.transfers[index]
                            },
                        ),
                        ..self
                    }
                } else {
                    self
                }
            },
            AppMsg::Transfer(Transfer::Done { id }) => {
                let index = self.transfer_at(id);
                if index < self.transfers.len() {
                    Window { transfers: self.transfers.remove(index), ..self }
                } else {
                    self
                }
            },
            AppMsg::Toast(_) => Window { toast_epoch: (self.toast_epoch + 1) as u64, ..self },
            AppMsg::SearchOpen => Window { search_panel: Some(self.here() as usize), ..self },
            AppMsg::SearchCancel => Window { search_panel: None, ..self },
            AppMsg::SetSort(key) => Window {
                settings: sorted_by(self.settings, key),
                toast_epoch: (self.toast_epoch + 1) as u64,
                ..self
            },
            _ => self,
        }
    }

    /// What tells the panel that is searched something, if it is still there.
    pub open spec fn telling_searched(self, message: DirectoryMessage<Seq<char>>) -> Seq<
        AppEffect<Seq<char>, Seq<Seq<char>>>,
    > {
        match self.search_panel {
            Some(index) => if index < self.directories.len() {
                seq![AppEffect::Tell(index, message)]
            } else {
                Seq::empty()
            },
            None => Seq::empty(),
        }
    }

    /// What tells the panel holding the cursor something, if there is one.
    pub open spec fn telling_cursor(self, message: DirectoryMessage<Seq<char>>) -> Seq<
        AppEffect<Seq<char>, Seq<Seq<char>>>,
    > {
        match self.cursor_panel() {
            Some(index) => seq![AppEffect::Tell(index as usize, message)],
            None => Seq::empty(),
        }
    }

    /// What tells the panel the user is in something.
    pub open spec fn telling_here(self, message: DirectoryMessage<Seq<char>>) -> Seq<
        AppEffect<Seq<char>, Seq<Seq<char>>>,
    > {
        seq![AppEffect::Tell(self.here() as usize, message)]
    }

    /// What `msg` asks for, before the panels are laid out anew.
    pub open spec fn asks(
        self,
        msg: AppMsg<Seq<char>, Seq<Seq<char>>>,
        verdicts: Seq<bool>,
    ) -> Seq<AppEffect<Seq<char>, Seq<Seq<char>>>> {
        match msg {
            AppMsg::Error(message) => seq![AppEffect::Alert(message)],
            AppMsg::NewSelection(Selection::Files(selection), path) => match followed(
                selection,
                path,
            ) {
                Some(file) => self.following(file, verdicts).push(
                    AppEffect::Preview(Selection::Files(selection)),
                ),
                None => Seq::empty(),
            },
            AppMsg::NewSelection(Selection::Nothing, _) => seq![AppEffect::HidePreview],
            AppMsg::NewRoot(root) => seq![
                AppEffect::ClearPanels,
                AppEffect::Push(root, true),
                AppEffect::HidePreview,
            ],
            AppMsg::Transfer(Transfer::New { id, description }) => seq![
                AppEffect::AddTransfer(id, description),
                AppEffect::ShowTransferButton(true),
            ],
            AppMsg::Transfer(Transfer::Progress(progress)) => {
                let index = self.transfer_at(progress.id);
                if index < self.transfers.len() {
                    seq![
                        AppEffect::UpdateTransfer(index as usize, progress),
                        AppEffect::ShowTransferButton(true),
                    ]
                } else {
                    seq![AppEffect::ShowTransferButton(self.transfers.len() > 0)]
                }
            },
            AppMsg::Transfer(Transfer::Done { id }) => {
                let index = self.transfer_at(id);
                if index < self.transfers.len() {
                    seq![
                        AppEffect::RemoveTransfer(index as usize),
                        AppEffect::ShowTransferButton(self.transfers.len() > 1),
                    ]
                } else {
                    seq![AppEffect::ShowTransferButton(self.transfers.len() > 0)]
                }
            },
            AppMsg::Toast(message) => seq![
                AppEffect::Toast(message, (self.toast_epoch + 1) as u64),
            ],
            AppMsg::Relayout => Seq::empty(),
            AppMsg::About => seq![AppEffect::ShowAbout],
            AppMsg::Mount => seq![AppEffect::ShowMount],
            AppMsg::SearchOpen => seq![AppEffect::OpenSearchBar],
            AppMsg::SearchChanged(term) => self.telling_searched(DirectoryMessage::SetSearch(term)),
            AppMsg::SearchConfirm => seq![AppEffect::Unfocus],
            AppMsg::SearchCancel => self.telling_searched(DirectoryMessage::ClearSearch) + seq![
                AppEffect::CloseSearchBar,
                AppEffect::Unfocus,
            ],
            AppMsg::SearchNext => self.telling_searched(DirectoryMessage::SearchNext),
            AppMsg::SearchPrev => self.telling_searched(DirectoryMessage::SearchPrev),
            AppMsg::SetSort(key) => seq![
                AppEffect::RefreshSorters,
                AppEffect::Toast(
                    sort_description(key, sorted_by(self.settings, key).sort_reversed),
                    (self.toast_epoch + 1) as u64,
                ),
            ],
            AppMsg::RenameSelected => self.telling_cursor(DirectoryMessage::RenameSelected),
            AppMsg::NavMove(delta) => match self.cursor_panel() {
                Some(index) => seq![
                    AppEffect::Tell(index as usize, DirectoryMessage::MoveCursor(delta)),
                ],
                None => seq![
                    AppEffect::Tell(
                        self.deepest() as usize,
                        if delta >= 0 {
                            DirectoryMessage::SelectFirst
                        } else {
                            DirectoryMessage::SelectLast
                        },
                    ),
                ],
            },
            AppMsg::NavFirst => self.telling_here(DirectoryMessage::SelectFirst),
            AppMsg::NavLast => self.telling_here(DirectoryMessage::SelectLast),
            AppMsg::ToggleMark => self.telling_cursor(DirectoryMessage::ToggleMark),
            AppMsg::ClipboardCopy(op) => self.telling_here(DirectoryMessage::ClipboardCopy(op)),
            AppMsg::ClipboardPaste => self.telling_here(DirectoryMessage::ClipboardPaste),
            AppMsg::TrashSelected => self.telling_cursor(DirectoryMessage::TrashSelection),
            AppMsg::DeletePermanentSelected => self.telling_cursor(
                DirectoryMessage::DeleteSelectionPermanent,
            ),
            AppMsg::NavInto => match self.cursor_panel() {
                Some(index) => if index + 1 < self.directories.len() {
                    seq![AppEffect::Tell((index + 1) as usize, DirectoryMessage::SelectFirst)]
                } else {
                    seq![AppEffect::Tell(index as usize, DirectoryMessage::OpenSelected)]
                },
                None => Seq::empty(),
            },
            AppMsg::NavParent => if self.cursor_panel() is Some && self.cursor_panel()->0 > 0 {
                self.telling_cursor(DirectoryMessage::UnselectAll)
            } else {
                match path::parent(self.root) {
                    Some(parent) => seq![AppEffect::Say(AppMsg::NewRoot(parent))],
                    None => Seq::empty(),
                }
            },
            AppMsg::ToggleAudioPreview => seq![AppEffect::ToggleAudio],
        }
    }

    /// The window after it was told `msg`.
    pub open spec fn after(
        self,
        msg: AppMsg<Seq<char>, Seq<Seq<char>>>,
        verdicts: Seq<bool>,
        area: i32,
    ) -> Window {
        if self.passes_over(msg) {
            self
        } else {
            self.changed(msg, verdicts).settled(area)
        }
    }

    /// What the window asks for when it is told `msg`.
    pub open spec fn causes(
        self,
        msg: AppMsg<Seq<char>, Seq<Seq<char>>>,
        verdicts: Seq<bool>,
        area: i32,
    ) -> Seq<AppEffect<Seq<char>, Seq<Seq<char>>>> {
        if self.passes_over(msg) {
            Seq::empty()
        } else {
            self.asks(msg, verdicts) + self.changed(msg, verdicts).settling(area)
        }
    }

    /// The window after hidden files were shown or hidden.
    pub open spec fn hidden_toggled(self) -> Window {
        Window {
            settings: Settings { show_hidden: !self.settings.show_hidden, ..self.settings },
            ..self
        }
    }

    /// What showing or hiding hidden files asks for.
    pub open spec fn toggling_hidden(self) -> Seq<AppEffect<Seq<char>, Seq<Seq<char>>>> {
        if self.settings.show_hidden {
            seq![
                AppEffect::RefreshHiddenFilters(FilterChange::MoreStrict),
                AppEffect::Say(AppMsg::Toast("Hiding hidden files"@)),
            ]
        } else {
            seq![
                AppEffect::RefreshHiddenFilters(FilterChange::LessStrict),
                AppEffect::Say(AppMsg::Toast("Showing hidden files"@)),
            ]
        }
    }
}

proof fn lemma_cursor_among(window: Window, count: nat)
    requires
        count <= window.directories.len(),
    ensures
        match window.cursor_among(count) {
            Some(index) => {
                &&& 0 <= index < count
                &&& window.directories[index].has_cursor()
                &&& forall|i: int|
                    index < i < count ==> !(#[trigger] window.directories[i]).has_cursor()
            },
            None => forall|i: int|
                0 <= i < count ==> !(#[trigger] window.directories[i]).has_cursor(),
        },
    decreases count,
{
    if count > 0 {
        lemma_cursor_among(window, (count - 1) as nat);
    }
}

/// The cursor panel is the deepest one that holds the cursor.
pub proof fn law_the_cursor_panel_is_the_deepest(window: Window, i: int)
    requires
        0 <= i < window.directories.len(),
    ensures
        match window.cursor_panel() {
            Some(index) => {
                &&& 0 <= index < window.directories.len()
                &&& window.directories[index].has_cursor()
                &&& window.directories[i].has_cursor() ==> i <= index
            },
            None => !window.directories[i].has_cursor(),
        },
{
    lemma_cursor_among(window, window.directories.len());
}

/// Of all panels exactly one is told that it owns the keyboard cursor, and that is
/// the one the user is in.
pub proof fn law_one_panel_owns_the_cursor(window: Window, i: int)
    requires
        0 <= i < window.directories.len(),
    ensures
        0 <= window.here() < window.directories.len(),
        window.marking()[i] == AppEffect::<Seq<char>, Seq<Seq<char>>>::Tell(
            i as usize,
            DirectoryMessage::SetCursorPanel(i == window.here()),
        ),
{
    lemma_cursor_among(window, window.directories.len());
}

/// The epoch of the toast only ever grows, and grows with each new toast, so the
/// timer of an older toast never hides a newer one.
pub proof fn law_an_older_timer_never_hides_a_newer_toast(
    window: Window,
    msg: AppMsg<Seq<char>, Seq<Seq<char>>>,
    verdicts: Seq<bool>,
    area: i32,
)
    requires
        window.accepts(msg),
    ensures
        window.after(msg, verdicts, area).toast_epoch >= window.toast_epoch,
        msg is Toast || msg is SetSort ==> window.after(msg, verdicts, area).toast_epoch
            > window.toast_epoch,
{
}

/// A selection whose URI cannot be read changes nothing.
pub proof fn law_an_unreadable_selection_changes_nothing(
    window: Window,
    selection: FileSelection<Seq<char>, Seq<Seq<char>>>,
    verdicts: Seq<bool>,
    area: i32,
)
    requires
        selection.cursor_file is Some || selection.files.len() == 1,
    ensures
        window.after(
            AppMsg::NewSelection(Selection::Files(selection), None),
            verdicts,
            area,
        ) == window,
{
}

/// Choosing the same key again turns the order round, and a third time turns it
/// back. Another key starts in its own order.
pub proof fn law_the_same_key_turns_the_order(settings: Settings, key: SortKey)
    ensures
        sorted_by(sorted_by(settings, key), key) == (Settings {
            sort_reversed: !sorted_by(settings, key).sort_reversed,
            ..sorted_by(settings, key)
        }),
        sorted_by(sorted_by(sorted_by(settings, key), key), key) == sorted_by(settings, key),
        settings.sort_key != key ==> sorted_by(settings, key).sort_reversed == (key
            == SortKey::Modified),
{
}

pub proof fn lemma_find_transfer(transfers: Seq<Running<Seq<char>>>, id: u64, from: int)
    requires
        0 <= from <= transfers.len(),
    ensures
        from <= find_transfer(transfers, id, from) <= transfers.len(),
        find_transfer(transfers, id, from) < transfers.len() ==> transfers[find_transfer(
            transfers,
            id,
            from,
        )].id == id,
        forall|i: int|
            from <= i < find_transfer(transfers, id, from) ==> (#[trigger] transfers[i]).id != id,
    decreases transfers.len() - from,
{
    if from < transfers.len() && transfers[from].id != id {
        lemma_find_transfer(transfers, id, from + 1);
    }
}

/// A transfer that began and is over leaves nothing behind: its row is gone, and
/// with the last of them the button.
#[verifier::spinoff_prover]
pub proof fn law_a_finished_transfer_leaves_nothing_behind(
    window: Window,
    id: u64,
    description: Seq<char>,
)
    requires
        forall|i: int|
            0 <= i < window.transfers.len() ==> (#[trigger] window.transfers[i]).id != id,
    ensures
        ({
            let begun = AppMsg::<Seq<char>, Seq<Seq<char>>>::Transfer(
                Transfer::New { id, description },
            );
            let over = AppMsg::<Seq<char>, Seq<Seq<char>>>::Transfer(Transfer::Done { id });
            let running = window.changed(begun, Seq::empty());
            &&& running.transfers.len() == window.transfers.len() + 1
            &&& running.changed(over, Seq::empty()) == window
            &&& running.asks(over, Seq::empty()).last()
                == AppEffect::<Seq<char>, Seq<Seq<char>>>::ShowTransferButton(
                window.transfers.len() > 0,
            )
        }),
{
    let begun = AppMsg::<Seq<char>, Seq<Seq<char>>>::Transfer(Transfer::New { id, description });
    let over = AppMsg::<Seq<char>, Seq<Seq<char>>>::Transfer(Transfer::Done { id });
    let running = window.changed(begun, Seq::empty());
    let count = window.transfers.len() as int;
    lemma_find_transfer(running.transfers, id, 0);
    assert(running.transfers[count].id == id);
    let at = running.transfer_at(id);
    if at < count {
        assert(window.transfers[at].id == running.transfers[at].id);
    }
    assert(at == count);
    assert(running.transfers.remove(count) =~= window.transfers);
    assert(running.changed(over, Seq::empty()) == (Window {
        transfers: running.transfers.remove(count),
        ..running
    }));
}

/// Whether each panel lists a directory in the one left of it.
pub open spec fn stacked(directories: Seq<Panel>) -> bool {
    &&& forall|i: int| 0 <= i < directories.len() ==> path::absolute((#[trigger] directories[i]).dir)
    &&& forall|i: int|
        0 < i < directories.len() ==> lies_in(#[trigger] directories[i], directories[i - 1])
}

/// Whether one panel lists a directory in the one that another lists.
pub open spec fn lies_in(inner: Panel, outer: Panel) -> bool {
    let parts = path::components(inner.dir);
    parts.len() > 0 && parts.drop_last() == path::components(outer.dir)
}

proof fn lemma_stacked(directories: Seq<Panel>, i: int, j: int)
    requires
        stacked(directories),
        0 <= i <= j < directories.len(),
    ensures
        path::components(directories[j].dir).len() == path::components(directories[i].dir).len() + (
        j - i),
        path::components(directories[j].dir).take(
            path::components(directories[i].dir).len() as int,
        ) == path::components(directories[i].dir),
    decreases j - i,
{
    let inner = path::components(directories[j].dir);
    let outer = path::components(directories[i].dir);
    if i == j {
        assert(inner.take(inner.len() as int) =~= inner);
    } else {
        lemma_stacked(directories, i, j - 1);
        assert(lies_in(directories[j], directories[j - 1]));
        assert(inner.take(outer.len() as int) =~= inner.drop_last().take(outer.len() as int));
    }
}

pub proof fn lemma_in_common_behind(shared: Seq<Seq<char>>, a: Seq<Seq<char>>, b: Seq<Seq<char>>)
    ensures
        path::in_common(shared + a, shared + b) == shared.len() + path::in_common(a, b),
    decreases shared.len(),
{
    if shared.len() == 0 {
        assert(shared + a =~= a);
        assert(shared + b =~= b);
    } else {
        lemma_in_common_behind(shared.drop_first(), a, b);
        assert((shared + a).drop_first() =~= shared.drop_first() + a);
        assert((shared + b).drop_first() =~= shared.drop_first() + b);
    }
}

/// Steps up leave one panel each.
proof fn lemma_leaving(from: Journey, count: nat, verdicts: Seq<bool>)
    requires
        verdicts.len() == count,
        count < from.panels.len(),
        count < from.here.len(),
    ensures
        from.along(path::ups(count), verdicts).panels == from.panels.take(
            from.panels.len() - count,
        ),
        from.along(path::ups(count), verdicts).here == from.here.take(from.here.len() - count),
    decreases count,
{
    if count == 0 {
        assert(from.panels.take(from.panels.len() as int) =~= from.panels);
        assert(from.here.take(from.here.len() as int) =~= from.here);
    } else {
        let less = (count - 1) as nat;
        lemma_leaving(from, less, verdicts.drop_last());
        assert(path::ups(count).drop_last() =~= path::ups(less));
        assert(path::ups(count).last() == path::up());
        let before = from.along(path::ups(less), verdicts.drop_last());
        assert(before.panels.drop_last() =~= from.panels.take(from.panels.len() - count));
        assert(before.here.drop_last() =~= from.here.take(from.here.len() - count));
    }
}

/// A path whose components are those of an absolute one and more is absolute.
proof fn lemma_absolute(dir: Seq<char>, name: Seq<char>, file: Seq<char>)
    requires
        path::absolute(dir),
        path::components(file) == path::components(dir).push(name),
    ensures
        path::absolute(file),
{
    assert(path::components(file)[0] == seq!['/']);
    assert(seq!['/'].contains('/')) by {
        assert(seq!['/'][0] == '/');
    }
    path::lemma_components_are_names(file);
    let n = path::anchor(file).len() as int;
    if !path::absolute(file) {
        if n == 0 {
            assert(path::components(file).skip(0)[0] == seq!['/']);
        } else {
            assert(path::components(file)[0] == seq!['.']);
            assert(seq!['.'][0] != seq!['/'][0]);
        }
    }
}

proof fn lemma_one_more(steps: Seq<Seq<char>>, name: Seq<char>)
    ensures
        steps + seq![name] == steps.push(name),
{
    assert(steps + seq![name] =~= steps.push(name));
}

/// The steps to something in a panel: up to the panel, and then down by the name
/// unless that is the next panel already.
proof fn lemma_steps_into(window: Window, i: int, name: Seq<char>, file: Seq<char>)
    requires
        stacked(window.directories),
        0 <= i < window.directories.len(),
        path::components(file) == path::components(window.directories[i].dir).push(name),
    ensures
        ({
            let panels = window.directories;
            let last = panels.len() - 1;
            if i < last && path::components(panels[i + 1].dir) == path::components(file) {
                window.steps(file) == path::ups((last - (i + 1)) as nat)
            } else {
                window.steps(file) == path::ups((last - i) as nat).push(name)
            }
        }),
{
    let panels = window.directories;
    let last = panels.len() - 1;
    let here = path::components(panels[i].dir);
    let there = here.push(name);
    let deepest = window.last_dir();
    assert(path::absolute(panels[i].dir));
    assert(path::absolute(panels[last].dir));
    lemma_absolute(panels[i].dir, name, file);
    path::lemma_steps_are_the_way(file, panels[last].dir);
    assert(deepest[0] == seq!['/']);
    assert(seq!['.'][0] != seq!['/'][0]);
    assert(!path::strays(there, deepest));
    lemma_stacked(panels, i, last);
    let below = deepest.skip(here.len() as int);
    assert(deepest =~= here + below);
    assert(there =~= here + seq![name]);
    lemma_in_common_behind(here, seq![name], below);
    assert(seq![name].drop_first() =~= Seq::<Seq<char>>::empty());
    assert(path::in_common(Seq::<Seq<char>>::empty(), below.drop_first()) == 0);
    if i < last {
        lemma_stacked(panels, i + 1, last);
        let next = path::components(panels[i + 1].dir);
        assert(lies_in(panels[i + 1], panels[i]));
        assert(next =~= here.push(next.last()));
        assert(below[0] == next.last()) by {
            assert(deepest.take(next.len() as int)[here.len() as int] == next.last());
        }
        if below[0] == name {
            assert(next == there);
        }
    }
    let shared = path::in_common(there, deepest) as int;
    if i < last && path::components(panels[i + 1].dir) == there {
        assert(shared == here.len() + 1);
        assert(there.skip(shared) =~= Seq::<Seq<char>>::empty());
        assert(window.steps(file) =~= path::ups((last - (i + 1)) as nat));
    } else {
        assert(shared == here.len());
        assert(there[shared] == name);
        assert(there.skip(shared).len() == 1);
        assert(there.skip(shared)[0] == name);
        assert(there.skip(shared) =~= seq![name]);
        let leaving = path::ups((last - i) as nat);
        assert(deepest.len() - shared == last - i);
        assert(window.steps(file) == leaving + there.skip(shared));
        lemma_one_more(leaving, name);
    }
}

/// Selecting something in a panel leaves that panel and those left of it as they
/// are. If its own listing is the next panel already, that stays too; otherwise it
/// is added if it is a directory. Everything further right goes.
pub proof fn law_selecting_keeps_the_panels_that_lead_there(
    window: Window,
    i: int,
    name: Seq<char>,
    file: Seq<char>,
    verdicts: Seq<bool>,
)
    requires
        stacked(window.directories),
        0 <= i < window.directories.len(),
        name != path::up(),
        path::components(file) == path::components(window.directories[i].dir).push(name),
        verdicts.len() == window.steps(file).len(),
    ensures
        ({
            let panels = window.directories;
            let after = window.followed_to(file, verdicts).directories;
            if i + 1 < panels.len() && path::components(panels[i + 1].dir) == path::components(
                file,
            ) {
                after == panels.take(i + 2)
            } else {
                &&& verdicts.len() == panels.len() - i
                &&& after == (if verdicts.last() {
                    panels.take(i + 1).push(
                        panel::fresh(path::spelled(path::components(file)), false),
                    )
                } else {
                    panels.take(i + 1)
                })
            }
        }),
{
    let panels = window.directories;
    let last = panels.len() - 1;
    let here = path::components(panels[i].dir);
    let steps = window.steps(file);
    let from = window.departure();
    let after = window.followed_to(file, verdicts).directories;
    lemma_steps_into(window, i, name, file);
    lemma_stacked(panels, i, last);
    if i < last && path::components(panels[i + 1].dir) == path::components(file) {
        lemma_leaving(from, (last - (i + 1)) as nat, verdicts);
    } else {
        let leaving = path::ups((last - i) as nat);
        assert(path::components(panels[i].dir).len() > 0) by {
            assert(path::absolute(panels[i].dir));
        }
        assert(steps.drop_last() =~= leaving);
        lemma_leaving(from, (last - i) as nat, verdicts.drop_last());
        let before = from.along(leaving, verdicts.drop_last());
        assert(before.here =~= here);
        assert(from.along(steps, verdicts) == before.step(name, verdicts.last()));
    }
}

/// Whether a journey is in order: its panels are stacked, and the deepest of them
/// lists the directory that was reached.
spec fn on_course(journey: Journey) -> bool {
    &&& stacked(journey.panels)
    &&& path::rooted(journey.here)
    &&& journey.panels.len() > 0 ==> path::components(journey.panels.last().dir) == journey.here
}

proof fn lemma_on_course(from: Journey, steps: Seq<Seq<char>>, verdicts: Seq<bool>)
    requires
        on_course(from),
        path::all_names(steps),
        verdicts.len() == steps.len(),
        climbs(steps) < from.here.len(),
    ensures
        on_course(from.along(steps, verdicts)),
        from.along(steps, verdicts).here.len() + climbs(steps) >= from.here.len(),
    decreases steps.len(),
{
    if steps.len() > 0 {
        let fewer = steps.drop_last();
        let name = steps.last();
        assert(path::all_names(fewer)) by {
            assert forall|i: int| 0 <= i < fewer.len() implies path::names(#[trigger] fewer[i])
                && !fewer[i].contains('/') by {
                assert(fewer[i] == steps[i]);
            }
        }
        assert(path::names(steps[steps.len() - 1]));
        lemma_on_course(from, fewer, verdicts.drop_last());
        let before = from.along(fewer, verdicts.drop_last());
        let after = from.along(steps, verdicts);
        if name == path::up() {
            assert(after.here == before.here.drop_last());
            assert forall|i: int| 1 <= i < after.here.len() implies path::names(
                #[trigger] after.here[i],
            ) && !after.here[i].contains('/') by {
                assert(after.here[i] == before.here[i]);
            }
            let count = after.panels.len() as int;
            assert forall|i: int| 0 <= i < count implies path::absolute(
                (#[trigger] after.panels[i]).dir,
            ) by {
                assert(after.panels[i] == before.panels[i]);
            }
            assert forall|i: int| 0 < i < count implies lies_in(
                #[trigger] after.panels[i],
                after.panels[i - 1],
            ) by {
                assert(after.panels[i] == before.panels[i]);
                assert(after.panels[i - 1] == before.panels[i - 1]);
                assert(lies_in(before.panels[i], before.panels[i - 1]));
            }
            if count > 0 {
                assert(lies_in(before.panels[count], before.panels[count - 1]));
            }
        } else if verdicts.last() {
            let there = before.here.push(name);
            assert forall|i: int| 1 <= i < there.len() implies path::names(#[trigger] there[i])
                && !there[i].contains('/') by {
                if i < before.here.len() {
                    assert(there[i] == before.here[i]);
                }
            }
            path::law_taking_apart_undoes_spelling(there);
            assert(there.drop_last() =~= before.here);
            let count = before.panels.len() as int;
            assert forall|i: int| 0 <= i <= count implies path::absolute(
                (#[trigger] after.panels[i]).dir,
            ) by {
                if i < count {
                    assert(after.panels[i] == before.panels[i]);
                }
            }
            assert forall|i: int| 0 < i <= count implies lies_in(
                #[trigger] after.panels[i],
                after.panels[i - 1],
            ) by {
                assert(after.panels[i - 1] == before.panels[i - 1]);
                if i < count {
                    assert(after.panels[i] == before.panels[i]);
                    assert(lies_in(before.panels[i], before.panels[i - 1]));
                }
            }
        }
    }
}

/// However the selection moves, each panel goes on listing a directory in the one
/// left of it.
pub proof fn law_the_panels_stay_stacked(window: Window, file: Seq<char>, verdicts: Seq<bool>)
    requires
        stacked(window.directories),
        window.can_follow(file),
        verdicts.len() == window.steps(file).len(),
    ensures
        stacked(window.followed_to(file, verdicts).directories),
{
    let dir = window.directories[window.directories.len() - 1].dir;
    assert(path::absolute(dir));
    path::lemma_absolute_is_rooted(dir);
    path::lemma_steps_are_names(file, dir);
    lemma_on_course(window.departure(), window.steps(file), verdicts);
}

/// A new root starts a new stack.
pub proof fn law_a_new_root_starts_a_new_stack(window: Window, root: Seq<char>)
    requires
        path::absolute(root),
    ensures
        stacked(window.changed(AppMsg::NewRoot(root), Seq::empty()).directories),
{
}

} // verus!
