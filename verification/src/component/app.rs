//! The window: the stack of panels, the search, the sorting, the running
//! transfers and the toast in its corner.
//!
//! The window takes messages one at a time. What a message changes here happens
//! here; what it asks of the widgets, the panels or the file system is handed
//! back as a list of effects, in the order they are due.

use super::directory_list::{holds, Directory, DirectoryMessage, FileSelection, Selection};
use super::entry;
use super::entry::{refresh_hidden_filters, FilterChange};
use super::panel;
use super::window;
use super::window::Window;
use crate::clipboard::ClipboardOp;
use crate::config;
use crate::config::{
    set_show_hidden, set_sort_key, set_sort_reversed, show_hidden, sort_key, sort_reversed,
    Settings, SortKey, State,
};
use crate::layout;
use crate::layout::solve;
use crate::ops::Progress;
use crate::path;
use crate::path::{components_of, directions, join, parent_of};
use crate::path_title;
use crate::path_title::{markup, segments, shorten};
use crate::text;
use crate::text::same;
use crate::transfer::Active;
use vstd::prelude::*;

verus! {

/// What a file operation says of itself.
#[derive(Debug, Clone, PartialEq, Eq)]
pub enum Transfer<Text = String> {
    /// It has begun.
    New { id: u64, description: Text },

    /// It has got this far.
    Progress(Progress),

    /// It is over, whether it succeeded or failed.
    Done { id: u64 },
}

impl View for Transfer {
    type V = Transfer<Seq<char>>;

    open spec fn view(&self) -> Transfer<Seq<char>> {
        match self {
            Transfer::New { id, description } => Transfer::New {
                id: *id,
                description: description@,
            },
            Transfer::Progress(progress) => Transfer::Progress(*progress),
            Transfer::Done { id } => Transfer::Done { id: *id },
        }
    }
}

/// What the window can be told.
#[derive(Debug, Clone, PartialEq, Eq)]
pub enum AppMsg<Text = String, Texts = Vec<String>> {
    /// Display an arbitrary error in an alert dialog.
    Error(Text),

    /// The root has changed to the directory with this path. Existing directory
    /// trees are now invalid and must be popped off the stack.
    NewRoot(Text),

    /// A new selection was made within the existing directory listings. This can
    /// result in a number of possible changes:
    ///
    /// - If the new selection is higher in the directory tree than the old
    ///   selection, the lower listings must be removed.
    /// - If the new selection is a directory, a new directory listing is pushed
    ///   onto the listing stack.
    /// - If the new selection is a file, the preview must be updated.
    ///
    /// With it comes the path of the file that the panels are to follow, unless
    /// its URI cannot be read.
    NewSelection(Selection<Text, Texts>, Option<Text>),

    /// Update the file transfer progress.
    Transfer(Transfer<Text>),

    /// Display a toast.
    Toast(Text),

    /// Put the cursor panel's operation set on the clipboard (`Ctrl+C`, `Ctrl+X`).
    ClipboardCopy(ClipboardOp),

    /// Paste the clipboard into the cursor panel's directory (`Ctrl+V`).
    ClipboardPaste,

    /// The columns area changed size; recompute the column widths.
    Relayout,

    /// Display the about window.
    About,

    /// Launch a dialog to mount a new mountable.
    Mount,

    /// Open the search bar for the deepest directory panel.
    SearchOpen,

    /// The search term changed.
    SearchChanged(Text),

    /// The search term was confirmed: move focus away so `n`/`N` navigate matches.
    SearchConfirm,

    /// Cancel the search and clear its highlights.
    SearchCancel,

    /// Move to the next search match.
    SearchNext,

    /// Move to the previous search match.
    SearchPrev,

    /// Sort by the given key; selecting the already-active key reverses the order.
    SetSort(SortKey),

    /// Open the rename popover for the selected entry.
    RenameSelected,

    /// Move the cursor down (`j`) or up (`k`) within the current panel.
    NavMove(i32),

    /// Jump to the first row (`gg`).
    NavFirst,

    /// Jump to the last row (`G`).
    NavLast,

    /// Descend into the selected directory, or open the selected file (`l`).
    NavInto,

    /// Move the cursor to the parent panel; at the root column, go up one level (`h`).
    NavParent,

    /// Toggle the mark on the cursor row and advance (`Space`).
    ToggleMark,

    /// Send the selected entries to the trash (`Delete`).
    TrashSelected,

    /// Permanently delete the selected entries (`Shift+Delete`).
    DeletePermanentSelected,

    /// Play or pause the previewed sound.
    ToggleAudioPreview,
}

impl View for AppMsg {
    type V = AppMsg<Seq<char>, Seq<Seq<char>>>;

    open spec fn view(&self) -> AppMsg<Seq<char>, Seq<Seq<char>>> {
        match self {
            AppMsg::Error(message) => AppMsg::Error(message@),
            AppMsg::NewRoot(path) => AppMsg::NewRoot(path@),
            AppMsg::NewSelection(selection, path) => AppMsg::NewSelection(
                selection@,
                entry::text_if_any(*path),
            ),
            AppMsg::Transfer(transfer) => AppMsg::Transfer(transfer@),
            AppMsg::Toast(message) => AppMsg::Toast(message@),
            AppMsg::ClipboardCopy(op) => AppMsg::ClipboardCopy(*op),
            AppMsg::ClipboardPaste => AppMsg::ClipboardPaste,
            AppMsg::Relayout => AppMsg::Relayout,
            AppMsg::About => AppMsg::About,
            AppMsg::Mount => AppMsg::Mount,
            AppMsg::SearchOpen => AppMsg::SearchOpen,
            AppMsg::SearchChanged(term) => AppMsg::SearchChanged(term@),
            AppMsg::SearchConfirm => AppMsg::SearchConfirm,
            AppMsg::SearchCancel => AppMsg::SearchCancel,
            AppMsg::SearchNext => AppMsg::SearchNext,
            AppMsg::SearchPrev => AppMsg::SearchPrev,
            AppMsg::SetSort(key) => AppMsg::SetSort(*key),
            AppMsg::RenameSelected => AppMsg::RenameSelected,
            AppMsg::NavMove(delta) => AppMsg::NavMove(*delta),
            AppMsg::NavFirst => AppMsg::NavFirst,
            AppMsg::NavLast => AppMsg::NavLast,
            AppMsg::NavInto => AppMsg::NavInto,
            AppMsg::NavParent => AppMsg::NavParent,
            AppMsg::ToggleMark => AppMsg::ToggleMark,
            AppMsg::TrashSelected => AppMsg::TrashSelected,
            AppMsg::DeletePermanentSelected => AppMsg::DeletePermanentSelected,
            AppMsg::ToggleAudioPreview => AppMsg::ToggleAudioPreview,
        }
    }
}

/// A list of messages as texts.
pub open spec fn said(messages: Seq<AppMsg>) -> Seq<AppMsg<Seq<char>, Seq<Seq<char>>>> {
    messages.map_values(|message: AppMsg| message@)
}

/// What the window asks for when it was told something.
#[derive(Debug, Clone, PartialEq, Eq)]
pub enum AppEffect<Text = String, Texts = Vec<String>> {
    /// Show this error in the alert dialog.
    Alert(Text),

    /// Tell the panel at this index something.
    Tell(usize, DirectoryMessage<Text>),

    /// Tell the window itself something, once it is done with this.
    Say(AppMsg<Text, Texts>),

    /// Remove the rightmost panel, if there is one.
    Pop,

    /// Add a panel on the right that lists the directory with this path, and tell
    /// it whether to select its first row once it is loaded.
    Push(Text, bool),

    /// Remove every panel.
    ClearPanels,

    /// Preview what is selected.
    Preview(Selection<Text, Texts>),

    /// Hide the preview.
    HidePreview,

    /// Play or pause the previewed sound.
    ToggleAudio,

    /// Add a row for a transfer with this number and description.
    AddTransfer(u64, Text),

    /// Update the row at this index.
    UpdateTransfer(usize, Progress),

    /// Remove the row at this index.
    RemoveTransfer(usize),

    /// Show or hide the button that opens the list of transfers.
    ShowTransferButton(bool),

    /// Show this toast, and let its timer report this epoch.
    Toast(Text, u64),

    /// Show the about window.
    ShowAbout,

    /// Show the dialog to mount a new mountable.
    ShowMount,

    /// Show the search bar, with its entry focused and what is in it selected.
    OpenSearchBar,

    /// Hide the search bar.
    CloseSearchBar,

    /// Take the focus off whatever has it.
    Unfocus,

    /// Sort every live panel anew.
    RefreshSorters,

    /// Filter every live panel anew.
    RefreshHiddenFilters(FilterChange),

    /// Leave this margin left of the panels.
    SetGutter(i32),

    /// Scroll the panels to their right end.
    ScrollToEnd,

    /// Title the window with the path of the panel at this index.
    Retitle(usize),
}

impl View for AppEffect {
    type V = AppEffect<Seq<char>, Seq<Seq<char>>>;

    open spec fn view(&self) -> AppEffect<Seq<char>, Seq<Seq<char>>> {
        match self {
            AppEffect::Alert(message) => AppEffect::Alert(message@),
            AppEffect::Tell(index, message) => AppEffect::Tell(*index, message@),
            AppEffect::Say(message) => AppEffect::Say(message@),
            AppEffect::Pop => AppEffect::Pop,
            AppEffect::Push(path, select_first) => AppEffect::Push(path@, *select_first),
            AppEffect::ClearPanels => AppEffect::ClearPanels,
            AppEffect::Preview(selection) => AppEffect::Preview(selection@),
            AppEffect::HidePreview => AppEffect::HidePreview,
            AppEffect::ToggleAudio => AppEffect::ToggleAudio,
            AppEffect::AddTransfer(id, description) => AppEffect::AddTransfer(*id, description@),
            AppEffect::UpdateTransfer(index, progress) => AppEffect::UpdateTransfer(
                *index,
                *progress,
            ),
            AppEffect::RemoveTransfer(index) => AppEffect::RemoveTransfer(*index),
            AppEffect::ShowTransferButton(show) => AppEffect::ShowTransferButton(*show),
            AppEffect::Toast(message, epoch) => AppEffect::Toast(message@, *epoch),
            AppEffect::ShowAbout => AppEffect::ShowAbout,
            AppEffect::ShowMount => AppEffect::ShowMount,
            AppEffect::OpenSearchBar => AppEffect::OpenSearchBar,
            AppEffect::CloseSearchBar => AppEffect::CloseSearchBar,
            AppEffect::Unfocus => AppEffect::Unfocus,
            AppEffect::RefreshSorters => AppEffect::RefreshSorters,
            AppEffect::RefreshHiddenFilters(change) => AppEffect::RefreshHiddenFilters(*change),
            AppEffect::SetGutter(gutter) => AppEffect::SetGutter(*gutter),
            AppEffect::ScrollToEnd => AppEffect::ScrollToEnd,
            AppEffect::Retitle(index) => AppEffect::Retitle(*index),
        }
    }
}

/// A list of effects as texts.
pub open spec fn caused(effects: Seq<AppEffect>) -> Seq<AppEffect<Seq<char>, Seq<Seq<char>>>> {
    effects.map_values(|effect: AppEffect| effect@)
}

proof fn lemma_caused_push(effects: Seq<AppEffect>, effect: AppEffect)
    ensures
        caused(effects.push(effect)) == caused(effects).push(effect@),
{
    assert(caused(effects.push(effect)) =~= caused(effects).push(effect@));
}

/// A transfer that is under way.
#[derive(Debug, Clone, PartialEq, Eq)]
pub struct Running<Text = String> {
    pub id: u64,
    pub description: Text,
    pub current: i64,
    pub total: i64,
}

impl View for Running {
    type V = Running<Seq<char>>;

    open spec fn view(&self) -> Running<Seq<char>> {
        Running {
            id: self.id,
            description: self.description@,
            current: self.current,
            total: self.total,
        }
    }
}

/// The window.
#[derive(Debug)]
pub struct AppModel {
    /// The directory listed by the leftmost column.
    pub root: String,

    /// The directory listings. They act as a stack, where new directories are
    /// pushed and popped relative to the root as the user clicks on new directory
    /// entries.
    pub directories: Vec<Directory>,

    /// The file operations under way.
    pub transfers: Vec<Running>,

    /// The index of the directory panel an active search applies to.
    pub search_panel: Option<usize>,

    /// Monotonic id of the latest corner toast; expiry timers only hide the
    /// toast if theirs is still the newest.
    pub toast_epoch: u64,

    /// True while the columns area is too narrow for a computed layout and the
    /// panels fall back to uniform widths. Those overflow the scroller, so the
    /// view has to follow the newest column.
    pub columns_overflow: bool,

    /// What every panel and the window agree on.
    pub settings: Settings,

    /// What the window started with.
    pub state: State,
}

impl View for AppModel {
    type V = Window;

    open spec fn view(&self) -> Window {
        Window {
            root: self.root@,
            directories: self.directories@.map_values(|directory: Directory| directory@),
            transfers: self.transfers@.map_values(|running: Running| running@),
            search_panel: self.search_panel,
            toast_epoch: self.toast_epoch,
            columns_overflow: self.columns_overflow,
            settings: self.settings,
            state: self.state,
        }
    }
}

impl AppModel {
    /// Whether the window is in order: all of its panels are.
    pub open spec fn wf(&self) -> bool {
        forall|i: int| 0 <= i < self.directories@.len() ==> (#[trigger] self.directories@[i]).wf()
    }

    /// A window on the directory with the given path, as it was left.
    pub fn new(root: String, state: State) -> (app: AppModel)
        ensures
            app.wf(),
            app@ == (Window {
                root: root@,
                directories: seq![panel::fresh(root@, true)],
                transfers: Seq::empty(),
                search_panel: None,
                toast_epoch: 0,
                columns_overflow: false,
                settings: config::restored(state),
                state,
            }),
    {
        let mut directories: Vec<Directory> = Vec::new();
        directories.push(Directory::new(root.clone(), true));
        let app = AppModel {
            root,
            directories,
            transfers: Vec::new(),
            search_panel: None,
            toast_epoch: 0,
            columns_overflow: false,
            settings: state.settings(),
            state,
        };
        proof {
            assert(app@.directories =~= seq![panel::fresh(root@, true)]);
            assert(app@.transfers =~= Seq::<Running<Seq<char>>>::empty());
        }
        app
    }

    /// Returns the deepest directory that is listed (the rightmost listing).
    pub fn last_dir(&self) -> (dir: &str)
        requires
            self@.directories.len() > 0,
        ensures
            dir@ == self@.directories.last().dir,
    {
        let last: usize = self.directories.len() - 1;
        assert(self@.directories[last as int] == self.directories@[last as int]@);
        self.directories[last].dir()
    }

    /// Returns the index of the deepest panel holding the cursor.
    pub fn cursor_panel(&self) -> (index: Option<usize>)
        requires
            self.wf(),
        ensures
            match index {
                Some(index) => self@.cursor_panel() == Some(index as int) && index
                    < self@.directories.len(),
                None => self@.cursor_panel() is None,
            },
    {
        let mut i: usize = self.directories.len();
        while i > 0
            invariant
                i <= self.directories@.len(),
                self.wf(),
                self@.cursor_panel() == self@.cursor_among(i as nat),
            decreases i,
        {
            assert(self@.directories[i - 1] == self.directories@[i - 1]@);
            if self.directories[i - 1].has_cursor() {
                return Some(i - 1);
            }
            i = i - 1;
        }
        None
    }

    /// The index of the panel the user is in: the one holding the cursor, or else
    /// the deepest.
    pub fn here(&self) -> (index: usize)
        requires
            self.wf(),
        ensures
            index == self@.here(),
            self@.directories.len() > 0 ==> index < self@.directories.len(),
    {
        match self.cursor_panel() {
            Some(index) => index,
            None => if self.directories.len() == 0 {
                0
            } else {
                self.directories.len() - 1
            },
        }
    }

    /// Tells each panel whether it owns the keyboard cursor. Only that panel glows
    /// its cursor row; the ancestors keep their selection as a quiet breadcrumb, so
    /// exactly one row on screen says "you are here".
    fn mark_cursor_panel(&self, effects: &mut Vec<AppEffect>)
        requires
            self.wf(),
        ensures
            caused(final(effects)@) == caused(old(effects)@) + self@.marking(),
    {
        let ghost before = caused(effects@);
        let cursor: usize = self.here();
        let mut i: usize = 0;
        assert(caused(effects@) =~= before + self@.marking().take(0));
        while i < self.directories.len()
            invariant
                i <= self.directories@.len(),
                cursor == self@.here(),
                caused(effects@) == before + self@.marking().take(i as int),
            decreases self.directories.len() - i,
        {
            let ghost so_far = effects@;
            let effect: AppEffect = AppEffect::Tell(
                i,
                DirectoryMessage::SetCursorPanel(i == cursor),
            );
            effects.push(effect);
            proof {
                lemma_caused_push(so_far, effect);
                assert(effect@ == self@.marking()[i as int]);
                assert(self@.marking().take(i + 1) =~= self@.marking().take(i as int).push(effect@));
                assert(caused(effects@) =~= before + self@.marking().take(i + 1));
            }
            i = i + 1;
        }
        assert(self@.marking().take(i as int) =~= self@.marking());
    }

    /// Applies the tapering column layout: ancestors thin out to the left, the
    /// cursor's column stays centred, and the preview absorbs the remainder.
    fn relayout(&mut self, area: i32, effects: &mut Vec<AppEffect>)
        requires
            old(self).wf(),
        ensures
            final(self).wf(),
            final(self)@ == old(self)@.settled(area),
            caused(final(effects)@) == caused(old(effects)@) + old(self)@.laying_out(area),
    {
        let ghost was = self@;
        let ghost before = caused(effects@);
        let ghost planned = was.laying_out(area);
        let cursor: usize = self.here();
        let count: usize = self.directories.len();
        match solve(area, count, cursor) {
            Some(plan) => {
                self.columns_overflow = false;
                effects.push(AppEffect::SetGutter(plan.gutter));
                let mut i: usize = 0;
                proof {
                    assert(plan.panels@.len() == count);
                    assert(caused(effects@) =~= before + planned.take(1));
                }
                while i < plan.panels.len()
                    invariant
                        i <= plan.panels@.len() == count,
                        planned == was.laying_out(area),
                        was.lays_out(area),
                        was.directories.len() == count,
                        cursor == was.here(),
                        plan.panels@ == layout::planned_panels(
                            area as int,
                            count as nat,
                            cursor as nat,
                        ),
                        caused(effects@) == before + planned.take(i + 1),
                    decreases plan.panels.len() - i,
                {
                    let ghost so_far = effects@;
                    let effect: AppEffect = AppEffect::Tell(
                        i,
                        DirectoryMessage::SetLayout(plan.panels[i]),
                    );
                    effects.push(effect);
                    proof {
                        lemma_caused_push(so_far, effect);
                        assert(effect@ == planned[i + 1]);
                        assert(planned.take(i + 2) =~= planned.take(i + 1).push(planned[i + 1]));
                        assert(caused(effects@) =~= before + planned.take(i + 2));
                    }
                    i = i + 1;
                }
                assert(planned.take(i + 1) =~= planned);
            },
            None => {
                // Uniform columns overflow a narrow area: keep the rightmost panels
                // in view.
                self.columns_overflow = true;
                effects.push(AppEffect::SetGutter(0));
                let mut i: usize = 0;
                assert(caused(effects@) =~= before + planned.take(1));
                while i < count
                    invariant
                        i <= count,
                        planned == was.laying_out(area),
                        !was.lays_out(area),
                        was.directories.len() == count,
                        caused(effects@) == before + planned.take(i + 1),
                    decreases count - i,
                {
                    let ghost so_far = effects@;
                    let effect: AppEffect = AppEffect::Tell(i, DirectoryMessage::ResetLayout);
                    effects.push(effect);
                    proof {
                        lemma_caused_push(so_far, effect);
                        assert(effect@ == planned[i + 1]);
                        assert(planned.take(i + 2) =~= planned.take(i + 1).push(planned[i + 1]));
                        assert(caused(effects@) =~= before + planned.take(i + 2));
                    }
                    i = i + 1;
                }
                let ghost so_far = effects@;
                let effect: AppEffect = AppEffect::ScrollToEnd;
                effects.push(effect);
                proof {
                    lemma_caused_push(so_far, effect);
                    assert(effect@ == planned[i + 1]);
                    assert(planned =~= planned.take(i + 1).push(planned[i + 1]));
                    assert(caused(effects@) =~= before + planned);
                }
            },
        }
    }

    /// What follows every message: the cursor panel is marked, the columns are laid
    /// out and the window is titled.
    fn settle(&mut self, area: i32, effects: &mut Vec<AppEffect>)
        requires
            old(self).wf(),
        ensures
            final(self).wf(),
            final(self)@ == old(self)@.settled(area),
            caused(final(effects)@) == caused(old(effects)@) + old(self)@.settling(area),
    {
        let ghost was = self@;
        let ghost before = caused(effects@);
        self.mark_cursor_panel(effects);
        self.relayout(area, effects);
        proof {
            lemma_same_panels(was, self@);
        }
        if self.directories.len() > 0 {
            let ghost so_far = caused(effects@);
            let index: usize = self.here();
            effects.push(AppEffect::Retitle(index));
            assert(caused(effects@) =~= so_far.push(AppEffect::Retitle(index)));
        }
        assert(caused(effects@) =~= before + was.settling(area));
    }
}

/// Where the cursor is depends on the panels alone.
proof fn lemma_same_panels(a: Window, b: Window)
    requires
        a.directories == b.directories,
    ensures
        a.here() == b.here(),
{
    lemma_same_cursor(a, b, a.directories.len());
}

proof fn lemma_same_cursor(a: Window, b: Window, count: nat)
    requires
        a.directories == b.directories,
    ensures
        a.cursor_among(count) == b.cursor_among(count),
    decreases count,
{
    if count > 0 {
        lemma_same_cursor(a, b, (count - 1) as nat);
    }
}

/// The directory to start in when the program is given `path`: the path itself if
/// it is a directory, else the directory it lies in.
pub fn starting_directory(path: &str, is_dir: bool) -> (dir: String)
    ensures
        dir@ == (if !is_dir && path::parent(path@) is Some {
            path::parent(path@)->0
        } else {
            path@
        }),
{
    if !is_dir {
        if let Some(parent) = parent_of(path) {
            return parent;
        }
    }
    path.to_owned()
}

impl FileSelection {
    /// The file that panels and preview follow: the one under the cursor, or else
    /// the only one. `None` if there are several; then they follow the directory
    /// the files are in.
    pub fn file_to_follow(&self) -> (file: Option<&String>)
        ensures
            match file {
                Some(file) => match self@.cursor_file {
                    Some(cursor_file) => file@ == cursor_file,
                    None => self@.files.len() == 1 && file@ == self@.files[0],
                },
                None => self@.cursor_file is None && self@.files.len() != 1,
            },
    {
        match &self.cursor_file {
            Some(file) => Some(file),
            None => if self.files.len() == 1 {
                assert(self@.files[0] == self.files@[0]@);
                Some(&self.files[0])
            } else {
                None
            },
        }
    }
}

/// The transfer with the given number.
fn find_running(transfers: &Vec<Running>, id: u64) -> (index: usize)
    ensures
        ({
            let all = transfers@.map_values(|running: Running| running@);
            index == window::find_transfer(all, id, 0) && index <= all.len()
        }),
{
    let ghost all = transfers@.map_values(|running: Running| running@);
    let mut i: usize = 0;
    while i < transfers.len()
        invariant
            i <= transfers@.len(),
            all == transfers@.map_values(|running: Running| running@),
            window::find_transfer(all, id, 0) == window::find_transfer(all, id, i as int),
        decreases transfers.len() - i,
    {
        assert(all[i as int] == transfers@[i as int]@);
        if transfers[i].id == id {
            return i;
        }
        i = i + 1;
    }
    i
}

impl AppModel {
    /// Makes the panels follow a file: leaves those that do not lead to it and
    /// enters those that do.
    #[verifier::rlimit(40)]
    #[verifier::spinoff_prover]
    fn follow<F: Fn(&str) -> bool>(
        &mut self,
        file: &str,
        is_directory: &F,
        effects: &mut Vec<AppEffect>,
    ) -> (verdicts: Ghost<Seq<bool>>)
        requires
            old(self).wf(),
            old(self)@.can_follow(file@),
            old(effects)@.len() == 0,
            forall|s: &str| #[trigger] call_requires(*is_directory, (s,)),
        ensures
            final(self).wf(),
            old(self)@.departure().answered(old(self)@.steps(file@), *is_directory, verdicts@),
            final(self)@ == old(self)@.followed_to(file@, verdicts@),
            caused(final(effects)@) == old(self)@.following(file@, verdicts@),
    {
        let ghost was = self@;
        let ghost from = was.departure();
        let base: String = self.last_dir().to_owned();
        let mut standing: Vec<String> = components_of(base.as_str());
        let steps: Vec<String> = match directions(file, base.as_str()) {
            Some(steps) => steps,
            None => {
                return Ghost(Seq::empty());
            },
        };
        let ghost all = text::texts(steps@);
        let ghost mut verdicts: Seq<bool> = Seq::empty();
        proof {
            reveal_strlit("..");
            assert(".."@ =~= path::up());
            assert(all == was.steps(file@));
            assert(all.take(0) =~= Seq::<Seq<char>>::empty());
            assert(caused(effects@) =~= from.asks);
        }
        let mut i: usize = 0;
        while i < steps.len()
            invariant
                i <= steps@.len(),
                all == text::texts(steps@),
                from == was.departure(),
                ".."@ == path::up(),
                forall|s: &str| #[trigger] call_requires(*is_directory, (s,)),
                from.answered(all.take(i as int), *is_directory, verdicts),
                self.wf(),
                self@ == (Window {
                    directories: from.along(all.take(i as int), verdicts).panels,
                    ..was
                }),
                text::texts(standing@) == from.along(all.take(i as int), verdicts).here,
                from.along(all.take(i as int), verdicts).here.len() + window::climbs(
                    all.take(i as int),
                ) >= from.here.len(),
                window::climbs(all) <= from.here.len(),
                caused(effects@) == from.along(all.take(i as int), verdicts).asks,
            decreases steps.len() - i,
        {
            let ghost done = all.take(i as int);
            let ghost more = all.take(i + 1);
            let ghost before = from.along(done, verdicts);
            let ghost so_far = effects@;
            let ghost panels = self.directories@;
            proof {
                assert(all[i as int] == steps@[i as int]@);
                assert(more.drop_last() =~= done);
                assert(more.last() == all[i as int]);
                lemma_climbs_grow(all, i + 1);
            }
            if same(&steps[i], "..") {
                let ghost longer = verdicts.push(false);
                self.directories.pop();
                effects.push(AppEffect::Pop);
                standing.pop();
                proof {
                    assert(longer.drop_last() =~= verdicts);
                    let after = from.along(more, longer);
                    assert(after == before.step(path::up(), false));
                    if panels.len() > 0 {
                        assert(self.directories@ =~= panels.drop_last());
                        assert(self@.directories =~= before.panels.drop_last());
                    } else {
                        assert(self@.directories =~= before.panels);
                    }
                    lemma_caused_push(so_far, AppEffect::Pop);
                    assert(text::texts(standing@) =~= before.here.drop_last());
                    lemma_answered_further(from, all, i as int, *is_directory, verdicts, false);
                    verdicts = longer;
                }
            } else {
                proof {
                    text::lemma_texts_push(standing@, steps@[i as int]);
                }
                standing.push(steps[i].clone());
                let path: String = join(standing.as_slice());
                let leads: bool = is_directory(path.as_str());
                let ghost there = before.here.push(all[i as int]);
                let ghost longer = verdicts.push(leads);
                proof {
                    assert(text::texts(standing@) == there);
                    assert(path@ == path::spelled(there));
                    assert(longer.drop_last() =~= verdicts);
                    assert(text::answers(*is_directory, path@, leads));
                    assert(from.along(more, longer) == before.step(all[i as int], leads));
                    lemma_answered_further(from, all, i as int, *is_directory, verdicts, leads);
                }
                if leads {
                    let effect: AppEffect = AppEffect::Push(path.clone(), false);
                    effects.push(effect);
                    self.directories.push(Directory::new(path, false));
                    proof {
                        lemma_caused_push(so_far, effect);
                        assert(self@.directories =~= before.panels.push(
                            panel::fresh(path@, false),
                        ));
                        assert(self.directories@ =~= panels.push(self.directories@.last()));
                    }
                } else {
                    standing.pop();
                    assert(text::texts(standing@) =~= before.here);
                }
                proof {
                    verdicts = longer;
                }
            }
            i = i + 1;
        }
        assert(all.take(i as int) =~= all);
        Ghost(verdicts)
    }
}

/// The more steps, the more of them lead up.
proof fn lemma_climbs_grow(steps: Seq<Seq<char>>, count: int)
    requires
        0 <= count <= steps.len(),
    ensures
        window::climbs(steps.take(count)) <= window::climbs(steps),
    decreases steps.len() - count,
{
    if count == steps.len() {
        assert(steps.take(count) =~= steps);
    } else {
        lemma_climbs_grow(steps, count + 1);
        assert(steps.take(count + 1).drop_last() =~= steps.take(count));
    }
}

/// What was answered so far and what is answered now is what was answered up to
/// here.
proof fn lemma_answered_further<F: Fn(&str) -> bool>(
    from: window::Journey,
    steps: Seq<Seq<char>>,
    i: int,
    is_directory: F,
    verdicts: Seq<bool>,
    leads: bool,
)
    requires
        0 <= i < steps.len(),
        from.answered(steps.take(i), is_directory, verdicts),
        if steps[i] == path::up() {
            !leads
        } else {
            text::answers(
                is_directory,
                path::spelled(from.along(steps.take(i), verdicts).here.push(steps[i])),
                leads,
            )
        },
    ensures
        from.answered(steps.take(i + 1), is_directory, verdicts.push(leads)),
{
    let done = steps.take(i);
    let more = steps.take(i + 1);
    let longer = verdicts.push(leads);
    assert forall|j: int| 0 <= j < more.len() implies if #[trigger] more[j] == path::up() {
        !longer[j]
    } else {
        text::answers(is_directory, from.asked_about(more, longer, j), longer[j])
    } by {
        assert(more.take(j) =~= done.take(j));
        assert(longer.take(j) =~= verdicts.take(j));
        if j < i {
            assert(done[j] == more[j]);
            assert(from.asked_about(more, longer, j) == from.asked_about(done, verdicts, j));
        } else {
            assert(done.take(j) =~= done);
            assert(verdicts.take(j) =~= verdicts);
        }
    }
}

/// What the user reads after the order of entries changed.
fn describe_sort(key: SortKey, reversed: bool) -> (description: String)
    ensures
        description@ == window::sort_description(key, reversed),
{
    match (key, reversed) {
        (SortKey::Modified, true) => "Sort: modified (newest first)".to_owned(),
        (SortKey::Modified, false) => "Sort: modified (oldest first)".to_owned(),
        (SortKey::Name, false) => "Sort: name (A\u{2192}Z)".to_owned(),
        (SortKey::Name, true) => "Sort: name (Z\u{2192}A)".to_owned(),
        (SortKey::Type, false) => "Sort: type (dirs first)".to_owned(),
        (SortKey::Type, true) => "Sort: type (reversed)".to_owned(),
    }
}

impl AppModel {
    /// Takes what a file operation says of itself.
    fn transfer(&mut self, transfer: Transfer, effects: &mut Vec<AppEffect>)
        requires
            old(self).wf(),
            old(effects)@.len() == 0,
        ensures
            final(self).wf(),
            final(self)@ == old(self)@.changed(AppMsg::Transfer(transfer@), Seq::empty()),
            caused(final(effects)@) == old(self)@.asks(AppMsg::Transfer(transfer@), Seq::empty()),
    {
        let ghost was = self@;
        let ghost told = AppMsg::<Seq<char>, Seq<Seq<char>>>::Transfer(transfer@);
        match transfer {
            Transfer::New { id, description } => {
                effects.push(AppEffect::AddTransfer(id, description.clone()));
                self.transfers.push(Running { id, description, current: 0, total: 0 });
                assert(self@.transfers =~= was.changed(told, Seq::empty()).transfers);
            },
            Transfer::Progress(progress) => {
                let index: usize = find_running(&self.transfers, progress.id);
                if index < self.transfers.len() {
                    assert(was.transfers[index as int] == self.transfers@[index as int]@);
                    effects.push(AppEffect::UpdateTransfer(index, progress));
                    let description: String = self.transfers[index].description.clone();
                    let updated: Running = Running {
                        id: self.transfers[index].id,
                        description,
                        current: progress.current,
                        total: progress.total,
                    };
                    self.transfers.set(index, updated);
                    assert(self@.transfers =~= was.changed(told, Seq::empty()).transfers);
                }
            },
            Transfer::Done { id } => {
                let index: usize = find_running(&self.transfers, id);
                if index < self.transfers.len() {
                    effects.push(AppEffect::RemoveTransfer(index));
                    self.transfers.remove(index);
                    assert(self@.transfers =~= was.changed(told, Seq::empty()).transfers);
                }
            },
        }
        effects.push(AppEffect::ShowTransferButton(self.transfers.len() > 0));
        assert(self@ =~= was.changed(told, Seq::empty()));
        assert(caused(effects@) =~= was.asks(told, Seq::empty()));
    }

    /// Shows `message` in the bottom-left corner toast for a few seconds.
    fn show_toast(&mut self, message: String, effects: &mut Vec<AppEffect>)
        requires
            old(self).wf(),
            old(self).toast_epoch < u64::MAX,
        ensures
            final(self).wf(),
            final(self)@ == (Window {
                toast_epoch: (old(self)@.toast_epoch + 1) as u64,
                ..old(self)@
            }),
            caused(final(effects)@) == caused(old(effects)@).push(
                AppEffect::Toast(message@, (old(self)@.toast_epoch + 1) as u64),
            ),
    {
        let ghost before = effects@;
        let epoch: u64 = self.toast_epoch + 1;
        let effect: AppEffect = AppEffect::Toast(message, epoch);
        effects.push(effect);
        proof {
            lemma_caused_push(before, effect);
        }
        self.toast_epoch = epoch;
    }

    /// Whether a toast's timer that has run out hides the toast: only if its toast
    /// is still the newest.
    pub fn toast_expired(&self, epoch: u64) -> (hide: bool)
        ensures
            hide == (self@.toast_epoch == epoch),
    {
        self.toast_epoch == epoch
    }

    /// Tells the panel that is searched something, if it is still there.
    fn tell_searched(&self, message: DirectoryMessage, effects: &mut Vec<AppEffect>)
        requires
            old(effects)@.len() == 0,
        ensures
            caused(final(effects)@) == self@.telling_searched(message@),
    {
        if let Some(index) = self.search_panel {
            if index < self.directories.len() {
                effects.push(AppEffect::Tell(index, message));
            }
        }
        assert(caused(effects@) =~= self@.telling_searched(message@));
    }

    /// Tells the panel holding the cursor something, if there is one.
    fn tell_cursor(&self, message: DirectoryMessage, effects: &mut Vec<AppEffect>)
        requires
            self.wf(),
            old(effects)@.len() == 0,
        ensures
            caused(final(effects)@) == self@.telling_cursor(message@),
    {
        if let Some(index) = self.cursor_panel() {
            effects.push(AppEffect::Tell(index, message));
        }
        assert(caused(effects@) =~= self@.telling_cursor(message@));
    }

    /// Tells the panel the user is in something.
    fn tell_here(&self, message: DirectoryMessage, effects: &mut Vec<AppEffect>)
        requires
            self.wf(),
            old(effects)@.len() == 0,
        ensures
            caused(final(effects)@) == self@.telling_here(message@),
    {
        effects.push(AppEffect::Tell(self.here(), message));
        assert(caused(effects@) =~= self@.telling_here(message@));
    }

    /// Moves the cursor, or enters the deepest listing at one of its ends.
    fn nav_move(&self, delta: i32, effects: &mut Vec<AppEffect>)
        requires
            self.wf(),
            self@.directories.len() > 0,
            old(effects)@.len() == 0,
        ensures
            caused(final(effects)@) == self@.asks(AppMsg::NavMove(delta), Seq::empty()),
    {
        match self.cursor_panel() {
            Some(index) => {
                effects.push(AppEffect::Tell(index, DirectoryMessage::MoveCursor(delta)));
            },
            // No cursor yet: enter the deepest listing at one of its ends.
            None => {
                let deepest: usize = self.directories.len() - 1;
                if delta >= 0 {
                    effects.push(AppEffect::Tell(deepest, DirectoryMessage::SelectFirst));
                } else {
                    effects.push(AppEffect::Tell(deepest, DirectoryMessage::SelectLast));
                }
            },
        }
        assert(caused(effects@) =~= self@.asks(AppMsg::NavMove(delta), Seq::empty()));
    }

    /// Descends into the selected directory, or opens the selected file.
    fn nav_into(&self, effects: &mut Vec<AppEffect>)
        requires
            self.wf(),
            old(effects)@.len() == 0,
        ensures
            caused(final(effects)@) == self@.asks(AppMsg::NavInto, Seq::empty()),
    {
        if let Some(index) = self.cursor_panel() {
            if self.directories.len() - index > 1 {
                // The selection is a directory: its listing is the next panel.
                effects.push(AppEffect::Tell(index + 1, DirectoryMessage::SelectFirst));
            } else {
                // The selection is a file (files never push a panel).
                effects.push(AppEffect::Tell(index, DirectoryMessage::OpenSelected));
            }
        }
        assert(caused(effects@) =~= self@.asks(AppMsg::NavInto, Seq::empty()));
    }

    /// Moves the cursor to the parent panel; at the root column, goes up one level.
    fn nav_parent(&self, effects: &mut Vec<AppEffect>)
        requires
            self.wf(),
            old(effects)@.len() == 0,
        ensures
            caused(final(effects)@) == self@.asks(AppMsg::NavParent, Seq::empty()),
    {
        match self.cursor_panel() {
            Some(index) if index > 0 => {
                effects.push(AppEffect::Tell(index, DirectoryMessage::UnselectAll));
            },
            // Cursor on the root column (or nowhere): go up one level.
            _ => {
                if let Some(parent) = parent_of(self.root.as_str()) {
                    effects.push(AppEffect::Say(AppMsg::NewRoot(parent)));
                }
            },
        }
        assert(caused(effects@) =~= self@.asks(AppMsg::NavParent, Seq::empty()));
    }

    /// Sorts by the given key; the key that is active already reverses the order.
    fn set_sort(&mut self, key: SortKey, effects: &mut Vec<AppEffect>)
        requires
            old(self).wf(),
            old(self).toast_epoch < u64::MAX,
            old(effects)@.len() == 0,
        ensures
            final(self).wf(),
            final(self)@ == old(self)@.changed(AppMsg::SetSort(key), Seq::empty()),
            caused(final(effects)@) == old(self)@.asks(AppMsg::SetSort(key), Seq::empty()),
    {
        let ghost was = self@;
        if sort_key(&self.settings) == key {
            let reversed: bool = sort_reversed(&self.settings);
            set_sort_reversed(&mut self.settings, !reversed);
        } else {
            set_sort_key(&mut self.settings, key);
            // Modified starts newest-first; name and type start ascending.
            set_sort_reversed(&mut self.settings, key == SortKey::Modified);
        }
        effects.push(AppEffect::RefreshSorters);
        let description: String = describe_sort(key, sort_reversed(&self.settings));
        self.show_toast(description, effects);
        assert(self@ =~= was.changed(AppMsg::SetSort(key), Seq::empty()));
        assert(caused(effects@) =~= was.asks(AppMsg::SetSort(key), Seq::empty()));
    }

    /// Makes the directory with the given path the root.
    #[verifier::rlimit(40)]
    #[verifier::spinoff_prover]
    fn new_root(&mut self, root: String, effects: &mut Vec<AppEffect>)
        requires
            old(self).wf(),
            old(effects)@.len() == 0,
        ensures
            final(self).wf(),
            final(self)@ == old(self)@.changed(AppMsg::NewRoot(root@), Seq::empty()),
            caused(final(effects)@) == old(self)@.asks(AppMsg::NewRoot(root@), Seq::empty()),
    {
        let ghost was = self@;
        effects.push(AppEffect::ClearPanels);
        self.root = root.clone();
        let mut directories: Vec<Directory> = Vec::new();
        directories.push(Directory::new(root.clone(), true));
        self.directories = directories;
        effects.push(AppEffect::Push(root, true));
        effects.push(AppEffect::HidePreview);
        assert(self@.directories =~= seq![panel::fresh(root@, true)]);
        assert(self@ == (Window {
            root: root@,
            directories: seq![panel::fresh(root@, true)],
            ..was
        }));
        assert(caused(effects@) =~= seq![
            AppEffect::<Seq<char>, Seq<Seq<char>>>::ClearPanels,
            AppEffect::Push(root@, true),
            AppEffect::HidePreview,
        ]);
    }

    /// Whether the panels can follow the file with this path.
    pub fn can_follow(&self, file: &str) -> (out: bool)
        ensures
            out == self@.can_follow(file@),
    {
        if self.directories.len() == 0 {
            return false;
        }
        let base: &str = self.last_dir();
        let starts: bool = !file.is_empty() && file.get_char(0) == '/';
        let base_starts: bool = !base.is_empty() && base.get_char(0) == '/';
        if starts != base_starts {
            return false;
        }
        let parts: Vec<String> = components_of(file);
        let base_parts: Vec<String> = components_of(base);
        proof {
            reveal_strlit(".");
            reveal_strlit("..");
            assert("."@ =~= seq!['.']);
            assert(".."@ =~= path::up());
            assert(text::texts(parts@).len() == parts@.len());
            assert(text::texts(base_parts@).len() == base_parts@.len());
            if parts@.len() > 0 {
                assert(text::texts(parts@)[0] == parts@[0]@);
            }
        }
        if base_parts.len() == 0 && parts.len() > 0 && same(&parts[0], ".") {
            return false;
        }
        let steps: Vec<String> = match directions(file, base) {
            Some(steps) => steps,
            None => return false,
        };
        let ghost all = text::texts(steps@);
        let mut climbed: usize = 0;
        let mut i: usize = 0;
        assert(all.take(0) =~= Seq::<Seq<char>>::empty());
        while i < steps.len()
            invariant
                i <= steps@.len(),
                all == text::texts(steps@),
                ".."@ == path::up(),
                climbed == window::climbs(all.take(i as int)),
                climbed <= i,
            decreases steps.len() - i,
        {
            proof {
                assert(all[i as int] == steps@[i as int]@);
                assert(all.take(i + 1).drop_last() =~= all.take(i as int));
            }
            if same(&steps[i], "..") {
                climbed = climbed + 1;
            }
            i = i + 1;
        }
        assert(all.take(i as int) =~= all);
        if starts {
            climbed < base_parts.len()
        } else {
            climbed <= base_parts.len()
        }
    }

    /// Whether the window can be told this.
    pub fn accepts(&self, msg: &AppMsg) -> (out: bool)
        ensures
            out == self@.accepts(msg@),
    {
        match msg {
            AppMsg::NewSelection(Selection::Files(selection), path) => {
                if self.directories.len() == 0 {
                    return false;
                }
                match selection.file_to_follow() {
                    Some(_) => match path {
                        Some(path) => self.can_follow(path.as_str()),
                        None => true,
                    },
                    None => self.can_follow(selection.parent.as_str()),
                }
            },
            AppMsg::Toast(_) => self.toast_epoch < u64::MAX,
            AppMsg::SetSort(_) => self.toast_epoch < u64::MAX,
            AppMsg::NavMove(_) => self.directories.len() > 0,
            AppMsg::NavFirst => self.directories.len() > 0,
            AppMsg::NavLast => self.directories.len() > 0,
            AppMsg::ClipboardCopy(_) => self.directories.len() > 0,
            AppMsg::ClipboardPaste => self.directories.len() > 0,
            _ => true,
        }
    }

    /// Takes a message: changes the window and returns what it asks for. `area` is
    /// the width of the columns area, and `is_directory` says of a path whether it
    /// leads to a directory.
    #[verifier::rlimit(60)]
    pub fn update_with_view<F: Fn(&str) -> bool>(
        &mut self,
        msg: AppMsg,
        area: i32,
        is_directory: F,
    ) -> (effects: Vec<AppEffect>)
        requires
            old(self).wf(),
            old(self)@.accepts(msg@),
            forall|s: &str| #[trigger] call_requires(is_directory, (s,)),
        ensures
            final(self).wf(),
            exists|verdicts: Seq<bool>|
                {
                    &&& #[trigger] old(self)@.consulted(msg@, is_directory, verdicts)
                    &&& final(self)@ == old(self)@.after(msg@, verdicts, area)
                    &&& caused(effects@) == old(self)@.causes(msg@, verdicts, area)
                },
    {
        let ghost was = self@;
        let mut effects: Vec<AppEffect> = Vec::new();
        let ghost mut verdicts: Seq<bool> = Seq::empty();
        assert(caused(effects@) =~= Seq::empty());
        match msg {
            AppMsg::Error(message) => {
                effects.push(AppEffect::Alert(message));
            },
            AppMsg::NewSelection(Selection::Files(selection), path) => {
                let file: String = match selection.file_to_follow() {
                    Some(_) => match path {
                        Some(path) => path,
                        None => {
                            assert(was.consulted(msg@, is_directory, verdicts));
                            assert(caused(effects@) =~= was.causes(msg@, verdicts, area));
                            return effects;
                        },
                    },
                    None => selection.parent.clone(),
                };
                let said: Ghost<Seq<bool>> = self.follow(
                    file.as_str(),
                    &is_directory,
                    &mut effects,
                );
                proof {
                    verdicts = said@;
                }
                effects.push(AppEffect::Preview(Selection::Files(selection)));
            },
            AppMsg::NewSelection(Selection::Nothing, _) => {
                effects.push(AppEffect::HidePreview);
            },
            AppMsg::NewRoot(root) => {
                self.new_root(root, &mut effects);
            },
            AppMsg::Transfer(transfer) => {
                self.transfer(transfer, &mut effects);
            },
            AppMsg::Toast(message) => {
                self.show_toast(message, &mut effects);
            },
            // Handled by the relayout at the end of this function.
            AppMsg::Relayout => {},
            AppMsg::About => {
                effects.push(AppEffect::ShowAbout);
            },
            AppMsg::Mount => {
                effects.push(AppEffect::ShowMount);
            },
            AppMsg::SearchOpen => {
                // Search the panel the cursor lives in — the deepest listing may
                // be an unselected child spawned by the cursor sitting on a
                // directory (root panels auto-select their first row).
                self.search_panel = Some(self.here());
                effects.push(AppEffect::OpenSearchBar);
            },
            AppMsg::SearchChanged(term) => {
                self.tell_searched(DirectoryMessage::SetSearch(term), &mut effects);
            },
            AppMsg::SearchConfirm => {
                effects.push(AppEffect::Unfocus);
            },
            AppMsg::SearchCancel => {
                self.tell_searched(DirectoryMessage::ClearSearch, &mut effects);
                self.search_panel = None;
                effects.push(AppEffect::CloseSearchBar);
                effects.push(AppEffect::Unfocus);
            },
            AppMsg::SearchNext => {
                self.tell_searched(DirectoryMessage::SearchNext, &mut effects);
            },
            AppMsg::SearchPrev => {
                self.tell_searched(DirectoryMessage::SearchPrev, &mut effects);
            },
            AppMsg::SetSort(key) => {
                self.set_sort(key, &mut effects);
            },
            AppMsg::RenameSelected => {
                self.tell_cursor(DirectoryMessage::RenameSelected, &mut effects);
            },
            AppMsg::NavMove(delta) => {
                self.nav_move(delta, &mut effects);
            },
            AppMsg::NavFirst => {
                self.tell_here(DirectoryMessage::SelectFirst, &mut effects);
            },
            AppMsg::NavLast => {
                self.tell_here(DirectoryMessage::SelectLast, &mut effects);
            },
            AppMsg::ToggleMark => {
                self.tell_cursor(DirectoryMessage::ToggleMark, &mut effects);
            },
            AppMsg::ClipboardCopy(op) => {
                self.tell_here(DirectoryMessage::ClipboardCopy(op), &mut effects);
            },
            AppMsg::ClipboardPaste => {
                // An empty directory has no rows, so no panel holds a cursor —
                // and pasting into a directory you just made empty is the most
                // ordinary paste there is. Fall back to the deepest panel.
                self.tell_here(DirectoryMessage::ClipboardPaste, &mut effects);
            },
            AppMsg::TrashSelected => {
                self.tell_cursor(DirectoryMessage::TrashSelection, &mut effects);
            },
            AppMsg::DeletePermanentSelected => {
                self.tell_cursor(DirectoryMessage::DeleteSelectionPermanent, &mut effects);
            },
            AppMsg::NavInto => {
                self.nav_into(&mut effects);
            },
            AppMsg::NavParent => {
                self.nav_parent(&mut effects);
            },
            AppMsg::ToggleAudioPreview => {
                effects.push(AppEffect::ToggleAudio);
            },
        }
        proof {
            assert(was.consulted(msg@, is_directory, verdicts));
            assert(self@ =~= was.changed(msg@, verdicts));
            assert(caused(effects@) =~= was.asks(msg@, verdicts));
        }
        self.settle(area, &mut effects);
        effects
    }
}

impl AppModel {
    /// Shows hidden files, or hides them again, and says so.
    pub fn toggle_hidden(&mut self) -> (effects: Vec<AppEffect>)
        requires
            old(self).wf(),
        ensures
            final(self).wf(),
            final(self)@ == old(self)@.hidden_toggled(),
            caused(effects@) == old(self)@.toggling_hidden(),
    {
        let ghost was = self@;
        let show: bool = !show_hidden(&self.settings);
        set_show_hidden(&mut self.settings, show);
        let mut effects: Vec<AppEffect> = Vec::new();
        effects.push(AppEffect::RefreshHiddenFilters(refresh_hidden_filters(&self.settings)));
        let message: String = if show {
            "Showing hidden files".to_owned()
        } else {
            "Hiding hidden files".to_owned()
        };
        effects.push(AppEffect::Say(AppMsg::Toast(message)));
        assert(caused(effects@) =~= was.toggling_hidden());
        effects
    }

    /// The transfers under way, as the indicator sees them.
    pub fn active_transfers(&self) -> (active: Vec<Active>)
        ensures
            active@.len() == self@.transfers.len(),
            forall|i: int|
                0 <= i < active@.len() ==> {
                    &&& (#[trigger] active@[i]).description@ == self@.transfers[i].description
                    &&& active@[i].current == self@.transfers[i].current
                    &&& active@[i].total == self@.transfers[i].total
                },
    {
        let mut active: Vec<Active> = Vec::new();
        let mut i: usize = 0;
        while i < self.transfers.len()
            invariant
                i <= self.transfers@.len(),
                active@.len() == i,
                forall|j: int|
                    0 <= j < i ==> {
                        &&& (#[trigger] active@[j]).description@ == self@.transfers[j].description
                        &&& active@[j].current == self@.transfers[j].current
                        &&& active@[j].total == self@.transfers[j].total
                    },
            decreases self.transfers.len() - i,
        {
            assert(self@.transfers[i as int] == self.transfers@[i as int]@);
            active.push(
                Active {
                    description: self.transfers[i].description.clone(),
                    current: self.transfers[i].current,
                    total: self.transfers[i].total,
                },
            );
            i = i + 1;
        }
        active
    }

    /// Whether the transfer with the given number is still under way. The indicator
    /// appears once a transfer has run for a while, and not for one that is over.
    pub fn is_running(&self, id: u64) -> (out: bool)
        ensures
            out == (self@.transfer_at(id) < self@.transfers.len()),
    {
        find_running(&self.transfers, id) < self.transfers.len()
    }

    /// What is kept when the window closes at the given size.
    pub fn closing(&self, width: i32, height: i32, is_maximized: bool) -> (state: State)
        ensures
            state == config::kept(self@.settings, width, height, is_maximized),
    {
        State::closing(&self.settings, width, height, is_maximized)
    }
}

/// The title of a window whose cursor is in a directory: its path, shortened until
/// `fits` accepts it, or its URI where it has no local path. Leaving the previous
/// directory's path on screen would claim the user is somewhere they are not.
pub fn retitle(
    path: Option<&str>,
    uri: &str,
    home: Option<&str>,
    fits: impl Fn(&str) -> bool,
) -> (title: String)
    requires
        forall|s: &str| call_requires(fits, (s,)),
    ensures
        match path {
            Some(path) => exists|count: nat|
                #[trigger] path_title::settled(path_title::shown(path@, home), fits, count)
                    && title@ == path_title::marked_up(
                    path_title::title(path_title::shown(path@, home), count),
                ),
            None => title@ == path_title::marked_up(uri@),
        },
{
    match path {
        Some(path) => {
            let parts: Vec<String> = segments(path, home);
            markup(shorten(parts.as_slice(), fits).as_str())
        },
        None => markup(uri),
    }
}

/// A window opens with one panel, for its root, that selects its first row once it is
/// loaded, and with the settings that were kept.
pub proof fn law_a_window_opens_at_its_root(root: String, state: State, app: AppModel)
    requires
        call_ensures(AppModel::new, (root, state), app),
    ensures
        app@.root == root@,
        app@.directories.len() == 1,
        app@.directories[0].dir == root@,
        app@.directories[0].entries.len() == 0,
        app@.directories[0].select_first_on_load,
        app@.directories[0].cursor is None,
        app@.transfers.len() == 0,
        app@.search_panel is None,
        app@.toast_epoch == 0,
        !app@.columns_overflow,
        app@.settings.show_hidden == state.show_hidden,
        app@.settings.sort_reversed == state.sort_reversed,
        state.sort_key is Some ==> app@.settings.sort_key == state.sort_key->0,
        app@.state == state,
{
}

/// The program starts in a directory that it is given, and in the directory of a file.
pub proof fn law_a_file_is_shown_in_its_directory(path: &str, is_dir: bool, dir: String)
    requires
        call_ensures(starting_directory, (path, is_dir), dir),
    ensures
        is_dir ==> dir@ == path@,
        !is_dir && path::parent(path@) is Some ==> dir@ == path::parent(path@)->0,
        !is_dir && path::parent(path@) is None ==> dir@ == path@,
{
}

/// The file that the panels follow is the one under the cursor, or else the only one
/// that is selected.
pub proof fn law_the_file_under_the_cursor_is_followed(
    selection: FileSelection,
    file: Option<&String>,
)
    requires
        call_ensures(FileSelection::file_to_follow, (&selection,), file),
    ensures
        selection@.cursor_file is Some ==> file is Some && file->0@ == selection@.cursor_file->0,
        selection@.cursor_file is None && selection@.files.len() == 1 ==> file is Some && file->0@
            == selection@.files[0],
        selection@.cursor_file is None && selection@.files.len() != 1 ==> file is None,
{
}

/// A toast is hidden only by its own timer: one that was started for an earlier toast
/// does nothing.
pub proof fn law_an_old_timer_hides_nothing(app: AppModel, epoch: u64, hide: bool)
    requires
        call_ensures(AppModel::toast_expired, (&app, epoch), hide),
    ensures
        epoch == app.toast_epoch ==> hide,
        epoch != app.toast_epoch ==> !hide,
{
}

/// The indicator sees every transfer that is under way, in order.
pub proof fn law_every_transfer_is_seen(app: AppModel, active: Vec<Active>, i: int)
    requires
        call_ensures(AppModel::active_transfers, (&app,), active),
        0 <= i < app.transfers@.len(),
    ensures
        active@.len() == app.transfers@.len(),
        active@[i].description@ == app.transfers@[i].description@,
        active@[i].current == app.transfers@[i].current,
        active@[i].total == app.transfers@[i].total,
{
    assert(app@.transfers.len() == app.transfers@.len());
    assert(app@.transfers[i] == app.transfers@[i]@);
    assert(active@[i].current == app@.transfers[i].current);
}

/// A transfer is running exactly if there is one of its number.
pub proof fn law_a_transfer_runs_while_it_is_listed(
    app: AppModel,
    id: u64,
    running: bool,
    i: int,
)
    requires
        call_ensures(AppModel::is_running, (&app, id), running),
    ensures
        0 <= i < app.transfers@.len() && app.transfers@[i].id == id ==> running,
        (forall|j: int| 0 <= j < app.transfers@.len() ==> (#[trigger] app.transfers@[j]).id != id)
            ==> !running,
{
    window::lemma_find_transfer(app@.transfers, id, 0);
    let at = window::find_transfer(app@.transfers, id, 0);
    assert(app@.transfers.len() == app.transfers@.len());
    if 0 <= i < app.transfers@.len() {
        assert(app@.transfers[i] == app.transfers@[i]@);
    }
    if 0 <= at < app.transfers@.len() {
        assert(app@.transfers[at] == app.transfers@[at]@);
        assert(app.transfers@[at].id == app@.transfers[at].id);
    }
}

/// What is kept when the window closes is what it starts with the next time.
pub proof fn law_a_closed_window_opens_as_it_was(
    app: AppModel,
    width: i32,
    height: i32,
    is_maximized: bool,
    state: State,
    root: String,
    next: AppModel,
)
    requires
        call_ensures(AppModel::closing, (&app, width, height, is_maximized), state),
        call_ensures(AppModel::new, (root, state), next),
    ensures
        next@.settings == app@.settings,
        next@.state.width == width,
        next@.state.height == height,
        next@.state.is_maximized == is_maximized,
{
}

/// A window that shows a local directory is titled by its path, with the home directory
/// as a `~` and as much of it abbreviated as has to be, and any other by its URI.
pub proof fn law_a_window_is_titled_by_where_it_is<F: Fn(&str) -> bool>(
    uri: &str,
    home: Option<&str>,
    fits: F,
    title: String,
    name: Seq<char>,
)
    requires
        call_ensures(retitle, (None, uri, home, fits), title),
        uri@ == name,
        !name.contains('/'),
    ensures
        title@ == "<b>"@ + path_title::escaped(name) + "</b>"@,
{
    path_title::law_the_last_name_is_emphasised(Seq::empty(), name);
}

/// Everything of a window is seen as it is: its panels and its transfers one by one.
pub proof fn law_a_window_is_seen_as_it_is(app: AppModel, i: int, t: int)
    requires
        0 <= i < app.directories@.len(),
        0 <= t < app.transfers@.len(),
    ensures
        app@.directories.len() == app.directories@.len(),
        app@.directories[i] == app.directories@[i]@,
        app@.transfers.len() == app.transfers@.len(),
        app@.transfers[t].id == app.transfers@[t].id,
        app@.transfers[t].description == app.transfers@[t].description@,
        app@.transfers[t].current == app.transfers@[t].current,
        app@.transfers[t].total == app.transfers@[t].total,
        app@.root == app.root@,
        app@.search_panel == app.search_panel,
        app@.toast_epoch == app.toast_epoch,
        app@.columns_overflow == app.columns_overflow,
        app@.settings == app.settings,
        app@.state == app.state,
{
}

/// Moving the cursor is passed on to the panel that holds it, and first of all.
#[verifier::rlimit(40)]
#[verifier::spinoff_prover]
pub proof fn law_a_move_reaches_the_panel_with_the_cursor<F: Fn(&str) -> bool>(
    app: &mut AppModel,
    delta: i32,
    area: i32,
    is_directory: F,
    effects: Vec<AppEffect>,
    index: usize,
)
    requires
        old(app).wf(),
        index < old(app).directories@.len(),
        old(app).directories@[index as int]@.has_cursor(),
        forall|i: int|
            index < i < old(app).directories@.len() ==> !(
            #[trigger] old(app).directories@[i])@.has_cursor(),
        call_ensures(
            AppModel::update_with_view::<F>,
            (app, AppMsg::<String, Vec<String>>::NavMove(delta), area, is_directory),
            effects,
        ),
    ensures
        effects@.len() > 0,
        effects@[0] == AppEffect::<String, Vec<String>>::Tell(
            index,
            DirectoryMessage::MoveCursor(delta),
        ),
{
    let window = old(app)@;
    let msg = AppMsg::<Seq<char>, Seq<Seq<char>>>::NavMove(delta);
    assert(window.directories.len() == old(app).directories@.len());
    assert(window.directories[index as int] == old(app).directories@[index as int]@);
    assert forall|i: int| index < i < window.directories.len() implies !(
    #[trigger] window.directories[i]).has_cursor() by {
        assert(window.directories[i] == old(app).directories@[i]@);
    }
    window::law_the_cursor_panel_is_the_deepest(window, index as int);
    let verdicts = choose|verdicts: Seq<bool>|
        {
            &&& #[trigger] window.consulted(msg, is_directory, verdicts)
            &&& final(app)@ == window.after(msg, verdicts, area)
            &&& caused(effects@) == window.causes(msg, verdicts, area)
        };
    assert(caused(effects@) == window.causes(msg, verdicts, area));
    assert(caused(effects@).len() == effects@.len());
    assert(window.asks(msg, verdicts).len() == 1);
    assert(caused(effects@)[0] == window.asks(msg, verdicts)[0]);
    assert(caused(effects@)[0] == effects@[0]@);
}

} // verus!
