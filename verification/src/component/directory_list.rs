//! A panel that displays a listing of the contents of a directory.
//!
//! A panel takes messages one at a time. What a message changes in the panel
//! itself happens here; what it asks of the window, the clipboard or the file
//! system is handed back as a list of effects, in the order they are due.

use super::entry;
use super::entry::{is_audio, Entry};
use super::panel;
use super::panel::Panel;
use super::search::is_match;
use crate::clipboard::{encode, encode_uri_list, ClipboardOp};
use crate::layout::PanelLayout;
use crate::path_title;
use crate::path_title::initial;
use crate::text;
use crate::text::decimal_text;
use vstd::prelude::*;

verus! {

/// The requested minimum width of a panel.
pub const WIDTH: i32 = 200;

/// Used to communicate the file selection status to the window.
#[derive(Debug, Clone, PartialEq, Eq)]
pub enum Selection<Text = String, Texts = Vec<String>> {
    /// A selection of at least one file.
    Files(FileSelection<Text, Texts>),

    /// No file is selected.
    Nothing,
}

/// A selection of at least one file.
#[derive(Debug, Clone, PartialEq, Eq)]
pub struct FileSelection<Text = String, Texts = Vec<String>> {
    /// The shared parent of the selected files.
    pub parent: Text,

    /// The selected files.
    pub files: Texts,

    /// The file under the keyboard cursor, when one exists — previews and
    /// descend logic follow it while several rows are marked.
    pub cursor_file: Option<Text>,
}

impl View for FileSelection {
    type V = FileSelection<Seq<char>, Seq<Seq<char>>>;

    open spec fn view(&self) -> FileSelection<Seq<char>, Seq<Seq<char>>> {
        FileSelection {
            parent: self.parent@,
            files: text::texts(self.files@),
            cursor_file: entry::text_if_any(self.cursor_file),
        }
    }
}

impl View for Selection {
    type V = Selection<Seq<char>, Seq<Seq<char>>>;

    open spec fn view(&self) -> Selection<Seq<char>, Seq<Seq<char>>> {
        match self {
            Selection::Files(files) => Selection::Files(files@),
            Selection::Nothing => Selection::Nothing,
        }
    }
}

/// What a panel can be told.
#[derive(Debug, Clone, PartialEq, Eq)]
pub enum DirectoryMessage<Text = String> {
    OpenItemAtPosition(u32),

    /// Open the application launcher dialog for the given file.
    ChooseAndLaunchApp(Text),

    /// Send the files in the current selection to the trash.
    TrashSelection,

    /// Restore files in the current selection from the trash.
    RestoreSelectionFromTrash,

    ShowNewFolderDialog,

    /// Set the search term: recompute matches, highlight them, jump to the first.
    SetSearch(Text),

    /// Move the cursor to the next search match.
    SearchNext,

    /// Move the cursor to the previous search match.
    SearchPrev,

    /// Clear the search term and its highlights.
    ClearSearch,

    /// Open the rename popover for the currently selected entry.
    RenameSelected,

    /// Move the cursor (selection) by the given delta within this panel.
    MoveCursor(i32),

    /// Put the cursor on the first entry.
    SelectFirst,

    /// Put the cursor on the last entry.
    SelectLast,

    /// Unselect everything, moving the cursor out of this panel.
    UnselectAll,

    /// Open the currently selected entry with its default application.
    OpenSelected,

    /// Select the first row once the listing has loaded, if this panel was
    /// created wanting an initial cursor (root panels).
    AutoSelectIfPending,

    /// Toggle the mark on the cursor row and advance the cursor (Space).
    ToggleMark,

    /// Permanently delete the selected entries (Shift+Delete). No trash.
    DeleteSelectionPermanent,

    /// Items shifted (load, sort, external changes): stored cursor position is
    /// no longer trustworthy.
    InvalidateCursor,

    /// Put this panel's operation set on the system clipboard.
    ClipboardCopy(ClipboardOp),

    /// Paste the clipboard into this panel's directory.
    ClipboardPaste,

    /// Whether this panel currently owns the keyboard cursor.
    SetCursorPanel(bool),

    /// Take the width and page the app's column layout computed for this panel.
    SetLayout(PanelLayout),

    /// Fall back to the uniform column width; the window is too narrow to lay
    /// out and the view scrolls instead.
    ResetLayout,
}

impl View for DirectoryMessage {
    type V = DirectoryMessage<Seq<char>>;

    open spec fn view(&self) -> DirectoryMessage<Seq<char>> {
        match self {
            DirectoryMessage::OpenItemAtPosition(pos) => DirectoryMessage::OpenItemAtPosition(*pos),
            DirectoryMessage::ChooseAndLaunchApp(uri) => DirectoryMessage::ChooseAndLaunchApp(uri@),
            DirectoryMessage::TrashSelection => DirectoryMessage::TrashSelection,
            DirectoryMessage::RestoreSelectionFromTrash =>
                DirectoryMessage::RestoreSelectionFromTrash,
            DirectoryMessage::ShowNewFolderDialog => DirectoryMessage::ShowNewFolderDialog,
            DirectoryMessage::SetSearch(term) => DirectoryMessage::SetSearch(term@),
            DirectoryMessage::SearchNext => DirectoryMessage::SearchNext,
            DirectoryMessage::SearchPrev => DirectoryMessage::SearchPrev,
            DirectoryMessage::ClearSearch => DirectoryMessage::ClearSearch,
            DirectoryMessage::RenameSelected => DirectoryMessage::RenameSelected,
            DirectoryMessage::MoveCursor(delta) => DirectoryMessage::MoveCursor(*delta),
            DirectoryMessage::SelectFirst => DirectoryMessage::SelectFirst,
            DirectoryMessage::SelectLast => DirectoryMessage::SelectLast,
            DirectoryMessage::UnselectAll => DirectoryMessage::UnselectAll,
            DirectoryMessage::OpenSelected => DirectoryMessage::OpenSelected,
            DirectoryMessage::AutoSelectIfPending => DirectoryMessage::AutoSelectIfPending,
            DirectoryMessage::ToggleMark => DirectoryMessage::ToggleMark,
            DirectoryMessage::DeleteSelectionPermanent =>
                DirectoryMessage::DeleteSelectionPermanent,
            DirectoryMessage::InvalidateCursor => DirectoryMessage::InvalidateCursor,
            DirectoryMessage::ClipboardCopy(op) => DirectoryMessage::ClipboardCopy(*op),
            DirectoryMessage::ClipboardPaste => DirectoryMessage::ClipboardPaste,
            DirectoryMessage::SetCursorPanel(owns) => DirectoryMessage::SetCursorPanel(*owns),
            DirectoryMessage::SetLayout(plan) => DirectoryMessage::SetLayout(*plan),
            DirectoryMessage::ResetLayout => DirectoryMessage::ResetLayout,
        }
    }
}

/// The page a panel shows.
#[derive(Debug, Clone, Copy, PartialEq, Eq, Structural)]
pub enum Page {
    Spinner,
    Sliver,
    Listing,
}

/// What a panel asks for when it was told something.
#[derive(Debug, Clone, PartialEq, Eq)]
pub enum Effect<Text = String, Texts = Vec<String>> {
    /// Open a file with its default application.
    Open(Text),

    /// Let the user choose an application for a file.
    ChooseAndLaunchApp(Text),

    /// Send these files, shown by these names, to the trash.
    Trash(Texts, Texts),

    /// Restore these files from the trash.
    Restore(Texts),

    /// Ask for the name of a new folder.
    ShowNewFolderDialog,

    /// Highlight this term in the names of entries.
    SetSearchTerm(Text),

    /// Bind the visible rows anew, so their highlights are drawn anew.
    RefreshHighlights,

    /// Open the rename popover of this file's row, if that row is visible.
    Rename(Text),

    /// Select this row and no other.
    Select(u32),

    /// Unselect every row.
    UnselectAll,

    /// Give each visible row the cursor style it is due.
    RestyleCursor,

    /// Give this row, if it is visible, the marked style it is due.
    RestyleRow(u32),

    /// Scroll until this row is in view.
    ScrollTo(u32),

    /// Play or pause the previewed sound.
    ToggleAudioPreview,

    /// Tell the window what is selected.
    NewSelection(Selection<Text, Texts>),

    /// Delete these files for good.
    DeletePermanently(Texts),

    /// Offer these two payloads on the clipboard: the GNOME one and the list of
    /// URIs.
    SetClipboard(Text, Text),

    /// Read the clipboard and paste it into this panel's directory.
    Paste,

    /// Display a toast.
    Toast(Text),

    /// Show or hide the whole panel.
    SetVisible(bool),

    /// Request this width.
    SetWidth(i32),

    /// Show this page.
    ShowPage(Page),
}

impl View for Effect {
    type V = Effect<Seq<char>, Seq<Seq<char>>>;

    open spec fn view(&self) -> Effect<Seq<char>, Seq<Seq<char>>> {
        match self {
            Effect::Open(uri) => Effect::Open(uri@),
            Effect::ChooseAndLaunchApp(uri) => Effect::ChooseAndLaunchApp(uri@),
            Effect::Trash(uris, names) => Effect::Trash(text::texts(uris@), text::texts(names@)),
            Effect::Restore(uris) => Effect::Restore(text::texts(uris@)),
            Effect::ShowNewFolderDialog => Effect::ShowNewFolderDialog,
            Effect::SetSearchTerm(term) => Effect::SetSearchTerm(term@),
            Effect::RefreshHighlights => Effect::RefreshHighlights,
            Effect::Rename(uri) => Effect::Rename(uri@),
            Effect::Select(pos) => Effect::Select(*pos),
            Effect::UnselectAll => Effect::UnselectAll,
            Effect::RestyleCursor => Effect::RestyleCursor,
            Effect::RestyleRow(pos) => Effect::RestyleRow(*pos),
            Effect::ScrollTo(pos) => Effect::ScrollTo(*pos),
            Effect::ToggleAudioPreview => Effect::ToggleAudioPreview,
            Effect::NewSelection(selection) => Effect::NewSelection(selection@),
            Effect::DeletePermanently(uris) => Effect::DeletePermanently(text::texts(uris@)),
            Effect::SetClipboard(gnome, uri_list) => Effect::SetClipboard(gnome@, uri_list@),
            Effect::Paste => Effect::Paste,
            Effect::Toast(message) => Effect::Toast(message@),
            Effect::SetVisible(visible) => Effect::SetVisible(*visible),
            Effect::SetWidth(width) => Effect::SetWidth(*width),
            Effect::ShowPage(page) => Effect::ShowPage(*page),
        }
    }
}

/// A list of effects as texts.
pub open spec fn told(effects: Seq<Effect>) -> Seq<Effect<Seq<char>, Seq<Seq<char>>>> {
    effects.map_values(|effect: Effect| effect@)
}

/// A panel.
#[derive(Debug)]
pub struct Directory {
    /// The listed directory.
    pub dir: String,

    /// The rows: the entries that are listed, in order.
    pub entries: Vec<Entry>,

    /// For each row whether it is selected. The cursor moves by selecting its row
    /// alone; marks are kept separately.
    pub selected: Vec<bool>,

    /// Position of the keyboard cursor row.
    pub cursor: Option<u32>,

    /// URI of the file under the cursor, so the cursor can follow the file
    /// rather than an index when the listing shifts underneath it.
    pub cursor_uri: Option<String>,

    /// URIs marked with Space. Being keyed by URI they survive sorting and
    /// refreshes.
    pub marks: Vec<String>,

    /// The active search term for this panel (empty when no search is active).
    pub search_term: String,

    /// Positions of the entries matching the search term, in list order.
    pub search_matches: Vec<u32>,

    /// Index into `search_matches` of the match the cursor is on.
    pub search_current: usize,

    /// Root panels select their first row once loaded, so the cursor always
    /// exists and `l`/`Enter` work without a `j` first. Panels spawned by
    /// descending stay unselected — the cursor lives in their parent.
    pub select_first_on_load: bool,

    /// True while this panel owns the keyboard cursor. Only that panel's
    /// row wears the glow; ancestors keep their selection rendered quietly.
    pub is_cursor_panel: bool,

    /// True while this panel is too narrow to show its listing.
    pub sliver: bool,

    /// True while the listing is being loaded.
    pub loading: bool,
}

impl View for Directory {
    type V = Panel;

    open spec fn view(&self) -> Panel {
        Panel {
            dir: self.dir@,
            entries: self.entries@.map_values(|entry: Entry| entry@),
            selected: self.selected@,
            cursor: self.cursor,
            cursor_uri: entry::text_if_any(self.cursor_uri),
            marks: text::texts(self.marks@).to_set(),
            search_term: self.search_term@,
            search_matches: self.search_matches@,
            search_current: self.search_current as int,
            select_first_on_load: self.select_first_on_load,
            is_cursor_panel: self.is_cursor_panel,
            sliver: self.sliver,
            loading: self.loading,
        }
    }
}

/// Picks the rows an operation applies to.
///
/// Marks win outright. Once entries are explicitly marked, the cursor is only
/// where you happen to be standing — folding it into the batch means a Delete
/// takes a file you never marked. Only with nothing marked does an operation
/// fall back to the row under the cursor.
pub fn operation_rows<T>(marked: Vec<T>, under_cursor: Vec<T>) -> (rows: Vec<T>)
    ensures
        rows == (if marked@.len() == 0 {
            under_cursor
        } else {
            marked
        }),
{
    if marked.len() == 0 {
        under_cursor
    } else {
        marked
    }
}

/// The page a panel shows.
pub fn page(loading: bool, sliver: bool) -> (page: Page)
    ensures
        page == panel::page_for(loading, sliver),
{
    if loading {
        Page::Spinner
    } else if sliver {
        Page::Sliver
    } else {
        Page::Listing
    }
}

impl Directory {
    /// Whether the panel is in order: its listing fits, and nothing is marked
    /// twice.
    pub open spec fn wf(&self) -> bool {
        self@.fits() && text::texts(self.marks@).no_duplicates()
    }

    /// A panel for `dir` whose listing is still to be loaded.
    pub fn new(dir: String, select_first_on_load: bool) -> (created: Directory)
        ensures
            created.wf(),
            created@ == panel::fresh(dir@, select_first_on_load),
    {
        let created = Directory {
            dir,
            entries: Vec::new(),
            selected: Vec::new(),
            cursor: None,
            cursor_uri: None,
            marks: Vec::new(),
            search_term: String::new(),
            search_matches: Vec::new(),
            search_current: 0,
            select_first_on_load,
            is_cursor_panel: false,
            sliver: false,
            loading: true,
        };
        proof {
            assert(created@.entries =~= Seq::<Entry<Seq<char>>>::empty());
            assert(created@.selected =~= Seq::<bool>::empty());
            assert(text::texts(created.marks@) =~= Seq::<Seq<char>>::empty());
            assert(created@.marks =~= Set::<Seq<char>>::empty());
            assert(created@.search_term =~= Seq::<char>::empty());
            assert(created@.search_matches =~= Seq::<u32>::empty());
        }
        created
    }

    /// Returns the listed directory.
    pub fn dir(&self) -> (dir: &str)
        ensures
            dir@ == self@.dir,
    {
        self.dir.as_str()
    }

    /// Whether the keyboard cursor lives in this panel.
    ///
    /// Marks deliberately do not count. A marked row is part of what is selected,
    /// so a panel holding marks keeps reporting files long after the cursor left
    /// it, and `h` would be a dead key once anything was marked.
    pub fn has_cursor(&self) -> (out: bool)
        requires
            self.wf(),
        ensures
            out == self@.has_cursor(),
    {
        match self.cursor {
            Some(pos) => (pos as usize) < self.selected.len() && self.selected[pos as usize],
            None => false,
        }
    }

    /// Whether `uri` is marked.
    pub fn is_marked(&self, uri: &String) -> (out: bool)
        ensures
            out == self@.marks.contains(uri@),
    {
        let ghost marks = text::texts(self.marks@);
        let mut i: usize = 0;
        while i < self.marks.len()
            invariant
                i <= self.marks@.len(),
                marks == text::texts(self.marks@),
                forall|j: int| 0 <= j < i ==> marks[j] != uri@,
            decreases self.marks.len() - i,
        {
            assert(marks[i as int] == self.marks@[i as int]@);
            if self.marks[i] == *uri {
                return true;
            }
            i = i + 1;
        }
        false
    }

    /// Recomputes the positions of the entries matching the current search term.
    fn recompute_matches(&mut self)
        requires
            old(self).wf(),
        ensures
            final(self).wf(),
            final(self)@ == old(self)@.searched(),
    {
        let ghost was = self@;
        let ghost all = panel::positions(was.entries.len());
        let mut matches: Vec<u32> = Vec::new();
        let mut i: usize = 0;
        proof {
            panel::lemma_no_positions(was.entries.len(), was.matching());
        }
        while i < self.entries.len()
            invariant
                i <= self.entries@.len(),
                self.wf(),
                self@ == was,
                all == panel::positions(was.entries.len()),
                matches@ == all.take(i as int).filter(was.matching()),
            decreases self.entries.len() - i,
        {
            proof {
                panel::lemma_positions_grow(was.entries.len(), i as int);
                all.take(i as int).lemma_filter_push(i as u32, was.matching());
                assert(was.entries[i as int] == self.entries@[i as int]@);
            }
            if is_match(self.entries[i].display_name.as_str(), self.search_term.as_str()) {
                matches.push(i as u32);
            }
            i = i + 1;
        }
        proof {
            panel::lemma_no_positions(was.entries.len(), was.matching());
        }
        self.search_matches = matches;
    }

    /// Moves the keyboard cursor to `pos` and scrolls it into view. Its row is
    /// selected alone; marks are kept separately and survive navigation.
    fn select_and_scroll(&mut self, pos: u32, effects: &mut Vec<Effect>)
        requires
            old(self).wf(),
        ensures
            final(self).wf(),
            final(self)@ == old(self)@.moved(pos),
            told(final(effects)@) == told(old(effects)@) + old(self)@.moving(pos),
    {
        let ghost was = self@;
        let n: usize = self.entries.len();
        if pos as usize >= n {
            assert(told(effects@) =~= told(effects@) + was.moving(pos));
            return;
        }
        let mut selected: Vec<bool> = Vec::new();
        let mut i: usize = 0;
        while i < n
            invariant
                i <= n,
                selected@.len() == i,
                forall|j: int| 0 <= j < i ==> selected@[j] == (j == pos),
            decreases n - i,
        {
            selected.push(i == pos as usize);
            i = i + 1;
        }
        let uri: String = self.entries[pos as usize].uri.clone();
        self.cursor = Some(pos);
        self.cursor_uri = Some(uri);
        self.selected = selected;
        proof {
            assert(self@.selected =~= was.moved(pos).selected);
            assert(was.entries[pos as int] == self.entries@[pos as int]@);
        }
        let ghost before = told(effects@);
        effects.push(Effect::Select(pos));
        effects.push(Effect::RestyleCursor);
        effects.push(Effect::ScrollTo(pos));
        assert(told(effects@) =~= before + was.moving(pos));
    }

    /// The rows an operation applies to: the marked entries, or the selected rows
    /// when nothing is marked.
    pub fn selected_file_info(&self) -> (rows: Vec<u32>)
        requires
            self.wf(),
        ensures
            rows@ == self@.operation(),
    {
        let ghost was = self@;
        let ghost all = panel::positions(was.entries.len());
        let mut marked: Vec<u32> = Vec::new();
        let mut under_cursor: Vec<u32> = Vec::new();
        let mut i: usize = 0;
        proof {
            panel::lemma_no_positions(was.entries.len(), was.marking());
            panel::lemma_no_positions(was.entries.len(), was.merely_selected());
        }
        while i < self.entries.len()
            invariant
                i <= self.entries@.len(),
                self.wf(),
                self@ == was,
                all == panel::positions(was.entries.len()),
                marked@ == all.take(i as int).filter(was.marking()),
                under_cursor@ == all.take(i as int).filter(was.merely_selected()),
            decreases self.entries.len() - i,
        {
            proof {
                panel::lemma_positions_grow(was.entries.len(), i as int);
                all.take(i as int).lemma_filter_push(i as u32, was.marking());
                all.take(i as int).lemma_filter_push(i as u32, was.merely_selected());
                assert(was.entries[i as int] == self.entries@[i as int]@);
            }
            if self.is_marked(&self.entries[i].uri) {
                marked.push(i as u32);
            } else if self.selected[i] {
                under_cursor.push(i as u32);
            }
            i = i + 1;
        }
        proof {
            panel::lemma_no_positions(was.entries.len(), was.marking());
        }
        operation_rows(marked, under_cursor)
    }

    /// The URIs of the rows an operation applies to.
    fn operation_uris(&self) -> (uris: Vec<String>)
        requires
            self.wf(),
        ensures
            text::texts(uris@) == self@.operation_uris(),
    {
        let ghost was = self@;
        let rows: Vec<u32> = self.selected_file_info();
        let mut uris: Vec<String> = Vec::new();
        let mut i: usize = 0;
        proof {
            assert(text::texts(uris@) =~= was.operation_uris().take(0));
        }
        while i < rows.len()
            invariant
                i <= rows@.len(),
                self.wf(),
                self@ == was,
                rows@ == was.operation(),
                text::texts(uris@) == was.operation_uris().take(i as int),
            decreases rows.len() - i,
        {
            proof {
                was.lemma_operation_in_listing(i as int);
                assert(was.entries[rows@[i as int] as int]
                    == self.entries@[rows@[i as int] as int]@);
                text::lemma_texts_push(uris@, self.entries@[rows@[i as int] as int].uri);
                assert(was.operation_uris().take(i + 1) =~= was.operation_uris().take(
                    i as int,
                ).push(was.operation_uris()[i as int]));
            }
            uris.push(self.entries[rows[i] as usize].uri.clone());
            i = i + 1;
        }
        assert(was.operation_uris().take(i as int) =~= was.operation_uris());
        uris
    }

    /// The names of the rows an operation applies to.
    fn operation_names(&self) -> (names: Vec<String>)
        requires
            self.wf(),
        ensures
            text::texts(names@) == self@.operation_names(),
    {
        let ghost was = self@;
        let rows: Vec<u32> = self.selected_file_info();
        let mut names: Vec<String> = Vec::new();
        let mut i: usize = 0;
        proof {
            assert(text::texts(names@) =~= was.operation_names().take(0));
        }
        while i < rows.len()
            invariant
                i <= rows@.len(),
                self.wf(),
                self@ == was,
                rows@ == was.operation(),
                text::texts(names@) == was.operation_names().take(i as int),
            decreases rows.len() - i,
        {
            proof {
                was.lemma_operation_in_listing(i as int);
                assert(was.entries[rows@[i as int] as int]
                    == self.entries@[rows@[i as int] as int]@);
                text::lemma_texts_push(names@, self.entries@[rows@[i as int] as int].display_name);
                assert(was.operation_names().take(i + 1) =~= was.operation_names().take(
                    i as int,
                ).push(was.operation_names()[i as int]));
            }
            names.push(self.entries[rows[i] as usize].display_name.clone());
            i = i + 1;
        }
        assert(was.operation_names().take(i as int) =~= was.operation_names());
        names
    }

    /// The row under the keyboard cursor, if any.
    fn cursor_file_info(&self) -> (row: Option<&Entry>)
        requires
            self.wf(),
        ensures
            match row {
                Some(row) => self@.cursor_row() == Some(row@),
                None => self@.cursor_row() is None,
            },
    {
        match self.cursor {
            Some(pos) => if (pos as usize) < self.entries.len() {
                assert(self@.entries[pos as int] == self.entries@[pos as int]@);
                Some(&self.entries[pos as usize])
            } else {
                None
            },
            None => None,
        }
    }

    /// What is selected: the selected rows (cursor bar or mouse selection) plus
    /// every marked entry, with the cursor file leading the list.
    pub fn build_selection(&self) -> (selection: Selection)
        requires
            self.wf(),
        ensures
            selection@ == self@.selection(),
    {
        let ghost was = self@;
        let mut files: Vec<String> = Vec::new();
        let mut cursor_file: Option<String> = None;
        if self.has_cursor() {
            if let Some(pos) = self.cursor {
                assert(was.entries[pos as int] == self.entries@[pos as int]@);
                cursor_file = Some(self.entries[pos as usize].uri.clone());
                files.push(self.entries[pos as usize].uri.clone());
            }
        }
        let mut i: usize = 0;
        assert(text::texts(files@) =~= was.gathered(0));
        while i < self.entries.len()
            invariant
                i <= self.entries@.len(),
                self.wf(),
                self@ == was,
                text::texts(files@) == was.gathered(i as nat),
            decreases self.entries.len() - i,
        {
            let ghost before = text::texts(files@);
            let uri: &String = &self.entries[i].uri;
            proof {
                assert(was.entries[i as int] == self.entries@[i as int]@);
                text::lemma_texts_push(files@, *uri);
            }
            if !holds(&files, uri) && (self.selected[i] || self.is_marked(uri)) {
                files.push(uri.clone());
            }
            i = i + 1;
        }
        if files.len() == 0 {
            assert(text::texts(files@).len() == 0);
            Selection::Nothing
        } else {
            Selection::Files(FileSelection { parent: self.dir.clone(), files, cursor_file })
        }
    }
}

/// Whether `list` holds `text`.
pub fn holds(list: &Vec<String>, text: &String) -> (out: bool)
    ensures
        out == text::texts(list@).contains(text@),
{
    let ghost all = text::texts(list@);
    let mut i: usize = 0;
    while i < list.len()
        invariant
            i <= list@.len(),
            all == text::texts(list@),
            forall|j: int| 0 <= j < i ==> all[j] != text@,
        decreases list.len() - i,
    {
        assert(all[i as int] == list@[i as int]@);
        if list[i] == *text {
            return true;
        }
        i = i + 1;
    }
    false
}

/// What the user reads after copying or cutting.
fn copied_message(op: ClipboardOp, count: usize) -> (message: String)
    ensures
        message@ == Panel::copied(op, count as nat),
{
    let mut message: String = if count == 1 {
        "1 file ".to_owned()
    } else {
        let mut counted: String = decimal_text(count as u64);
        counted.append(" files ");
        counted
    };
    match op {
        ClipboardOp::Copy => message.append("copied"),
        ClipboardOp::Cut => message.append("cut"),
    }
    message
}

impl Directory {
    /// Takes a new search term: recomputes the matches and jumps to the first.
    fn set_search(&mut self, term: String, effects: &mut Vec<Effect>)
        requires
            old(self).wf(),
            old(effects)@.len() == 0,
        ensures
            final(self).wf(),
            final(self)@ == old(self)@.after(DirectoryMessage::SetSearch(term@)),
            told(final(effects)@) == old(self)@.asks(DirectoryMessage::SetSearch(term@)),
    {
        let ghost was = self@;
        effects.push(Effect::SetSearchTerm(term.clone()));
        assert(told(effects@) =~= seq![Effect::SetSearchTerm(term@)]);
        self.search_term = term;
        self.search_current = 0;
        self.recompute_matches();
        let ghost found = self@;
        assert(found =~= Panel { search_term: term@, search_current: 0, ..was }.searched());
        assert(found.search_matches == Panel { search_term: term@, ..was }.matches()) by {
            assert(found.matching() =~= Panel { search_term: term@, ..was }.matching());
        }
        if self.search_matches.len() > 0 {
            let pos: u32 = self.search_matches[0];
            self.select_and_scroll(pos, effects);
            assert(Panel { search_current: 0, ..found } =~= found);
        }
        let ghost before = told(effects@);
        effects.push(Effect::RefreshHighlights);
        assert(told(effects@) =~= before + seq![Effect::RefreshHighlights]);
        assert(told(effects@) =~= was.asks(DirectoryMessage::SetSearch(term@)));
    }

    /// Moves the cursor to the next search match, and behind the last to the
    /// first.
    fn search_next(&mut self, effects: &mut Vec<Effect>)
        requires
            old(self).wf(),
            old(effects)@.len() == 0,
        ensures
            final(self).wf(),
            final(self)@ == old(self)@.after(DirectoryMessage::SearchNext),
            told(final(effects)@) == old(self)@.asks(DirectoryMessage::SearchNext),
    {
        let ghost was = self@;
        self.recompute_matches();
        let ghost found = self@;
        if self.search_matches.len() > 0 {
            proof {
                was.lemma_matches_in_listing(0);
            }
            let next: usize = (self.search_current + 1) % self.search_matches.len();
            self.search_current = next;
            let pos: u32 = self.search_matches[next];
            self.select_and_scroll(pos, effects);
            assert(self@ =~= found.at_match(found.next_match()));
        }
        assert(told(effects@) =~= was.asks(DirectoryMessage::SearchNext));
    }

    /// Moves the cursor to the previous search match, and before the first to the
    /// last.
    fn search_prev(&mut self, effects: &mut Vec<Effect>)
        requires
            old(self).wf(),
            old(self)@.accepts(DirectoryMessage::SearchPrev),
            old(effects)@.len() == 0,
        ensures
            final(self).wf(),
            final(self)@ == old(self)@.after(DirectoryMessage::SearchPrev),
            told(final(effects)@) == old(self)@.asks(DirectoryMessage::SearchPrev),
    {
        let ghost was = self@;
        self.recompute_matches();
        let ghost found = self@;
        if self.search_matches.len() > 0 {
            proof {
                was.lemma_matches_in_listing(0);
            }
            let previous: usize = if self.search_current == 0 {
                self.search_matches.len() - 1
            } else {
                self.search_current - 1
            };
            self.search_current = previous;
            let pos: u32 = self.search_matches[previous];
            self.select_and_scroll(pos, effects);
            assert(self@ =~= found.at_match(found.previous_match()));
        }
        assert(told(effects@) =~= was.asks(DirectoryMessage::SearchPrev));
    }

    /// Where the cursor moves from: where it is, or else the first selected row.
    fn moving_from(&self) -> (out: Option<u32>)
        requires
            self.wf(),
        ensures
            match out {
                Some(pos) => self@.moving_from() == Some(pos as int) && pos < self@.entries.len(),
                None => self@.moving_from() is None,
            },
    {
        if let Some(pos) = self.cursor {
            if (pos as usize) < self.entries.len() {
                return Some(pos);
            }
        }
        let mut i: usize = 0;
        while i < self.selected.len()
            invariant
                i <= self.selected@.len(),
                self.wf(),
                panel::first_selected(self.selected@, 0) == panel::first_selected(self.selected@, i as int),
                self@.moving_from() == (if panel::first_selected(self@.selected, 0)
                    < self@.entries.len() {
                    Some(panel::first_selected(self@.selected, 0))
                } else {
                    None
                }),
            decreases self.selected.len() - i,
        {
            if self.selected[i] {
                return Some(i as u32);
            }
            i = i + 1;
        }
        None
    }

    /// Moves the cursor by `delta` rows, but not beyond either end.
    fn move_cursor(&mut self, delta: i32, effects: &mut Vec<Effect>)
        requires
            old(self).wf(),
            old(effects)@.len() == 0,
        ensures
            final(self).wf(),
            final(self)@ == old(self)@.after(DirectoryMessage::MoveCursor(delta)),
            told(final(effects)@) == old(self)@.asks(DirectoryMessage::MoveCursor(delta)),
    {
        let ghost was = self@;
        if self.entries.len() > 0 {
            let last: u32 = (self.entries.len() - 1) as u32;
            let pos: u32 = match self.moving_from() {
                Some(from) => {
                    let wanted: i64 = from as i64 + delta as i64;
                    if wanted < 0 {
                        0
                    } else if wanted > last as i64 {
                        last
                    } else {
                        wanted as u32
                    }
                },
                None => if delta >= 0 {
                    0
                } else {
                    last
                },
            };
            self.select_and_scroll(pos, effects);
        }
        assert(told(effects@) =~= was.asks(DirectoryMessage::MoveCursor(delta)));
    }

    /// Toggles the mark on the row under the cursor and moves on to the next row.
    fn toggle_mark(&mut self, effects: &mut Vec<Effect>)
        requires
            old(self).wf(),
            old(effects)@.len() == 0,
        ensures
            final(self).wf(),
            final(self)@ == old(self)@.after(DirectoryMessage::ToggleMark),
            told(final(effects)@) == old(self)@.asks(DirectoryMessage::ToggleMark),
    {
        let ghost was = self@;
        if let Some(pos) = self.cursor {
            if (pos as usize) < self.entries.len() {
                let uri: String = self.entries[pos as usize].uri.clone();
                assert(was.entries[pos as int] == self.entries@[pos as int]@);
                self.turn_mark(uri);
                let ghost marked = self@;
                effects.push(Effect::RestyleRow(pos));
                let selection: Selection = self.build_selection();
                effects.push(Effect::NewSelection(selection));
                assert(told(effects@) =~= seq![
                    Effect::RestyleRow(pos),
                    Effect::NewSelection(marked.selection()),
                ]);
                if (pos as usize) + 1 < self.entries.len() {
                    self.select_and_scroll(pos + 1, effects);
                }
            }
        }
        assert(told(effects@) =~= was.asks(DirectoryMessage::ToggleMark));
    }

    /// Takes the mark off `uri`, or puts one on it.
    fn turn_mark(&mut self, uri: String)
        requires
            old(self).wf(),
        ensures
            final(self).wf(),
            final(self)@ == old(self)@.toggled(uri@),
    {
        let ghost was = self@;
        let ghost marks = text::texts(self.marks@);
        let mut i: usize = 0;
        while i < self.marks.len()
            invariant
                i <= self.marks@.len(),
                self.wf(),
                self@ == was,
                marks == text::texts(self.marks@),
                was.marks == marks.to_set(),
                *self == *old(self),
                forall|j: int| 0 <= j < i ==> marks[j] != uri@,
            decreases self.marks.len() - i,
        {
            assert(marks[i as int] == self.marks@[i as int]@);
            if self.marks[i] == uri {
                proof {
                    panel::lemma_removing_a_mark(marks, i as int);
                    assert(marks.to_set().contains(marks[i as int]));
                }
                self.marks.remove(i);
                assert(text::texts(self.marks@) =~= marks.remove(i as int));
                return;
            }
            i = i + 1;
        }
        proof {
            text::lemma_texts_push(self.marks@, uri);
            assert(!marks.contains(uri@));
            assert(marks.push(uri@).to_set() =~= marks.to_set().insert(uri@)) by {
                let more = marks.push(uri@);
                assert forall|other: Seq<char>| more.to_set().contains(other)
                    == marks.to_set().insert(uri@).contains(other) by {
                    if marks.contains(other) {
                        let j = choose|j: int| 0 <= j < marks.len() && marks[j] == other;
                        assert(more[j] == other);
                    }
                    if more.contains(other) {
                        let j = choose|j: int| 0 <= j < more.len() && more[j] == other;
                        if j < marks.len() {
                            assert(marks[j] == other);
                        }
                    }
                    assert(more[marks.len() as int] == uri@);
                }
            }
        }
        self.marks.push(uri);
    }

    /// The first row with the given URI.
    fn find(&self, uri: &String) -> (out: Option<u32>)
        requires
            self.wf(),
        ensures
            match out {
                Some(pos) => pos == panel::find_uri(self@.entries, uri@, 0) && pos < self@.entries.len(),
                None => panel::find_uri(self@.entries, uri@, 0) >= self@.entries.len(),
            },
    {
        let mut i: usize = 0;
        while i < self.entries.len()
            invariant
                i <= self.entries@.len(),
                self.wf(),
                panel::find_uri(self@.entries, uri@, 0) == panel::find_uri(self@.entries, uri@, i as int),
            decreases self.entries.len() - i,
        {
            assert(self@.entries[i as int] == self.entries@[i as int]@);
            if self.entries[i].uri == *uri {
                return Some(i as u32);
            }
            i = i + 1;
        }
        None
    }

    /// Follows the file under the cursor after the listing shifted.
    ///
    /// The cursor must not simply be dropped: a panel without a cursor stops being
    /// the cursor panel, and deleting a file would look like jumping a level up the
    /// tree. A re-sort moves the file somewhere else entirely, and after a delete
    /// it is gone — then the old index is the honest fallback, because the row that
    /// took its place is where the eye already is.
    fn invalidate_cursor(&mut self, effects: &mut Vec<Effect>)
        requires
            old(self).wf(),
            old(effects)@.len() == 0,
        ensures
            final(self).wf(),
            final(self)@ == old(self)@.after(DirectoryMessage::InvalidateCursor),
            told(final(effects)@) == old(self)@.asks(DirectoryMessage::InvalidateCursor),
    {
        let ghost was = self@;
        if let Some(previous) = self.cursor {
            if self.entries.len() == 0 {
                self.cursor = None;
                effects.push(Effect::RestyleCursor);
            } else {
                let last: u32 = (self.entries.len() - 1) as u32;
                let found: Option<u32> = match &self.cursor_uri {
                    Some(uri) => self.find(uri),
                    None => None,
                };
                let landed: u32 = match found {
                    Some(pos) => pos,
                    None => if previous <= last {
                        previous
                    } else {
                        last
                    },
                };
                assert(landed == was.landing(previous));
                self.select_and_scroll(landed, effects);
                let ghost before = told(effects@);
                let selection: Selection = self.build_selection();
                effects.push(Effect::NewSelection(selection));
                assert(told(effects@) =~= before.push(Effect::NewSelection(self@.selection())));
            }
        }
        assert(told(effects@) =~= was.asks(DirectoryMessage::InvalidateCursor));
    }

    /// Puts the rows an operation applies to on the clipboard, under both types at
    /// once: the GNOME one carries copy-vs-cut, the list of URIs is what file
    /// pickers and upload dialogs understand.
    fn clipboard_copy(&self, op: ClipboardOp, effects: &mut Vec<Effect>)
        requires
            self.wf(),
            old(effects)@.len() == 0,
        ensures
            told(final(effects)@) == self@.asks(DirectoryMessage::ClipboardCopy(op)),
    {
        let uris: Vec<String> = self.operation_uris();
        let ghost all = text::texts(uris@);
        if uris.len() == 0 {
            effects.push(Effect::Toast("Nothing to copy".to_owned()));
        } else {
            let gnome: String = encode(op, uris.as_slice());
            let uri_list: String = encode_uri_list(uris.as_slice());
            effects.push(Effect::SetClipboard(gnome, uri_list));
            effects.push(Effect::Toast(copied_message(op, uris.len())));
        }
        assert(all.len() == uris@.len());
        assert(told(effects@) =~= self@.asks(DirectoryMessage::ClipboardCopy(op)));
    }

    /// Whether the panel can be told this.
    pub fn accepts(&self, msg: &DirectoryMessage) -> (out: bool)
        requires
            self.wf(),
        ensures
            out == self@.accepts(msg@),
    {
        match msg {
            DirectoryMessage::OpenItemAtPosition(pos) => (*pos as usize) < self.entries.len(),
            DirectoryMessage::SearchPrev => {
                let count: usize = self.count_matches();
                count == 0 || self.search_current <= count
            },
            _ => true,
        }
    }

    /// How many rows match the search term.
    fn count_matches(&self) -> (count: usize)
        requires
            self.wf(),
        ensures
            count == self@.matches().len(),
    {
        let ghost was = self@;
        let ghost all = panel::positions(was.entries.len());
        let mut count: usize = 0;
        let mut i: usize = 0;
        proof {
            panel::lemma_no_positions(was.entries.len(), was.matching());
        }
        while i < self.entries.len()
            invariant
                i <= self.entries@.len(),
                count <= i,
                self.wf(),
                self@ == was,
                all == panel::positions(was.entries.len()),
                count == all.take(i as int).filter(was.matching()).len(),
            decreases self.entries.len() - i,
        {
            proof {
                panel::lemma_positions_grow(was.entries.len(), i as int);
                all.take(i as int).lemma_filter_push(i as u32, was.matching());
                assert(was.entries[i as int] == self.entries@[i as int]@);
            }
            if is_match(self.entries[i].display_name.as_str(), self.search_term.as_str()) {
                count = count + 1;
            }
            i = i + 1;
        }
        proof {
            panel::lemma_no_positions(was.entries.len(), was.matching());
        }
        count
    }

    /// Takes a message: changes the panel and returns what it asks for.
    pub fn update_with_view(&mut self, msg: DirectoryMessage) -> (effects: Vec<Effect>)
        requires
            old(self).wf(),
            old(self)@.accepts(msg@),
        ensures
            final(self).wf(),
            final(self)@ == old(self)@.after(msg@),
            told(effects@) == old(self)@.asks(msg@),
    {
        let ghost was = self@;
        let mut effects: Vec<Effect> = Vec::new();
        assert(told(effects@) =~= Seq::empty());
        match msg {
            DirectoryMessage::OpenItemAtPosition(pos) => {
                assert(was.entries[pos as int] == self.entries@[pos as int]@);
                effects.push(Effect::Open(self.entries[pos as usize].uri.clone()));
            },
            DirectoryMessage::ChooseAndLaunchApp(uri) => {
                effects.push(Effect::ChooseAndLaunchApp(uri));
            },
            DirectoryMessage::TrashSelection => {
                let uris: Vec<String> = self.operation_uris();
                let names: Vec<String> = self.operation_names();
                effects.push(Effect::Trash(uris, names));
            },
            DirectoryMessage::RestoreSelectionFromTrash => {
                effects.push(Effect::Restore(self.operation_uris()));
            },
            DirectoryMessage::ShowNewFolderDialog => {
                effects.push(Effect::ShowNewFolderDialog);
            },
            DirectoryMessage::SetSearch(term) => {
                self.set_search(term, &mut effects);
            },
            DirectoryMessage::SearchNext => {
                self.search_next(&mut effects);
            },
            DirectoryMessage::SearchPrev => {
                self.search_prev(&mut effects);
            },
            DirectoryMessage::ClearSearch => {
                self.search_term = String::new();
                self.search_matches = Vec::new();
                self.search_current = 0;
                let none: String = String::new();
                assert(none@ =~= Seq::<char>::empty());
                effects.push(Effect::SetSearchTerm(none));
                effects.push(Effect::RefreshHighlights);
            },
            DirectoryMessage::RenameSelected => {
                if let Some(row) = self.cursor_file_info() {
                    effects.push(Effect::Rename(row.uri.clone()));
                }
            },
            DirectoryMessage::MoveCursor(delta) => {
                self.move_cursor(delta, &mut effects);
            },
            DirectoryMessage::SelectFirst => {
                self.select_and_scroll(0, &mut effects);
            },
            DirectoryMessage::SelectLast => {
                if self.entries.len() > 0 {
                    let last: u32 = (self.entries.len() - 1) as u32;
                    self.select_and_scroll(last, &mut effects);
                }
            },
            DirectoryMessage::UnselectAll => {
                let mut selected: Vec<bool> = Vec::new();
                let mut i: usize = 0;
                while i < self.entries.len()
                    invariant
                        i <= self.entries@.len(),
                        selected@.len() == i,
                        forall|j: int| 0 <= j < i ==> !selected@[j],
                    decreases self.entries.len() - i,
                {
                    selected.push(false);
                    i = i + 1;
                }
                self.selected = selected;
                effects.push(Effect::UnselectAll);
            },
            DirectoryMessage::OpenSelected => {
                if let Some(row) = self.cursor_file_info() {
                    if is_audio(row) {
                        effects.push(Effect::ToggleAudioPreview);
                    } else {
                        effects.push(Effect::Open(row.uri.clone()));
                    }
                }
            },
            DirectoryMessage::AutoSelectIfPending => {
                if self.select_first_on_load && self.entries.len() > 0 {
                    self.select_first_on_load = false;
                    self.select_and_scroll(0, &mut effects);
                }
            },
            DirectoryMessage::ToggleMark => {
                self.toggle_mark(&mut effects);
            },
            DirectoryMessage::DeleteSelectionPermanent => {
                let uris: Vec<String> = self.operation_uris();
                assert(text::texts(uris@).len() == uris@.len());
                if uris.len() > 0 {
                    effects.push(Effect::DeletePermanently(uris));
                }
            },
            DirectoryMessage::InvalidateCursor => {
                self.invalidate_cursor(&mut effects);
            },
            DirectoryMessage::ClipboardCopy(op) => {
                self.clipboard_copy(op, &mut effects);
            },
            DirectoryMessage::ClipboardPaste => {
                effects.push(Effect::Paste);
            },
            DirectoryMessage::SetCursorPanel(owns_cursor) => {
                self.is_cursor_panel = owns_cursor;
                effects.push(Effect::RestyleCursor);
            },
            DirectoryMessage::SetLayout(plan) => {
                effects.push(Effect::SetVisible(plan.visible));
                if plan.visible {
                    effects.push(Effect::SetWidth(plan.width));
                    self.sliver = plan.sliver;
                    effects.push(Effect::ShowPage(page(self.loading, plan.sliver)));
                }
            },
            DirectoryMessage::ResetLayout => {
                effects.push(Effect::SetVisible(true));
                effects.push(Effect::SetWidth(WIDTH));
                self.sliver = false;
                effects.push(Effect::ShowPage(page(self.loading, false)));
            },
        }
        assert(self@ =~= was.after(msg@));
        assert(told(effects@) =~= was.asks(msg@));
        effects
    }

    /// Takes the listing as it is after it was loaded, sorted anew or changed from
    /// outside, with the rows of it that are still selected. Returns what the panel
    /// is to be told next, so that its cursor finds its place, and what is selected
    /// until then.
    pub fn items_changed(&mut self, entries: Vec<Entry>, selected: Vec<bool>) -> (due: (
        Vec<DirectoryMessage>,
        Selection,
    ))
        requires
            old(self).wf(),
            selected@.len() == entries@.len() <= u32::MAX,
        ensures
            final(self).wf(),
            final(self)@ == (Panel {
                entries: entries@.map_values(|entry: Entry| entry@),
                selected: selected@,
                ..old(self)@
            }),
            due.0@.map_values(|message: DirectoryMessage| message@) == seq![
                DirectoryMessage::<Seq<char>>::InvalidateCursor,
                DirectoryMessage::AutoSelectIfPending,
            ],
            due.1@ == final(self)@.selection(),
    {
        self.entries = entries;
        self.selected = selected;
        let mut messages: Vec<DirectoryMessage> = Vec::new();
        messages.push(DirectoryMessage::InvalidateCursor);
        messages.push(DirectoryMessage::AutoSelectIfPending);
        assert(messages@.map_values(|message: DirectoryMessage| message@) =~= seq![
            DirectoryMessage::<Seq<char>>::InvalidateCursor,
            DirectoryMessage::AutoSelectIfPending,
        ]);
        (messages, self.build_selection())
    }

    /// Takes the rows that are selected after the user changed that with the
    /// mouse, and returns what is selected now.
    pub fn selection_changed(&mut self, selected: Vec<bool>) -> (selection: Selection)
        requires
            old(self).wf(),
            selected@.len() == old(self)@.entries.len(),
        ensures
            final(self).wf(),
            final(self)@ == (Panel { selected: selected@, ..old(self)@ }),
            selection@ == final(self)@.selection(),
    {
        self.selected = selected;
        self.build_selection()
    }

    /// Takes whether the listing is being loaded, and returns the page to show: a
    /// refresh cannot bounce a sliver back to the listing.
    pub fn set_loading(&mut self, loading: bool) -> (shown: Page)
        requires
            old(self).wf(),
        ensures
            final(self).wf(),
            final(self)@ == (Panel { loading, ..old(self)@ }),
            shown == panel::page_for(loading, old(self)@.sliver),
    {
        self.loading = loading;
        page(loading, self.sliver)
    }

    /// Whether the row at `pos` wears the marked style.
    pub fn wears_mark(&self, pos: u32) -> (out: bool)
        requires
            self.wf(),
            pos < self@.entries.len(),
        ensures
            out == self@.marked_at(pos),
    {
        assert(self@.entries[pos as int] == self.entries@[pos as int]@);
        self.is_marked(&self.entries[pos as usize].uri)
    }

    /// Whether the row at `pos` wears the cursor style. Ancestor panels keep their
    /// selection as a quiet breadcrumb; lighting all of them up would defeat the
    /// point of finding the cursor.
    pub fn wears_cursor(&self, pos: u32) -> (out: bool)
        ensures
            out == (self@.is_cursor_panel && self@.cursor == Some(pos)),
    {
        match self.cursor {
            Some(cursor) => self.is_cursor_panel && cursor == pos,
            None => false,
        }
    }

    /// Takes a right click on the row at `pos`: if that row isn't part of the
    /// selection, it is selected, alone.
    pub fn context_click(&mut self, pos: u32) -> (effects: Vec<Effect>)
        requires
            old(self).wf(),
            pos < old(self)@.entries.len(),
        ensures
            final(self).wf(),
            final(self)@ == (if old(self)@.selected[pos as int] {
                old(self)@
            } else {
                Panel { selected: old(self)@.moved(pos).selected, ..old(self)@ }
            }),
            old(self)@.selected[pos as int] ==> told(effects@).len() == 0,
            !old(self)@.selected[pos as int] ==> told(effects@) == seq![
                Effect::<Seq<char>, Seq<Seq<char>>>::Select(pos),
            ],
    {
        let ghost was = self@;
        let mut effects: Vec<Effect> = Vec::new();
        assert(told(effects@) =~= Seq::empty());
        if !self.selected[pos as usize] {
            let mut selected: Vec<bool> = Vec::new();
            let mut i: usize = 0;
            while i < self.entries.len()
                invariant
                    i <= self.entries@.len(),
                    selected@.len() == i,
                    forall|j: int| 0 <= j < i ==> selected@[j] == (j == pos),
                decreases self.entries.len() - i,
            {
                selected.push(i == pos as usize);
                i = i + 1;
            }
            self.selected = selected;
            effects.push(Effect::Select(pos));
            assert(self@.selected =~= was.moved(pos).selected);
            assert(told(effects@) =~= seq![Effect::<Seq<char>, Seq<Seq<char>>>::Select(pos)]);
        }
        effects
    }
}

/// What the sliver of a panel says: the initial of its directory's name, the same
/// breadcrumb that the title abbreviates it to.
pub fn sliver_label(name: Option<&str>) -> (label: String)
    ensures
        label@ == (match name {
            Some(name) => path_title::abbreviation(name@),
            None => Seq::empty(),
        }),
{
    match name {
        Some(name) => initial(name),
        None => String::new(),
    }
}

/// The names of those files that were trashed.
pub open spec fn trashed_names(names: Seq<Seq<char>>, trashed: Seq<bool>) -> Seq<Seq<char>>
    decreases names.len(),
{
    if names.len() == 0 || names.len() != trashed.len() {
        Seq::empty()
    } else {
        let before = trashed_names(names.drop_last(), trashed.drop_last());
        if trashed.last() {
            before.push(names.last())
        } else {
            before
        }
    }
}

/// What the user reads after these files were trashed: the name if it is a single
/// one, else how many there are.
pub open spec fn trash_message(names: Seq<Seq<char>>) -> Seq<char> {
    if names.len() == 1 {
        "'"@ + names[0] + "' moved to trash"@
    } else {
        text::decimal(names.len()) + " files moved to trash"@
    }
}

/// What the user reads after trashing the files with these names, of which those
/// with a `true` at their place were trashed. Nothing if none was.
pub fn trash_report(names: &Vec<String>, trashed: &Vec<bool>) -> (message: Option<String>)
    requires
        names@.len() == trashed@.len(),
    ensures
        ({
            let gone = trashed_names(text::texts(names@), trashed@);
            match message {
                Some(message) => gone.len() > 0 && message@ == trash_message(gone),
                None => gone.len() == 0,
            }
        }),
{
    let ghost all = text::texts(names@);
    let ghost gone = trashed_names(all, trashed@);
    let mut count: usize = 0;
    let mut first: usize = 0;
    let mut i: usize = 0;
    proof {
        assert(all.take(0) =~= Seq::<Seq<char>>::empty());
    }
    while i < names.len()
        invariant
            i <= names@.len() == trashed@.len(),
            all == text::texts(names@),
            count <= i,
            count == trashed_names(all.take(i as int), trashed@.take(i as int)).len(),
            count > 0 ==> first < names@.len() && trashed_names(
                all.take(i as int),
                trashed@.take(i as int),
            )[0] == all[first as int],
        decreases names.len() - i,
    {
        proof {
            assert(all.take(i + 1).drop_last() =~= all.take(i as int));
            assert(trashed@.take(i + 1).drop_last() =~= trashed@.take(i as int));
        }
        if trashed[i] {
            if count == 0 {
                first = i;
            }
            count = count + 1;
        }
        i = i + 1;
    }
    proof {
        assert(all.take(i as int) =~= all);
        assert(trashed@.take(i as int) =~= trashed@);
    }
    if count == 0 {
        None
    } else if count == 1 {
        let mut message: String = "'".to_owned();
        message.append(names[first].as_str());
        message.append("' moved to trash");
        Some(message)
    } else {
        let mut message: String = decimal_text(count as u64);
        message.append(" files moved to trash");
        Some(message)
    }
}

/// Of the files that were to be trashed those are reported that were, in their order.
pub proof fn law_what_was_trashed_is_reported(
    names: Seq<Seq<char>>,
    trashed: Seq<bool>,
    name: Seq<char>,
)
    requires
        names.len() == trashed.len(),
    ensures
        trashed_names(Seq::empty(), Seq::empty()).len() == 0,
        trashed_names(names.push(name), trashed.push(true)) == trashed_names(names, trashed).push(
            name,
        ),
        trashed_names(names.push(name), trashed.push(false)) == trashed_names(names, trashed),
        trash_message(seq![name]) == "'"@ + name + "' moved to trash"@,
        names.len() != 1 ==> trash_message(names) == text::decimal(names.len())
            + " files moved to trash"@,
{
    assert(names.push(name).drop_last() =~= names);
    assert(trashed.push(true).drop_last() =~= trashed);
    assert(trashed.push(false).drop_last() =~= trashed);
}

/// An operation applies to what is marked, and to what is under the cursor only if
/// nothing is.
pub proof fn law_marks_win_outright<T>(marked: Vec<T>, under_cursor: Vec<T>, rows: Vec<T>)
    requires
        call_ensures(operation_rows::<T>, (marked, under_cursor), rows),
    ensures
        marked@.len() > 0 ==> rows@ == marked@,
        marked@.len() == 0 ==> rows@ == under_cursor@,
{
}

/// A changed listing is taken as it is, and the panel is then told to find its cursor
/// again before it may select its first row. Neither marks nor cursor change on their
/// own.
pub proof fn law_a_changed_listing_is_taken_as_it_is(
    panel: &mut Directory,
    entries: Vec<Entry>,
    selected: Vec<bool>,
    due: (Vec<DirectoryMessage>, Selection),
)
    requires
        call_ensures(Directory::items_changed, (panel, entries, selected), due),
    ensures
        final(panel)@.entries.len() == entries@.len(),
        forall|i: int|
            0 <= i < entries@.len() ==> #[trigger] final(panel)@.entries[i] == entries@[i]@,
        final(panel)@.selected == selected@,
        final(panel)@.cursor == old(panel)@.cursor,
        final(panel)@.cursor_uri == old(panel)@.cursor_uri,
        final(panel)@.marks == old(panel)@.marks,
        final(panel)@.dir == old(panel)@.dir,
        due.0@.len() == 2,
        due.0@[0] is InvalidateCursor,
        due.0@[1] is AutoSelectIfPending,
        due.1@ == final(panel)@.selection(),
{
    let messages = due.0@.map_values(|message: DirectoryMessage| message@);
    assert(messages.len() == due.0@.len());
    assert(messages[0] == due.0@[0]@);
    assert(messages[1] == due.0@[1]@);
}

/// Selecting with the mouse changes what is selected and nothing else, and loading the
/// page that is shown: the spinner while the listing is loaded, and then a sliver or the
/// listing.
pub proof fn law_the_mouse_and_the_loader_change_one_thing(
    clicked: &mut Directory,
    selected: Vec<bool>,
    selection: Selection,
    loaded: &mut Directory,
    loading: bool,
    shown: Page,
)
    requires
        call_ensures(Directory::selection_changed, (clicked, selected), selection),
        call_ensures(Directory::set_loading, (loaded, loading), shown),
    ensures
        final(clicked)@.selected == selected@,
        final(clicked)@ == (Panel { selected: selected@, ..old(clicked)@ }),
        selection@ == final(clicked)@.selection(),
        final(loaded)@.loading == loading,
        final(loaded)@ == (Panel { loading, ..old(loaded)@ }),
        loading ==> shown == Page::Spinner,
        !loading && old(loaded)@.sliver ==> shown == Page::Sliver,
        !loading && !old(loaded)@.sliver ==> shown == Page::Listing,
{
}

/// A row wears the marked style exactly if its file is marked, and the cursor style only
/// in the panel that owns the cursor, and only under it.
pub proof fn law_rows_wear_what_they_are_due(
    panel: Directory,
    pos: u32,
    marked: bool,
    under_cursor: bool,
)
    requires
        panel.wf(),
        pos < panel@.entries.len(),
        call_ensures(Directory::wears_mark, (&panel, pos), marked),
        call_ensures(Directory::wears_cursor, (&panel, pos), under_cursor),
    ensures
        marked <==> panel@.marks.contains(panel@.entries[pos as int].uri),
        under_cursor <==> panel@.is_cursor_panel && panel@.cursor is Some && panel@.cursor->0
            == pos,
{
}

/// A right click on a row that is selected leaves the selection as it is; on any other
/// it selects that row alone. The cursor stays where it is.
pub proof fn law_a_right_click_selects_its_row(
    panel: &mut Directory,
    pos: u32,
    effects: Vec<Effect>,
    i: int,
)
    requires
        old(panel).wf(),
        pos < old(panel)@.entries.len(),
        0 <= i < old(panel)@.entries.len(),
        call_ensures(Directory::context_click, (panel, pos), effects),
    ensures
        final(panel)@ == (Panel { selected: final(panel)@.selected, ..old(panel)@ }),
        final(panel)@.selected.len() == old(panel)@.entries.len(),
        final(panel)@.selected[pos as int],
        old(panel)@.selected[pos as int] ==> final(panel)@.selected == old(panel)@.selected
            && effects@.len() == 0,
        !old(panel)@.selected[pos as int] ==> {
            &&& final(panel)@.selected[i] <==> i == pos
            &&& effects@.len() == 1
            &&& effects@[0] == Effect::<String, Vec<String>>::Select(pos)
        },
{
    assert(told(effects@).len() == effects@.len());
    if !old(panel)@.selected[pos as int] {
        assert(told(effects@)[0] == effects@[0]@);
    }
}

/// A sliver says the initial of its directory's name, with its dot if it starts with
/// one.
pub proof fn law_a_sliver_says_an_initial(name: &str, label: String, nothing: String)
    requires
        call_ensures(sliver_label, (Some(name),), label),
        call_ensures(sliver_label, (None,), nothing),
    ensures
        nothing@.len() == 0,
        name@.len() > 0 && name@[0] != '.' ==> label@ == seq![name@[0]],
        name@.len() > 1 && name@[0] == '.' ==> label@ == seq!['.', name@[1]],
        name@.len() <= 1 ==> label@ == name@,
{
    assert(label@ =~= path_title::abbreviation(name@));
}

/// After trashing, what was trashed is reported, and nothing if nothing was.
pub proof fn law_trashing_is_reported(
    names: Vec<String>,
    trashed: Vec<bool>,
    message: Option<String>,
)
    requires
        names@.len() == trashed@.len(),
        call_ensures(trash_report, (&names, &trashed), message),
    ensures
        names@.len() == 0 ==> message is None,
        names@.len() == 1 && trashed@[0] ==> message is Some && message->0@ == "'"@ + names@[0]@
            + "' moved to trash"@,
        names@.len() == 1 && !trashed@[0] ==> message is None,
        names@.len() == 2 && trashed@[0] && trashed@[1] ==> message is Some && message->0@
            == text::decimal(2) + " files moved to trash"@,
{
    let all = text::texts(names@);
    let none = Seq::<Seq<char>>::empty();
    let never = Seq::<bool>::empty();
    if names@.len() == 1 {
        assert(all =~= none.push(names@[0]@));
        assert(trashed@ =~= never.push(trashed@[0]));
        law_what_was_trashed_is_reported(none, never, names@[0]@);
    }
    if names@.len() == 2 && trashed@[0] && trashed@[1] {
        let one = none.push(names@[0]@);
        assert(all =~= one.push(names@[1]@));
        assert(trashed@ =~= never.push(true).push(true));
        law_what_was_trashed_is_reported(none, never, names@[0]@);
        law_what_was_trashed_is_reported(one, never.push(true), names@[1]@);
    }
}

/// Everything of a panel is seen as it is: its rows one by one, its marks as the set of
/// the files that carry one.
pub proof fn law_a_panel_is_seen_as_it_is(panel: Directory, i: int, m: int, uri: Seq<char>)
    requires
        0 <= i < panel.entries@.len(),
        0 <= m < panel.marks@.len(),
        forall|j: int| 0 <= j < panel.marks@.len() ==> (#[trigger] panel.marks@[j])@ != uri,
    ensures
        panel@.entries.len() == panel.entries@.len(),
        panel@.entries[i].uri == panel.entries@[i].uri@,
        panel@.entries[i].display_name == panel.entries@[i].display_name@,
        panel@.entries[i].is_dir == panel.entries@[i].is_dir,
        panel@.entries[i].is_hidden == panel.entries@[i].is_hidden,
        panel@.entries[i].modified == panel.entries@[i].modified,
        panel@.entries[i].content_type is Some <==> panel.entries@[i].content_type is Some,
        panel@.entries[i].mime_type is Some <==> panel.entries@[i].mime_type is Some,
        panel@.marks.contains(panel.marks@[m]@),
        !panel@.marks.contains(uri),
        panel@.dir == panel.dir@,
        panel@.selected == panel.selected@,
        panel@.cursor == panel.cursor,
        panel@.cursor_uri is Some <==> panel.cursor_uri is Some,
        panel@.search_term == panel.search_term@,
        panel@.search_matches == panel.search_matches@,
        panel@.search_current == panel.search_current,
        panel@.select_first_on_load == panel.select_first_on_load,
        panel@.is_cursor_panel == panel.is_cursor_panel,
        panel@.sliver == panel.sliver,
        panel@.loading == panel.loading,
{
    let marks = text::texts(panel.marks@);
    assert(marks.len() == panel.marks@.len());
    assert(marks[m] == panel.marks@[m]@);
    assert(marks.contains(marks[m]));
    if marks.contains(uri) {
        let j = choose|j: int| 0 <= j < marks.len() && marks[j] == uri;
        assert(marks[j] == panel.marks@[j]@);
    }
}

} // verus!
