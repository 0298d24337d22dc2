use fm::clipboard::ClipboardOp;
use fm::component::directory_list::{
    operation_rows, page, sliver_label, trash_report, Directory, DirectoryMessage, Effect,
    FileSelection, Page, Selection,
};
use fm::component::entry::Entry;
use fm::layout::PanelLayout;

#[test]
fn marked_entries_win_over_the_cursor() {
    // The reported bug: with entries marked, Delete also trashed the row
    // the cursor happened to be resting on.
    let rows = operation_rows(vec!["a.txt", "b.txt"], vec!["under-cursor.txt"]);
    assert_eq!(rows, vec!["a.txt", "b.txt"]);
}

#[test]
fn the_cursor_acts_alone_when_nothing_is_marked() {
    let rows = operation_rows(Vec::new(), vec!["under-cursor.txt"]);
    assert_eq!(rows, vec!["under-cursor.txt"]);
}

#[test]
fn an_empty_listing_has_nothing_to_operate_on() {
    assert!(operation_rows::<&str>(Vec::new(), Vec::new()).is_empty());
}

fn entry(name: &str) -> Entry {
    Entry {
        uri: format!("file:///d/{name}"),
        display_name: name.to_owned(),
        is_dir: false,
        is_hidden: false,
        content_type: None,
        mime_type: None,
        modified: None,
    }
}

fn uri(name: &str) -> String {
    format!("file:///d/{name}")
}

fn uris(names: &[&str]) -> Vec<String> {
    names.iter().map(|name| uri(name)).collect()
}

fn listing(names: &[&str]) -> Directory {
    let mut directory = Directory::new("/d".to_owned(), false);
    let entries: Vec<Entry> = names.iter().map(|name| entry(name)).collect();
    let selected = vec![false; entries.len()];
    directory.items_changed(entries, selected);
    directory.set_loading(false);
    directory
}

fn moving(pos: u32) -> Vec<Effect> {
    vec![Effect::Select(pos), Effect::RestyleCursor, Effect::ScrollTo(pos)]
}

fn files(names: &[&str], cursor: Option<&str>) -> Selection {
    Selection::Files(FileSelection {
        parent: "/d".to_owned(),
        files: uris(names),
        cursor_file: cursor.map(uri),
    })
}

#[test]
fn a_new_panel_is_empty_and_loading() {
    let mut directory = Directory::new("/d".to_owned(), true);
    assert_eq!(directory.dir(), "/d");
    assert!(!directory.has_cursor());
    assert_eq!(directory.build_selection(), Selection::Nothing);
    assert_eq!(directory.set_loading(true), Page::Spinner);
    assert_eq!(directory.set_loading(false), Page::Listing);
    assert_eq!(directory.update_with_view(DirectoryMessage::SelectFirst), vec![]);
    assert_eq!(directory.update_with_view(DirectoryMessage::SelectLast), vec![]);
    assert_eq!(directory.update_with_view(DirectoryMessage::MoveCursor(1)), vec![]);
}

#[test]
fn the_cursor_moves_and_stops_at_both_ends() {
    let mut directory = listing(&["a", "b", "c"]);
    assert_eq!(directory.update_with_view(DirectoryMessage::MoveCursor(1)), moving(0));
    assert!(directory.has_cursor());
    assert_eq!(directory.update_with_view(DirectoryMessage::MoveCursor(5)), moving(2));
    assert_eq!(directory.update_with_view(DirectoryMessage::MoveCursor(-1)), moving(1));
    assert_eq!(directory.update_with_view(DirectoryMessage::MoveCursor(i32::MIN)), moving(0));
    assert_eq!(directory.update_with_view(DirectoryMessage::SelectLast), moving(2));
    assert_eq!(directory.update_with_view(DirectoryMessage::SelectFirst), moving(0));
    assert_eq!(directory.selected, vec![true, false, false]);
}

#[test]
fn without_a_cursor_a_move_starts_at_an_end_or_at_the_selection() {
    let mut directory = listing(&["a", "b", "c"]);
    assert_eq!(directory.update_with_view(DirectoryMessage::MoveCursor(-1)), moving(2));
    let mut directory = listing(&["a", "b", "c"]);
    directory.selection_changed(vec![false, true, true]);
    assert_eq!(directory.update_with_view(DirectoryMessage::MoveCursor(1)), moving(2));
}

#[test]
fn down_and_up_again_comes_back() {
    let mut directory = listing(&["a", "b", "c"]);
    directory.update_with_view(DirectoryMessage::SelectFirst);
    directory.update_with_view(DirectoryMessage::MoveCursor(2));
    directory.update_with_view(DirectoryMessage::MoveCursor(-2));
    assert_eq!(directory.cursor, Some(0));
    assert_eq!(directory.cursor_uri, Some(uri("a")));
    assert_eq!(directory.selected, vec![true, false, false]);
}

#[test]
fn a_root_panel_selects_its_first_row_once() {
    let mut directory = Directory::new("/d".to_owned(), true);
    assert_eq!(directory.update_with_view(DirectoryMessage::AutoSelectIfPending), vec![]);
    let (messages, selection) = directory.items_changed(vec![entry("a"), entry("b")], vec![false, false]);
    assert_eq!(
        messages,
        vec![DirectoryMessage::InvalidateCursor, DirectoryMessage::AutoSelectIfPending]
    );
    assert_eq!(selection, Selection::Nothing);
    assert_eq!(directory.update_with_view(DirectoryMessage::InvalidateCursor), vec![]);
    assert_eq!(directory.update_with_view(DirectoryMessage::AutoSelectIfPending), moving(0));
    directory.update_with_view(DirectoryMessage::SelectLast);
    assert_eq!(directory.update_with_view(DirectoryMessage::AutoSelectIfPending), vec![]);
}

#[test]
fn marking_advances_and_marks_survive_navigation() {
    let mut directory = listing(&["a", "b"]);
    assert_eq!(directory.update_with_view(DirectoryMessage::ToggleMark), vec![]);
    directory.update_with_view(DirectoryMessage::SelectFirst);
    let mut expected = vec![
        Effect::RestyleRow(0),
        Effect::NewSelection(files(&["a"], Some("a"))),
    ];
    expected.extend(moving(1));
    assert_eq!(directory.update_with_view(DirectoryMessage::ToggleMark), expected);
    assert!(directory.wears_mark(0));
    assert!(!directory.wears_mark(1));
    // On the last row there is nowhere to advance to.
    assert_eq!(
        directory.update_with_view(DirectoryMessage::ToggleMark),
        vec![
            Effect::RestyleRow(1),
            Effect::NewSelection(files(&["b", "a"], Some("b"))),
        ]
    );
    directory.update_with_view(DirectoryMessage::MoveCursor(-1));
    directory.update_with_view(DirectoryMessage::UnselectAll);
    assert_eq!(directory.marks, uris(&["a", "b"]));
    assert_eq!(directory.build_selection(), files(&["a", "b"], None));
}

#[test]
fn toggling_twice_takes_the_mark_off_again() {
    let mut directory = listing(&["a"]);
    directory.update_with_view(DirectoryMessage::SelectFirst);
    directory.update_with_view(DirectoryMessage::ToggleMark);
    directory.update_with_view(DirectoryMessage::ToggleMark);
    assert_eq!(directory.marks, Vec::<String>::new());
    assert!(!directory.is_marked(&uri("a")));
}

#[test]
fn operations_take_the_marked_rows_or_else_the_selected_ones() {
    let mut directory = listing(&["a", "b", "c"]);
    directory.update_with_view(DirectoryMessage::SelectLast);
    assert_eq!(directory.selected_file_info(), vec![2]);
    assert_eq!(
        directory.update_with_view(DirectoryMessage::TrashSelection),
        vec![Effect::Trash(uris(&["c"]), vec!["c".to_owned()])]
    );
    directory.marks = uris(&["b", "a", "gone"]);
    assert_eq!(directory.selected_file_info(), vec![0, 1]);
    assert_eq!(
        directory.update_with_view(DirectoryMessage::RestoreSelectionFromTrash),
        vec![Effect::Restore(uris(&["a", "b"]))]
    );
    assert_eq!(
        directory.update_with_view(DirectoryMessage::DeleteSelectionPermanent),
        vec![Effect::DeletePermanently(uris(&["a", "b"]))]
    );
    // Marks that match nothing listed do not count.
    directory.marks = uris(&["gone"]);
    assert_eq!(directory.selected_file_info(), vec![2]);
}

#[test]
fn nothing_selected_means_nothing_deleted() {
    let mut directory = listing(&["a"]);
    assert_eq!(directory.update_with_view(DirectoryMessage::DeleteSelectionPermanent), vec![]);
    assert_eq!(
        directory.update_with_view(DirectoryMessage::TrashSelection),
        vec![Effect::Trash(vec![], vec![])]
    );
}

#[test]
fn a_search_jumps_to_its_matches_and_wraps() {
    let mut directory = listing(&["Notes", "b", "keynote", "NOTE"]);
    let mut expected = vec![Effect::SetSearchTerm("note".to_owned())];
    expected.extend(moving(0));
    expected.push(Effect::RefreshHighlights);
    assert_eq!(
        directory.update_with_view(DirectoryMessage::SetSearch("note".to_owned())),
        expected
    );
    assert_eq!(directory.search_matches, vec![0, 2, 3]);
    assert_eq!(directory.update_with_view(DirectoryMessage::SearchNext), moving(2));
    assert_eq!(directory.update_with_view(DirectoryMessage::SearchNext), moving(3));
    assert_eq!(directory.update_with_view(DirectoryMessage::SearchNext), moving(0));
    assert_eq!(directory.update_with_view(DirectoryMessage::SearchPrev), moving(3));
    assert_eq!(directory.update_with_view(DirectoryMessage::SearchPrev), moving(2));
    assert_eq!(
        directory.update_with_view(DirectoryMessage::ClearSearch),
        vec![Effect::SetSearchTerm(String::new()), Effect::RefreshHighlights]
    );
    assert_eq!(directory.search_matches, Vec::<u32>::new());
    assert_eq!(directory.update_with_view(DirectoryMessage::SearchNext), vec![]);
    assert_eq!(directory.update_with_view(DirectoryMessage::SearchPrev), vec![]);
}

#[test]
fn a_search_without_matches_leaves_the_cursor() {
    let mut directory = listing(&["a"]);
    directory.update_with_view(DirectoryMessage::SelectFirst);
    assert_eq!(
        directory.update_with_view(DirectoryMessage::SetSearch("zzz".to_owned())),
        vec![Effect::SetSearchTerm("zzz".to_owned()), Effect::RefreshHighlights]
    );
    assert_eq!(directory.cursor, Some(0));
}

#[test]
fn a_match_that_is_long_gone_has_no_predecessor() {
    let mut directory = listing(&["x1", "x2", "x3", "x4"]);
    directory.update_with_view(DirectoryMessage::SetSearch("x".to_owned()));
    directory.update_with_view(DirectoryMessage::SearchPrev);
    assert_eq!(directory.search_current, 3);
    directory.items_changed(vec![entry("x1")], vec![false]);
    assert!(!directory.accepts(&DirectoryMessage::SearchPrev));
    assert!(directory.accepts(&DirectoryMessage::SearchNext));
    assert_eq!(directory.update_with_view(DirectoryMessage::SearchNext), moving(0));
    assert!(directory.accepts(&DirectoryMessage::SearchPrev));
}

#[test]
fn the_cursor_follows_its_file_when_the_listing_shifts() {
    let mut directory = listing(&["a", "b", "c"]);
    directory.update_with_view(DirectoryMessage::SelectFirst);
    directory.items_changed(vec![entry("c"), entry("b"), entry("a")], vec![false; 3]);
    let mut expected = moving(2);
    expected.push(Effect::NewSelection(files(&["a"], Some("a"))));
    assert_eq!(directory.update_with_view(DirectoryMessage::InvalidateCursor), expected);
    assert!(directory.has_cursor());
}

#[test]
fn the_cursor_stays_in_place_when_its_file_is_deleted() {
    let mut directory = listing(&["a", "b", "c"]);
    directory.update_with_view(DirectoryMessage::SelectLast);
    directory.items_changed(vec![entry("a"), entry("b")], vec![false; 2]);
    let mut expected = moving(1);
    expected.push(Effect::NewSelection(files(&["b"], Some("b"))));
    assert_eq!(directory.update_with_view(DirectoryMessage::InvalidateCursor), expected);
    assert!(directory.has_cursor());

    directory.items_changed(vec![], vec![]);
    assert_eq!(
        directory.update_with_view(DirectoryMessage::InvalidateCursor),
        vec![Effect::RestyleCursor]
    );
    assert_eq!(directory.cursor, None);
    assert_eq!(directory.update_with_view(DirectoryMessage::InvalidateCursor), vec![]);
}

#[test]
fn leaving_a_panel_takes_the_cursor_out_even_with_marks() {
    let mut directory = listing(&["a", "b"]);
    directory.update_with_view(DirectoryMessage::SelectFirst);
    directory.update_with_view(DirectoryMessage::ToggleMark);
    assert!(directory.has_cursor());
    assert_eq!(
        directory.update_with_view(DirectoryMessage::UnselectAll),
        vec![Effect::UnselectAll]
    );
    assert!(!directory.has_cursor());
    assert_eq!(directory.build_selection(), files(&["a"], None));
}

#[test]
fn copying_offers_both_payloads_and_counts() {
    let mut directory = listing(&["a", "b"]);
    assert_eq!(
        directory.update_with_view(DirectoryMessage::ClipboardCopy(ClipboardOp::Copy)),
        vec![Effect::Toast("Nothing to copy".to_owned())]
    );
    directory.update_with_view(DirectoryMessage::SelectFirst);
    assert_eq!(
        directory.update_with_view(DirectoryMessage::ClipboardCopy(ClipboardOp::Copy)),
        vec![
            Effect::SetClipboard("copy\nfile:///d/a".to_owned(), "file:///d/a\r\n".to_owned()),
            Effect::Toast("1 file copied".to_owned()),
        ]
    );
    directory.marks = uris(&["a", "b"]);
    assert_eq!(
        directory.update_with_view(DirectoryMessage::ClipboardCopy(ClipboardOp::Cut)),
        vec![
            Effect::SetClipboard(
                "cut\nfile:///d/a\nfile:///d/b".to_owned(),
                "file:///d/a\r\nfile:///d/b\r\n".to_owned()
            ),
            Effect::Toast("2 files cut".to_owned()),
        ]
    );
    assert_eq!(
        directory.update_with_view(DirectoryMessage::ClipboardPaste),
        vec![Effect::Paste]
    );
}

#[test]
fn opening_plays_sounds_and_launches_everything_else() {
    let mut directory = listing(&["a", "b"]);
    assert_eq!(directory.update_with_view(DirectoryMessage::OpenSelected), vec![]);
    assert_eq!(directory.update_with_view(DirectoryMessage::RenameSelected), vec![]);
    directory.entries[1].mime_type = Some("audio/ogg".to_owned());
    directory.update_with_view(DirectoryMessage::SelectFirst);
    assert_eq!(
        directory.update_with_view(DirectoryMessage::OpenSelected),
        vec![Effect::Open(uri("a"))]
    );
    assert_eq!(
        directory.update_with_view(DirectoryMessage::RenameSelected),
        vec![Effect::Rename(uri("a"))]
    );
    directory.update_with_view(DirectoryMessage::SelectLast);
    assert_eq!(
        directory.update_with_view(DirectoryMessage::OpenSelected),
        vec![Effect::ToggleAudioPreview]
    );
    // Activating a row opens it whatever it is.
    assert_eq!(
        directory.update_with_view(DirectoryMessage::OpenItemAtPosition(1)),
        vec![Effect::Open(uri("b"))]
    );
    assert!(!directory.accepts(&DirectoryMessage::OpenItemAtPosition(2)));
    assert_eq!(
        directory.update_with_view(DirectoryMessage::ChooseAndLaunchApp(uri("a"))),
        vec![Effect::ChooseAndLaunchApp(uri("a"))]
    );
    assert_eq!(
        directory.update_with_view(DirectoryMessage::ShowNewFolderDialog),
        vec![Effect::ShowNewFolderDialog]
    );
}

#[test]
fn only_the_cursor_panel_glows() {
    let mut directory = listing(&["a", "b"]);
    directory.update_with_view(DirectoryMessage::SelectFirst);
    assert!(!directory.wears_cursor(0));
    assert_eq!(
        directory.update_with_view(DirectoryMessage::SetCursorPanel(true)),
        vec![Effect::RestyleCursor]
    );
    assert!(directory.wears_cursor(0));
    assert!(!directory.wears_cursor(1));
}

#[test]
fn a_layout_chooses_width_and_page() {
    let mut directory = listing(&["a"]);
    let plan = PanelLayout { width: 43, sliver: true, visible: true };
    assert_eq!(
        directory.update_with_view(DirectoryMessage::SetLayout(plan)),
        vec![Effect::SetVisible(true), Effect::SetWidth(43), Effect::ShowPage(Page::Sliver)]
    );
    // A reload cannot bounce the sliver back to the listing.
    assert_eq!(directory.set_loading(true), Page::Spinner);
    assert_eq!(directory.set_loading(false), Page::Sliver);
    let gone = PanelLayout { width: 9, sliver: false, visible: false };
    assert_eq!(
        directory.update_with_view(DirectoryMessage::SetLayout(gone)),
        vec![Effect::SetVisible(false)]
    );
    assert!(directory.sliver);
    assert_eq!(
        directory.update_with_view(DirectoryMessage::ResetLayout),
        vec![Effect::SetVisible(true), Effect::SetWidth(200), Effect::ShowPage(Page::Listing)]
    );
    assert_eq!(page(true, true), Page::Spinner);
    assert_eq!(sliver_label(Some(".config")), ".c");
    assert_eq!(sliver_label(None), "");
}

#[test]
fn a_right_click_selects_the_row_unless_it_is_selected() {
    let mut directory = listing(&["a", "b", "c"]);
    directory.selection_changed(vec![true, true, false]);
    assert_eq!(directory.context_click(1), vec![]);
    assert_eq!(directory.selected, vec![true, true, false]);
    assert_eq!(directory.context_click(2), vec![Effect::Select(2)]);
    assert_eq!(directory.selected, vec![false, false, true]);
    assert_eq!(directory.cursor, None);
}

#[test]
fn the_cursor_file_leads_a_selection_without_repeats() {
    let mut directory = listing(&["a", "b", "c", "d"]);
    directory.update_with_view(DirectoryMessage::SelectLast);
    directory.marks = uris(&["d", "b"]);
    assert_eq!(
        directory.selection_changed(vec![true, true, false, true]),
        files(&["d", "a", "b"], Some("d"))
    );
    assert_eq!(
        directory.selection_changed(vec![false; 4]),
        files(&["b", "d"], None)
    );
}

#[test]
fn trashing_reports_what_went() {
    let names: Vec<String> = vec!["a".to_owned(), "b".to_owned(), "c".to_owned()];
    assert_eq!(
        trash_report(&names, &vec![false, true, false]),
        Some("'b' moved to trash".to_owned())
    );
    assert_eq!(
        trash_report(&names, &vec![true, false, true]),
        Some("2 files moved to trash".to_owned())
    );
    assert_eq!(trash_report(&names, &vec![false, false, false]), None);
}
