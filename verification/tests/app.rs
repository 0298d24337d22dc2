use fm::clipboard::ClipboardOp;
use fm::component::app::{
    retitle, starting_directory, AppEffect, AppModel, AppMsg, Running, Transfer,
};
use fm::component::directory_list::{Directory, DirectoryMessage, FileSelection, Selection};
use fm::component::entry::{Entry, FilterChange};
use fm::config::{SortKey, State};
use fm::layout::solve;
use fm::ops::Progress;
use fm::transfer::summarize;

const AREA: i32 = 1448;

fn entry(dir: &str, name: &str) -> Entry {
    Entry {
        uri: format!("file://{dir}/{name}"),
        display_name: name.to_owned(),
        is_dir: false,
        is_hidden: false,
        content_type: None,
        mime_type: None,
        modified: None,
    }
}

/// A window on `/r` whose panels list the given directories, each with two rows.
fn window(dirs: &[&str]) -> AppModel {
    let mut app = AppModel::new(dirs[0].to_owned(), State::default());
    app.directories = dirs
        .iter()
        .map(|dir| {
            let mut panel = Directory::new((*dir).to_owned(), false);
            panel.items_changed(vec![entry(dir, "x"), entry(dir, "y")], vec![false, false]);
            panel
        })
        .collect();
    app
}

fn put_cursor(app: &mut AppModel, index: usize) {
    app.directories[index].update_with_view(DirectoryMessage::SelectFirst);
}

fn dirs(app: &AppModel) -> Vec<&str> {
    app.directories.iter().map(|panel| panel.dir()).collect()
}

/// What follows every message, for a window whose user is in the panel `here`.
fn settling(count: usize, here: usize, area: i32) -> Vec<AppEffect> {
    let mut effects: Vec<AppEffect> = (0..count)
        .map(|i| AppEffect::Tell(i, DirectoryMessage::SetCursorPanel(i == here)))
        .collect();
    match solve(area, count, here) {
        Some(plan) => {
            effects.push(AppEffect::SetGutter(plan.gutter));
            for (i, panel) in plan.panels.iter().enumerate() {
                effects.push(AppEffect::Tell(i, DirectoryMessage::SetLayout(*panel)));
            }
        }
        None => {
            effects.push(AppEffect::SetGutter(0));
            for i in 0..count {
                effects.push(AppEffect::Tell(i, DirectoryMessage::ResetLayout));
            }
            effects.push(AppEffect::ScrollToEnd);
        }
    }
    effects.push(AppEffect::Retitle(here));
    effects
}

/// Tells the window something and checks that it ends by settling.
fn tell(app: &mut AppModel, msg: AppMsg, area: i32, is_directory: impl Fn(&str) -> bool) -> Vec<AppEffect> {
    assert!(app.accepts(&msg));
    let mut effects = app.update_with_view(msg, area, is_directory);
    let tail = settling(app.directories.len(), app.here(), area);
    let at = effects.len() - tail.len();
    assert_eq!(effects.split_off(at), tail);
    effects
}

fn ask(app: &mut AppModel, msg: AppMsg) -> Vec<AppEffect> {
    tell(app, msg, AREA, |_| false)
}

fn selected(parent: &str, files: &[&str], cursor: Option<&str>) -> Selection {
    Selection::Files(FileSelection {
        parent: parent.to_owned(),
        files: files.iter().map(|file| (*file).to_owned()).collect(),
        cursor_file: cursor.map(str::to_owned),
    })
}

#[test]
fn a_window_starts_with_one_panel() {
    let mut state = State::default();
    state.sort_by_modified = true;
    state.show_hidden = true;
    let app = AppModel::new("/home".to_owned(), state);
    assert_eq!(dirs(&app), vec!["/home"]);
    assert_eq!(app.last_dir(), "/home");
    assert!(app.directories[0].select_first_on_load);
    assert_eq!(app.settings.sort_key, SortKey::Modified);
    assert!(app.settings.show_hidden);
    assert_eq!(app.cursor_panel(), None);
    assert_eq!(app.here(), 0);
    assert_eq!(starting_directory("/a/b.txt", false), "/a");
    assert_eq!(starting_directory("/a/b", true), "/a/b");
    assert_eq!(starting_directory("/", false), "/");
}

#[test]
fn the_deepest_cursor_decides_where_the_user_is() {
    let mut app = window(&["/r", "/r/x", "/r/x/y"]);
    assert_eq!((app.cursor_panel(), app.here()), (None, 2));
    put_cursor(&mut app, 0);
    assert_eq!((app.cursor_panel(), app.here()), (Some(0), 0));
    put_cursor(&mut app, 1);
    assert_eq!((app.cursor_panel(), app.here()), (Some(1), 1));
    app.directories[1].update_with_view(DirectoryMessage::UnselectAll);
    assert_eq!(app.cursor_panel(), Some(0));
}

#[test]
fn a_relayout_places_every_panel() {
    let mut app = window(&["/r", "/r/x"]);
    put_cursor(&mut app, 1);
    assert_eq!(ask(&mut app, AppMsg::Relayout), vec![]);
    assert!(!app.columns_overflow);
    assert_eq!(tell(&mut app, AppMsg::Relayout, 300, |_| false), vec![]);
    assert!(app.columns_overflow);
}

#[test]
fn selecting_a_directory_opens_it_in_the_next_panel() {
    let mut app = window(&["/r"]);
    let selection = selected("/r", &["file:///r/x"], Some("file:///r/x"));
    let msg = AppMsg::NewSelection(selection.clone(), Some("/r/x".to_owned()));
    assert_eq!(
        tell(&mut app, msg, AREA, |path| path == "/r/x"),
        vec![AppEffect::Push("/r/x".to_owned(), false), AppEffect::Preview(selection)]
    );
    assert_eq!(dirs(&app), vec!["/r", "/r/x"]);
    assert!(!app.directories[1].select_first_on_load);
}

#[test]
fn selecting_a_file_opens_no_panel() {
    let mut app = window(&["/r"]);
    let selection = selected("/r", &["file:///r/y"], None);
    let msg = AppMsg::NewSelection(selection.clone(), Some("/r/y".to_owned()));
    assert_eq!(ask(&mut app, msg), vec![AppEffect::Preview(selection)]);
    assert_eq!(dirs(&app), vec!["/r"]);
}

#[test]
fn selecting_further_left_closes_what_is_right_of_it() {
    let mut app = window(&["/r", "/r/x", "/r/x/y"]);
    let selection = selected("/r", &["file:///r/y"], Some("file:///r/y"));
    let msg = AppMsg::NewSelection(selection.clone(), Some("/r/y".to_owned()));
    assert_eq!(
        tell(&mut app, msg, AREA, |path| path == "/r/y"),
        vec![
            AppEffect::Pop,
            AppEffect::Pop,
            AppEffect::Push("/r/y".to_owned(), false),
            AppEffect::Preview(selection),
        ]
    );
    assert_eq!(dirs(&app), vec!["/r", "/r/y"]);
}

#[test]
fn a_listing_that_leads_there_already_is_kept() {
    let mut app = window(&["/r", "/r/x", "/r/x/y"]);
    app.directories[1].marks.push("file:///r/x/y".to_owned());
    let selection = selected("/r", &["file:///r/x"], Some("file:///r/x"));
    let msg = AppMsg::NewSelection(selection.clone(), Some("/r/x".to_owned()));
    assert_eq!(
        tell(&mut app, msg, AREA, |_| panic!("nothing to ask")),
        vec![AppEffect::Pop, AppEffect::Preview(selection)]
    );
    assert_eq!(dirs(&app), vec!["/r", "/r/x"]);
    assert_eq!(app.directories[1].marks.len(), 1);
}

#[test]
fn several_files_are_followed_to_their_directory() {
    let mut app = window(&["/r", "/r/x"]);
    let selection = selected("/r", &["file:///r/x", "file:///r/y"], None);
    if let Selection::Files(files) = &selection {
        assert_eq!(files.file_to_follow(), None);
    }
    let msg = AppMsg::NewSelection(selection.clone(), None);
    assert_eq!(ask(&mut app, msg), vec![AppEffect::Pop, AppEffect::Preview(selection)]);
    assert_eq!(dirs(&app), vec!["/r"]);
}

#[test]
fn the_cursor_file_is_followed_before_the_only_one() {
    let follow = |selection: Selection| match selection {
        Selection::Files(files) => files.file_to_follow().cloned(),
        Selection::Nothing => None,
    };
    assert_eq!(follow(selected("/r", &["a", "b"], Some("b"))), Some("b".to_owned()));
    assert_eq!(follow(selected("/r", &["a"], None)), Some("a".to_owned()));
}

#[test]
fn a_name_that_is_no_directory_is_passed_over_on_the_way() {
    let mut app = window(&["/r"]);
    let selection = selected("/r", &["u"], None);
    let msg = AppMsg::NewSelection(selection, Some("/r/a/b/c".to_owned()));
    let asked = std::cell::RefCell::new(Vec::new());
    tell(&mut app, msg, AREA, |path| {
        asked.borrow_mut().push(path.to_owned());
        path != "/r/a/b"
    });
    assert_eq!(*asked.borrow(), vec!["/r/a", "/r/a/b", "/r/a/c"]);
    assert_eq!(dirs(&app), vec!["/r", "/r/a", "/r/a/c"]);
}

#[test]
fn an_unreadable_selection_changes_nothing() {
    let mut app = window(&["/r", "/r/x"]);
    let msg = AppMsg::NewSelection(selected("/r", &["u"], None), None);
    assert!(app.accepts(&msg));
    assert_eq!(app.update_with_view(msg, AREA, |_| true), vec![]);
    assert_eq!(dirs(&app), vec!["/r", "/r/x"]);
}

#[test]
fn some_files_cannot_be_followed() {
    let app = window(&["/r", "/r/x"]);
    assert!(app.can_follow("/other/place"));
    assert!(!app.can_follow("relative"));
    assert!(!app.can_follow(""));
    assert!(!window(&["/r/../x"]).can_follow("/r/y"));
    // There is nothing above the root, whatever a name on the way leads to.
    assert!(app.can_follow("/r/../x"));
    assert!(!app.can_follow("/.."));
    assert!(!app.can_follow("/a/../../b"));
    // Relative paths lead to one another.
    assert!(window(&["r"]).can_follow("r/x"));
    assert!(window(&["r"]).can_follow("s"));
    assert!(!window(&["r"]).can_follow("/r/x"));
    assert!(!window(&[""]).can_follow("./x"));
    let msg = AppMsg::NewSelection(selected("/r", &["u"], None), Some("nowhere".to_owned()));
    assert!(!app.accepts(&msg));
}

#[test]
fn a_step_up_behind_a_name_leaves_the_panel_again() {
    let mut app = window(&["/r"]);
    let msg = |path: &str| {
        AppMsg::NewSelection(selected("/r", &["u"], None), Some(path.to_owned()))
    };
    assert!(app.accepts(&msg("/r/a/../b")));
    let effects = app.update_with_view(msg("/r/a/../b"), AREA, |_| true);
    assert_eq!(
        effects[..3],
        [
            AppEffect::Push("/r/a".to_owned(), false),
            AppEffect::Pop,
            AppEffect::Push("/r/b".to_owned(), false),
        ]
    );
    assert_eq!(dirs(&app), vec!["/r", "/r/b"]);
    // A name that leads nowhere is passed over, and the step up leaves the panel
    // before it.
    let mut app = window(&["/r", "/r/s"]);
    app.update_with_view(msg("/r/s/a/../b"), AREA, |path| !path.ends_with('a'));
    assert_eq!(dirs(&app), vec!["/r", "/r/b"]);
}

#[test]
fn relative_panels_follow_too() {
    let mut app = window(&["r", "r/x"]);
    let msg = AppMsg::NewSelection(selected("r", &["u"], None), Some("r/y".to_owned()));
    assert!(app.accepts(&msg));
    app.update_with_view(msg, AREA, |_| true);
    assert_eq!(dirs(&app), vec!["r", "r/y"]);
}

#[test]
fn a_transfer_runs_until_it_is_over() {
    let mut app = window(&["/r"]);
    assert!(!app.is_running(7));
    ask(&mut app, AppMsg::Transfer(Transfer::New { id: 7, description: "x".to_owned() }));
    assert!(app.is_running(7));
    assert!(!app.is_running(8));
    ask(&mut app, AppMsg::Transfer(Transfer::Done { id: 7 }));
    assert!(!app.is_running(7));
}

#[test]
fn no_selection_hides_the_preview() {
    let mut app = window(&["/r"]);
    assert_eq!(
        ask(&mut app, AppMsg::NewSelection(Selection::Nothing, None)),
        vec![AppEffect::HidePreview]
    );
}

#[test]
fn a_new_root_starts_over() {
    let mut app = window(&["/r", "/r/x"]);
    assert_eq!(
        ask(&mut app, AppMsg::NewRoot("/s".to_owned())),
        vec![
            AppEffect::ClearPanels,
            AppEffect::Push("/s".to_owned(), true),
            AppEffect::HidePreview,
        ]
    );
    assert_eq!(app.root, "/s");
    assert_eq!(dirs(&app), vec!["/s"]);
}

#[test]
fn going_up_leaves_the_panel_and_at_the_root_the_directory() {
    let mut app = window(&["/r", "/r/x"]);
    put_cursor(&mut app, 1);
    assert_eq!(
        ask(&mut app, AppMsg::NavParent),
        vec![AppEffect::Tell(1, DirectoryMessage::UnselectAll)]
    );
    app.directories[1].update_with_view(DirectoryMessage::UnselectAll);
    assert_eq!(
        ask(&mut app, AppMsg::NavParent),
        vec![AppEffect::Say(AppMsg::NewRoot("/".to_owned()))]
    );
    let mut top = window(&["/"]);
    assert_eq!(ask(&mut top, AppMsg::NavParent), vec![]);
}

#[test]
fn going_in_enters_the_next_panel_or_opens_the_file() {
    let mut app = window(&["/r", "/r/x"]);
    assert_eq!(ask(&mut app, AppMsg::NavInto), vec![]);
    put_cursor(&mut app, 0);
    assert_eq!(
        ask(&mut app, AppMsg::NavInto),
        vec![AppEffect::Tell(1, DirectoryMessage::SelectFirst)]
    );
    put_cursor(&mut app, 1);
    assert_eq!(
        ask(&mut app, AppMsg::NavInto),
        vec![AppEffect::Tell(1, DirectoryMessage::OpenSelected)]
    );
}

#[test]
fn moving_without_a_cursor_enters_the_deepest_panel() {
    let mut app = window(&["/r", "/r/x"]);
    assert_eq!(
        ask(&mut app, AppMsg::NavMove(0)),
        vec![AppEffect::Tell(1, DirectoryMessage::SelectFirst)]
    );
    assert_eq!(
        ask(&mut app, AppMsg::NavMove(-1)),
        vec![AppEffect::Tell(1, DirectoryMessage::SelectLast)]
    );
    put_cursor(&mut app, 0);
    assert_eq!(
        ask(&mut app, AppMsg::NavMove(-1)),
        vec![AppEffect::Tell(0, DirectoryMessage::MoveCursor(-1))]
    );
    assert_eq!(
        ask(&mut app, AppMsg::NavFirst),
        vec![AppEffect::Tell(0, DirectoryMessage::SelectFirst)]
    );
    assert_eq!(
        ask(&mut app, AppMsg::NavLast),
        vec![AppEffect::Tell(0, DirectoryMessage::SelectLast)]
    );
}

#[test]
fn what_needs_a_cursor_waits_for_one() {
    let mut app = window(&["/r", "/r/x"]);
    for msg in [
        AppMsg::RenameSelected,
        AppMsg::ToggleMark,
        AppMsg::TrashSelected,
        AppMsg::DeletePermanentSelected,
    ] {
        assert_eq!(ask(&mut app, msg), vec![]);
    }
    put_cursor(&mut app, 0);
    for (msg, told) in [
        (AppMsg::RenameSelected, DirectoryMessage::RenameSelected),
        (AppMsg::ToggleMark, DirectoryMessage::ToggleMark),
        (AppMsg::TrashSelected, DirectoryMessage::TrashSelection),
        (AppMsg::DeletePermanentSelected, DirectoryMessage::DeleteSelectionPermanent),
    ] {
        assert_eq!(ask(&mut app, msg), vec![AppEffect::Tell(0, told)]);
    }
}

#[test]
fn the_clipboard_works_without_a_cursor() {
    let mut app = window(&["/r", "/r/x"]);
    assert_eq!(
        ask(&mut app, AppMsg::ClipboardCopy(ClipboardOp::Cut)),
        vec![AppEffect::Tell(1, DirectoryMessage::ClipboardCopy(ClipboardOp::Cut))]
    );
    assert_eq!(
        ask(&mut app, AppMsg::ClipboardPaste),
        vec![AppEffect::Tell(1, DirectoryMessage::ClipboardPaste)]
    );
    app.directories.clear();
    assert!(!app.accepts(&AppMsg::ClipboardPaste));
    assert!(!app.accepts(&AppMsg::NavFirst));
}

#[test]
fn a_search_belongs_to_the_panel_it_was_opened_in() {
    let mut app = window(&["/r", "/r/x"]);
    put_cursor(&mut app, 0);
    assert_eq!(ask(&mut app, AppMsg::SearchNext), vec![]);
    assert_eq!(ask(&mut app, AppMsg::SearchOpen), vec![AppEffect::OpenSearchBar]);
    assert_eq!(app.search_panel, Some(0));
    put_cursor(&mut app, 1);
    assert_eq!(
        ask(&mut app, AppMsg::SearchChanged("x".to_owned())),
        vec![AppEffect::Tell(0, DirectoryMessage::SetSearch("x".to_owned()))]
    );
    assert_eq!(ask(&mut app, AppMsg::SearchConfirm), vec![AppEffect::Unfocus]);
    assert_eq!(
        ask(&mut app, AppMsg::SearchNext),
        vec![AppEffect::Tell(0, DirectoryMessage::SearchNext)]
    );
    assert_eq!(
        ask(&mut app, AppMsg::SearchPrev),
        vec![AppEffect::Tell(0, DirectoryMessage::SearchPrev)]
    );
    assert_eq!(
        ask(&mut app, AppMsg::SearchCancel),
        vec![
            AppEffect::Tell(0, DirectoryMessage::ClearSearch),
            AppEffect::CloseSearchBar,
            AppEffect::Unfocus,
        ]
    );
    assert_eq!(app.search_panel, None);
    // A panel that is gone is not told anything.
    app.search_panel = Some(7);
    assert_eq!(ask(&mut app, AppMsg::SearchPrev), vec![]);
}

#[test]
fn sorting_by_the_same_key_turns_the_order() {
    let mut app = window(&["/r"]);
    let mut toast = |app: &mut AppModel, key| match ask(app, AppMsg::SetSort(key)).as_slice() {
        [AppEffect::RefreshSorters, AppEffect::Toast(message, _)] => message.clone(),
        other => panic!("{other:?}"),
    };
    assert_eq!(toast(&mut app, SortKey::Name), "Sort: name (Z\u{2192}A)");
    assert_eq!(toast(&mut app, SortKey::Name), "Sort: name (A\u{2192}Z)");
    assert_eq!(toast(&mut app, SortKey::Modified), "Sort: modified (newest first)");
    assert_eq!(toast(&mut app, SortKey::Modified), "Sort: modified (oldest first)");
    assert_eq!(toast(&mut app, SortKey::Type), "Sort: type (dirs first)");
    assert_eq!(toast(&mut app, SortKey::Type), "Sort: type (reversed)");
    assert_eq!(app.settings.sort_key, SortKey::Type);
    assert!(app.settings.sort_reversed);
}

#[test]
fn an_older_timer_never_hides_a_newer_toast() {
    let mut app = window(&["/r"]);
    let epoch = |effects: Vec<AppEffect>| match effects.as_slice() {
        [AppEffect::Toast(_, epoch)] => *epoch,
        other => panic!("{other:?}"),
    };
    let first = epoch(ask(&mut app, AppMsg::Toast("one".to_owned())));
    assert!(app.toast_expired(first));
    let second = epoch(ask(&mut app, AppMsg::Toast("two".to_owned())));
    assert!(!app.toast_expired(first));
    assert!(app.toast_expired(second));
    app.toast_epoch = u64::MAX;
    assert!(!app.accepts(&AppMsg::Toast("three".to_owned())));
}

#[test]
fn transfers_come_and_go() {
    let mut app = window(&["/r"]);
    let transfer = AppMsg::Transfer;
    assert_eq!(
        ask(&mut app, transfer(Transfer::New { id: 3, description: "Copying 'a'".to_owned() })),
        vec![
            AppEffect::AddTransfer(3, "Copying 'a'".to_owned()),
            AppEffect::ShowTransferButton(true),
        ]
    );
    ask(&mut app, transfer(Transfer::New { id: 4, description: "b".to_owned() }));
    let progress = Progress { id: 4, current: 1, total: 2 };
    assert_eq!(
        ask(&mut app, transfer(Transfer::Progress(progress))),
        vec![AppEffect::UpdateTransfer(1, progress), AppEffect::ShowTransferButton(true)]
    );
    assert_eq!(
        app.transfers[1],
        Running { id: 4, description: "b".to_owned(), current: 1, total: 2 }
    );
    assert_eq!(summarize(&app.active_transfers()).unwrap().0, "2 transfers");
    assert_eq!(
        ask(&mut app, transfer(Transfer::Done { id: 3 })),
        vec![AppEffect::RemoveTransfer(0), AppEffect::ShowTransferButton(true)]
    );
    // News of a transfer that is gone change nothing.
    let late = Progress { id: 3, current: 1, total: 1 };
    assert_eq!(
        ask(&mut app, transfer(Transfer::Progress(late))),
        vec![AppEffect::ShowTransferButton(true)]
    );
    assert_eq!(
        ask(&mut app, transfer(Transfer::Done { id: 4 })),
        vec![AppEffect::RemoveTransfer(0), AppEffect::ShowTransferButton(false)]
    );
    assert_eq!(
        ask(&mut app, transfer(Transfer::Done { id: 4 })),
        vec![AppEffect::ShowTransferButton(false)]
    );
    assert_eq!(summarize(&app.active_transfers()), None);
}

#[test]
fn dialogs_and_errors_are_shown() {
    let mut app = window(&["/r"]);
    assert_eq!(
        ask(&mut app, AppMsg::Error("no".to_owned())),
        vec![AppEffect::Alert("no".to_owned())]
    );
    assert_eq!(ask(&mut app, AppMsg::About), vec![AppEffect::ShowAbout]);
    assert_eq!(ask(&mut app, AppMsg::Mount), vec![AppEffect::ShowMount]);
    assert_eq!(ask(&mut app, AppMsg::ToggleAudioPreview), vec![AppEffect::ToggleAudio]);
}

#[test]
fn hidden_files_are_toggled_with_a_toast() {
    let mut app = window(&["/r"]);
    assert_eq!(
        app.toggle_hidden(),
        vec![
            AppEffect::RefreshHiddenFilters(FilterChange::LessStrict),
            AppEffect::Say(AppMsg::Toast("Showing hidden files".to_owned())),
        ]
    );
    assert!(app.settings.show_hidden);
    assert_eq!(
        app.toggle_hidden(),
        vec![
            AppEffect::RefreshHiddenFilters(FilterChange::MoreStrict),
            AppEffect::Say(AppMsg::Toast("Hiding hidden files".to_owned())),
        ]
    );
    let state = app.closing(1000, 500, false);
    assert_eq!((state.width, state.height, state.show_hidden), (1000, 500, false));
}

#[test]
fn the_title_names_where_the_user_is() {
    assert_eq!(
        retitle(Some("/home/milo/projects/fm"), "file:///x", Some("/home/milo"), |title| title.len() <= 6),
        "<span alpha=\"55%\">~/p/</span><b>fm</b>"
    );
    assert_eq!(
        retitle(None, "smb://host/share", Some("/home/milo"), |_| false),
        "<span alpha=\"55%\">smb://host/</span><b>share</b>"
    );
}
