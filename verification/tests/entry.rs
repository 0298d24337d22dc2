use fm::component::entry::{
    check_new_name, compare_entries, compare_named, compare_texts, is_audio, is_listed, is_trashed,
    populate_directory_menu_model, populate_entry_menu_model, refresh_hidden_filters, Entry,
    FilterChange, MenuAction, MenuItem, Order,
};
use fm::config::{Settings, SortKey};

fn entry(name: &str) -> Entry {
    Entry {
        uri: format!("file:///{name}"),
        display_name: name.to_owned(),
        is_dir: false,
        is_hidden: false,
        content_type: None,
        mime_type: None,
        modified: None,
    }
}

fn settings(sort_key: SortKey, sort_reversed: bool) -> Settings {
    Settings { show_hidden: false, sort_key, sort_reversed }
}

fn flip(order: Order) -> Order {
    match order {
        Order::Less => Order::Greater,
        Order::Equal => Order::Equal,
        Order::Greater => Order::Less,
    }
}

#[test]
fn texts_are_ordered_like_strings() {
    let texts = ["", "a", "ab", "b", "B", "\u{e9}", "\u{1f600}", "\u{ffff}"];
    for a in texts {
        for b in texts {
            let expected = match a.cmp(b) {
                std::cmp::Ordering::Less => Order::Less,
                std::cmp::Ordering::Equal => Order::Equal,
                std::cmp::Ordering::Greater => Order::Greater,
            };
            assert_eq!(compare_texts(a, b), expected);
        }
    }
}

#[test]
fn names_are_ordered_without_regard_to_case() {
    let by_name = settings(SortKey::Name, false);
    assert_eq!(compare_entries(&entry("B"), &entry("a"), &by_name), Order::Greater);
    assert_eq!(compare_entries(&entry("A"), &entry("a"), &by_name), Order::Equal);
    // Beyond ASCII too.
    assert_eq!(compare_entries(&entry("\u{c9}A"), &entry("\u{e9}a"), &by_name), Order::Equal);
    // Folding is not done where the folded names are given.
    assert_eq!(
        compare_named(&entry("x"), "B", &entry("y"), "a", &by_name),
        Order::Less
    );
}

#[test]
fn the_modification_time_decides_when_asked() {
    let by_time = settings(SortKey::Modified, false);
    let mut old = entry("z");
    old.modified = Some(-5);
    let mut new = entry("a");
    new.modified = Some(7);
    let unknown = entry("m");
    assert_eq!(compare_entries(&old, &new, &by_time), Order::Less);
    assert_eq!(compare_entries(&old, &unknown, &by_time), Order::Less);
    assert_eq!(compare_entries(&new, &unknown, &by_time), Order::Greater);
    assert_eq!(
        compare_entries(&old, &new, &settings(SortKey::Modified, true)),
        Order::Greater
    );
}

#[test]
fn by_type_directories_come_first_and_names_break_ties() {
    let by_type = settings(SortKey::Type, false);
    let mut dir = entry("zzz");
    dir.is_dir = true;
    let mut image = entry("b");
    image.content_type = Some("image/png".to_owned());
    let mut text = entry("a");
    text.content_type = Some("text/plain".to_owned());
    let mut other_text = entry("C");
    other_text.content_type = Some("text/plain".to_owned());
    assert_eq!(compare_entries(&dir, &image, &by_type), Order::Less);
    assert_eq!(compare_entries(&image, &text, &by_type), Order::Less);
    assert_eq!(compare_entries(&text, &other_text, &by_type), Order::Less);
    assert_eq!(compare_entries(&entry("q"), &image, &by_type), Order::Less);
    assert_eq!(
        compare_entries(&dir, &image, &settings(SortKey::Type, true)),
        Order::Greater
    );
}

#[test]
fn the_order_is_one_that_can_be_sorted_by() {
    let mut entries = vec![entry("a"), entry("B"), entry("b"), entry("")];
    entries[1].is_dir = true;
    entries[2].content_type = Some("x".to_owned());
    entries[3].modified = Some(3);
    for key in [SortKey::Name, SortKey::Modified, SortKey::Type] {
        for reversed in [false, true] {
            let settings = settings(key, reversed);
            for a in &entries {
                for b in &entries {
                    let ab = compare_entries(a, b, &settings);
                    assert_eq!(compare_entries(b, a, &settings), flip(ab));
                    for c in &entries {
                        let bc = compare_entries(b, c, &settings);
                        if ab != Order::Greater && bc != Order::Greater {
                            assert_ne!(compare_entries(a, c, &settings), Order::Greater);
                        }
                    }
                }
            }
        }
    }
}

#[test]
fn hidden_entries_are_listed_only_when_shown() {
    let mut hidden = entry(".x");
    hidden.is_hidden = true;
    let mut settings = settings(SortKey::Name, false);
    assert!(!is_listed(&settings, &hidden));
    assert!(is_listed(&settings, &entry("x")));
    assert_eq!(refresh_hidden_filters(&settings), FilterChange::MoreStrict);
    settings.show_hidden = true;
    assert!(is_listed(&settings, &hidden));
    assert_eq!(refresh_hidden_filters(&settings), FilterChange::LessStrict);
}

#[test]
fn a_sound_is_known_by_its_mime_type() {
    let mut sound = entry("x");
    assert!(!is_audio(&sound));
    sound.mime_type = Some("audio/mpeg".to_owned());
    assert!(is_audio(&sound));
    sound.mime_type = Some("audio".to_owned());
    assert!(!is_audio(&sound));
    sound.mime_type = Some("video/audio/".to_owned());
    assert!(!is_audio(&sound));
}

#[test]
fn what_is_in_the_trash_can_be_restored() {
    assert!(is_trashed("trash:///x"));
    assert!(is_trashed("TRASH:///x"));
    assert!(!is_trashed("file:///trash:"));
    assert!(!is_trashed("trashy:///x"));

    let item = |label: &str, action, target: Option<&str>| MenuItem {
        label: label.to_owned(),
        action,
        target: target.map(str::to_owned),
    };
    let (open, modify) = populate_entry_menu_model(&entry("a"), Some("Editor"));
    assert_eq!(
        open,
        vec![
            item("Open with Editor", MenuAction::OpenDefault, Some("file:///a")),
            item("Open with...", MenuAction::OpenChooser, Some("file:///a")),
        ]
    );
    assert_eq!(
        modify,
        vec![
            item("Rename...", MenuAction::Rename, Some("file:///a")),
            item("Move to Trash", MenuAction::TrashSelection, None),
        ]
    );

    let mut trashed = entry("a");
    trashed.uri = "trash:///a".to_owned();
    let (open, modify) = populate_entry_menu_model(&trashed, None);
    assert_eq!(
        open,
        vec![item("Open with...", MenuAction::OpenChooser, Some("trash:///a"))]
    );
    assert_eq!(
        modify[1],
        item("Restore from Trash", MenuAction::RestoreSelectionFromTrash, None)
    );
    assert_eq!(
        populate_directory_menu_model(),
        vec![item("New Folder...", MenuAction::NewFolder, None)]
    );
}

#[test]
fn a_file_needs_a_name() {
    assert_eq!(check_new_name("x"), Ok(()));
    assert_eq!(check_new_name(""), Err("File name cannot be empty.".to_owned()));
}
