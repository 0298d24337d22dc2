use fm::config::{
    set_show_hidden, set_sort_by_modified, set_sort_key, set_sort_reversed, show_hidden,
    sort_by_modified, sort_key, sort_reversed, Settings, SortKey, State,
};

#[test]
fn the_first_start_has_defaults() {
    let state = State::default();
    assert_eq!(
        state,
        State {
            width: 900,
            height: 600,
            is_maximized: false,
            show_hidden: false,
            sort_by_modified: false,
            sort_key: None,
            sort_reversed: false,
        }
    );
    let settings = state.settings();
    assert!(!show_hidden(&settings));
    assert!(!sort_by_modified(&settings));
    assert!(!sort_reversed(&settings));
    assert_eq!(sort_key(&settings), SortKey::Name);
}

#[test]
fn each_setting_changes_alone() {
    let mut settings = State::default().settings();
    set_show_hidden(&mut settings, true);
    assert!(show_hidden(&settings) && !sort_by_modified(&settings) && !sort_reversed(&settings));
    set_sort_by_modified(&mut settings, true);
    assert!(show_hidden(&settings) && sort_by_modified(&settings) && !sort_reversed(&settings));
    set_sort_reversed(&mut settings, true);
    assert!(show_hidden(&settings) && sort_by_modified(&settings) && sort_reversed(&settings));
    set_sort_key(&mut settings, SortKey::Type);
    assert!(!sort_by_modified(&settings));
    set_sort_by_modified(&mut settings, false);
    assert_eq!(sort_key(&settings), SortKey::Name);
    set_show_hidden(&mut settings, false);
    assert!(!show_hidden(&settings));
}

#[test]
fn settings_survive_a_restart() {
    for sort_key in [SortKey::Name, SortKey::Modified, SortKey::Type] {
        for flag in [false, true] {
            let settings = Settings { show_hidden: flag, sort_key, sort_reversed: !flag };
            let state = State::closing(&settings, 1200, 700, true);
            assert_eq!((state.width, state.height, state.is_maximized), (1200, 700, true));
            assert_eq!(state.sort_key, Some(sort_key));
            assert_eq!(state.sort_by_modified, sort_key == SortKey::Modified);
            assert_eq!(state.settings(), settings);
        }
    }
}

#[test]
fn a_state_without_a_key_sorts_as_its_flag_says() {
    let mut state = State::default();
    assert_eq!(state.settings().sort_key, SortKey::Name);
    state.sort_by_modified = true;
    assert_eq!(state.settings().sort_key, SortKey::Modified);
    state.sort_key = Some(SortKey::Type);
    assert_eq!(state.settings().sort_key, SortKey::Type);
}
