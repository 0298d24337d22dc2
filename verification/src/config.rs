//! What the user can change while the program runs, and what of it is kept for
//! the next time.

use vstd::prelude::*;

verus! {

/// What entries are sorted by.
#[derive(Debug, Clone, Copy, PartialEq, Eq, Structural)]
pub enum SortKey {
    Name,
    Modified,
    Type,
}

/// The settings that every directory panel and the window agree on.
#[derive(Debug, Clone, Copy, PartialEq, Eq, Structural)]
pub struct Settings {
    /// Whether hidden files are currently shown.
    pub show_hidden: bool,

    /// What entries are sorted by.
    pub sort_key: SortKey,

    /// Whether the current sort order is reversed.
    pub sort_reversed: bool,
}

/// Returns whether hidden files are currently shown.
pub fn show_hidden(settings: &Settings) -> (show: bool)
    ensures
        show == settings.show_hidden,
{
    settings.show_hidden
}

/// Sets whether hidden files are shown.
pub fn set_show_hidden(settings: &mut Settings, show: bool)
    ensures
        *final(settings) == (Settings { show_hidden: show, ..*old(settings) }),
{
    settings.show_hidden = show;
}

/// Returns what entries are sorted by.
pub fn sort_key(settings: &Settings) -> (key: SortKey)
    ensures
        key == settings.sort_key,
{
    settings.sort_key
}

/// Sets what entries are sorted by.
pub fn set_sort_key(settings: &mut Settings, key: SortKey)
    ensures
        *final(settings) == (Settings { sort_key: key, ..*old(settings) }),
{
    settings.sort_key = key;
}

/// Returns whether entries are sorted by modification time.
pub fn sort_by_modified(settings: &Settings) -> (by_modified: bool)
    ensures
        by_modified == (settings.sort_key == SortKey::Modified),
{
    settings.sort_key == SortKey::Modified
}

/// The key that stands for sorting by modification time, or for not doing so.
pub open spec fn key_for(by_modified: bool) -> SortKey {
    if by_modified {
        SortKey::Modified
    } else {
        SortKey::Name
    }
}

/// Sets whether entries are sorted by modification time; if not, they are sorted
/// by name.
pub fn set_sort_by_modified(settings: &mut Settings, by_modified: bool)
    ensures
        *final(settings) == (Settings { sort_key: key_for(by_modified), ..*old(settings) }),
{
    settings.sort_key =
    if by_modified {
        SortKey::Modified
    } else {
        SortKey::Name
    };
}

/// Returns whether the sort order is reversed.
pub fn sort_reversed(settings: &Settings) -> (reversed: bool)
    ensures
        reversed == settings.sort_reversed,
{
    settings.sort_reversed
}

/// Sets whether the sort order is reversed.
pub fn set_sort_reversed(settings: &mut Settings, reversed: bool)
    ensures
        *final(settings) == (Settings { sort_reversed: reversed, ..*old(settings) }),
{
    settings.sort_reversed = reversed;
}

/// Application state that is not intended to be directly configurable by the
/// user. It is read when the program starts and written when its window closes,
/// and not updated in between.
#[derive(Debug, Clone, Copy, PartialEq, Eq, Structural)]
pub struct State {
    /// Width of the main window at startup.
    pub width: i32,

    /// Height of the main window at startup.
    pub height: i32,

    /// Whether the window should be maximized at startup.
    pub is_maximized: bool,

    /// Whether hidden files should be shown at startup.
    pub show_hidden: bool,

    /// Whether entries should be sorted by modification time at startup. It decides
    /// only where no key was kept.
    pub sort_by_modified: bool,

    /// What entries should be sorted by at startup. A state that was kept when there
    /// was no more to choose than `sort_by_modified` has none.
    pub sort_key: Option<SortKey>,

    /// Whether the sort order should be reversed at startup.
    pub sort_reversed: bool,
}

impl Default for State {
    fn default() -> (state: State)
        ensures
            state == (State {
                width: 900,
                height: 600,
                is_maximized: false,
                show_hidden: false,
                sort_by_modified: false,
                sort_key: None,
                sort_reversed: false,
            }),
    {
        State {
            width: 900,
            height: 600,
            is_maximized: false,
            show_hidden: false,
            sort_by_modified: false,
            sort_key: None,
            sort_reversed: false,
        }
    }
}

/// The settings that a state starts the program with.
pub open spec fn restored(state: State) -> Settings {
    Settings {
        show_hidden: state.show_hidden,
        sort_key: match state.sort_key {
            Some(key) => key,
            None => key_for(state.sort_by_modified),
        },
        sort_reversed: state.sort_reversed,
    }
}

/// What is kept of the settings and of the window.
pub open spec fn kept(settings: Settings, width: i32, height: i32, is_maximized: bool) -> State {
    State {
        width,
        height,
        is_maximized,
        show_hidden: settings.show_hidden,
        sort_by_modified: settings.sort_key == SortKey::Modified,
        sort_key: Some(settings.sort_key),
        sort_reversed: settings.sort_reversed,
    }
}

impl State {
    /// The settings to start with.
    pub fn settings(&self) -> (settings: Settings)
        ensures
            settings == restored(*self),
    {
        let mut settings: Settings = Settings {
            show_hidden: false,
            sort_key: SortKey::Name,
            sort_reversed: false,
        };
        set_show_hidden(&mut settings, self.show_hidden);
        match self.sort_key {
            Some(key) => set_sort_key(&mut settings, key),
            None => set_sort_by_modified(&mut settings, self.sort_by_modified),
        }
        set_sort_reversed(&mut settings, self.sort_reversed);
        settings
    }

    /// The state to keep when a window of this size closes.
    pub fn closing(settings: &Settings, width: i32, height: i32, is_maximized: bool) -> (state:
        State)
        ensures
            state == kept(*settings, width, height, is_maximized),
    {
        State {
            width,
            height,
            is_maximized,
            show_hidden: show_hidden(settings),
            sort_by_modified: sort_by_modified(settings),
            sort_key: Some(sort_key(settings)),
            sort_reversed: sort_reversed(settings),
        }
    }
}

/// What is kept when the window closes starts the next run with the same
/// settings.
pub proof fn law_settings_survive_a_restart(
    settings: Settings,
    width: i32,
    height: i32,
    is_maximized: bool,
)
    ensures
        restored(kept(settings, width, height, is_maximized)) == settings,
{
}

/// What is kept is the size of the window and every setting, each in its own place.
/// What a state starts the program with is what it says, and where it holds no key
/// entries are sorted by time or by name, as its flag says.
pub proof fn law_each_setting_is_kept_in_its_own_place(
    settings: Settings,
    width: i32,
    height: i32,
    is_maximized: bool,
    state: State,
)
    ensures
        kept(settings, width, height, is_maximized).width == width,
        kept(settings, width, height, is_maximized).height == height,
        kept(settings, width, height, is_maximized).is_maximized == is_maximized,
        kept(settings, width, height, is_maximized).show_hidden == settings.show_hidden,
        kept(settings, width, height, is_maximized).sort_key == Some(settings.sort_key),
        kept(settings, width, height, is_maximized).sort_by_modified <==> settings.sort_key
            == SortKey::Modified,
        kept(settings, width, height, is_maximized).sort_reversed == settings.sort_reversed,
        restored(state).show_hidden == state.show_hidden,
        restored(state).sort_reversed == state.sort_reversed,
        state.sort_key is Some ==> restored(state).sort_key == state.sort_key->0,
        state.sort_key is None && state.sort_by_modified ==> restored(state).sort_key
            == SortKey::Modified,
        state.sort_key is None && !state.sort_by_modified ==> restored(state).sort_key
            == SortKey::Name,
{
}

/// A setting that was set is read back as it was set.
pub proof fn law_what_is_set_is_read_back(
    settings: &mut Settings,
    show: bool,
    shows: bool,
    keyed: &mut Settings,
    key: SortKey,
    is_key: SortKey,
    turned: &mut Settings,
    reversed: bool,
    is_reversed: bool,
)
    requires
        call_ensures(set_show_hidden, (settings, show), ()),
        call_ensures(show_hidden, (&*final(settings),), shows),
        call_ensures(set_sort_key, (keyed, key), ()),
        call_ensures(sort_key, (&*final(keyed),), is_key),
        call_ensures(set_sort_reversed, (turned, reversed), ()),
        call_ensures(sort_reversed, (&*final(turned),), is_reversed),
    ensures
        shows == show,
        is_key == key,
        is_reversed == reversed,
        final(settings).sort_key == old(settings).sort_key,
        final(settings).sort_reversed == old(settings).sort_reversed,
        final(keyed).show_hidden == old(keyed).show_hidden,
        final(keyed).sort_reversed == old(keyed).sort_reversed,
        final(turned).show_hidden == old(turned).show_hidden,
        final(turned).sort_key == old(turned).sort_key,
{
}

/// Entries are sorted by modification time exactly if they were last told to be, and by
/// name if they were told not to be.
pub proof fn law_sorting_by_time_is_one_of_the_keys(
    settings: &mut Settings,
    by_modified: bool,
    is_by_modified: bool,
)
    requires
        call_ensures(set_sort_by_modified, (settings, by_modified), ()),
        call_ensures(sort_by_modified, (&*final(settings),), is_by_modified),
    ensures
        is_by_modified == by_modified,
        by_modified ==> final(settings).sort_key == SortKey::Modified,
        !by_modified ==> final(settings).sort_key == SortKey::Name,
        final(settings).show_hidden == old(settings).show_hidden,
        final(settings).sort_reversed == old(settings).sort_reversed,
{
}

/// Without a state that was kept the window opens at 900 by 600 pixels, not maximized,
/// hides hidden files and sorts by name.
pub proof fn law_the_first_start_is_plain(state: State, settings: Settings)
    requires
        call_ensures(State::default, (), state),
        call_ensures(State::settings, (&state,), settings),
    ensures
        state.width == 900,
        state.height == 600,
        !state.is_maximized,
        !settings.show_hidden,
        settings.sort_key == SortKey::Name,
        !settings.sort_reversed,
{
}

} // verus!
