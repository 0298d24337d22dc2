//! The entries of a directory: how they are ordered, which of them are shown and
//! what can be done with one.

use super::search;
use super::search::fold;
use crate::config::{Settings, SortKey};
use crate::text::{begins_with, chars_of};
use vstd::prelude::*;

verus! {

/// One entry of a directory.
#[derive(Debug, Clone, PartialEq, Eq)]
pub struct Entry<Text = String> {
    /// Where the entry is.
    pub uri: Text,

    /// The name it is shown by.
    pub display_name: Text,

    /// Whether it is a directory.
    pub is_dir: bool,

    /// Whether it is hidden unless hidden files are shown.
    pub is_hidden: bool,

    /// The type of its contents, where it is known.
    pub content_type: Option<Text>,

    /// The MIME type that stands for the type of its contents, where there is one.
    pub mime_type: Option<Text>,

    /// When it was last modified, in seconds since the epoch, where it is known.
    pub modified: Option<i64>,
}

/// The text of a string that may be missing.
pub open spec fn text_if_any(text: Option<String>) -> Option<Seq<char>> {
    match text {
        Some(text) => Some(text@),
        None => None,
    }
}

impl View for Entry {
    type V = Entry<Seq<char>>;

    open spec fn view(&self) -> Entry<Seq<char>> {
        Entry {
            uri: self.uri@,
            display_name: self.display_name@,
            is_dir: self.is_dir,
            is_hidden: self.is_hidden,
            content_type: text_if_any(self.content_type),
            mime_type: text_if_any(self.mime_type),
            modified: self.modified,
        }
    }
}

/// How one thing stands to another in a sorted list.
#[derive(Debug, Clone, Copy, PartialEq, Eq, Structural)]
pub enum Order {
    Less,
    Equal,
    Greater,
}

/// The order seen from the other side.
pub open spec fn flipped(order: Order) -> Order {
    match order {
        Order::Less => Order::Greater,
        Order::Equal => Order::Equal,
        Order::Greater => Order::Less,
    }
}

/// The first order, or the second where the first does not decide.
pub open spec fn first_of(first: Order, second: Order) -> Order {
    if first == Order::Equal {
        second
    } else {
        first
    }
}

/// How two numbers stand to each other.
pub open spec fn number_order(a: int, b: int) -> Order {
    if a < b {
        Order::Less
    } else if a == b {
        Order::Equal
    } else {
        Order::Greater
    }
}

/// How two texts stand to each other: by their first different character, or
/// else by their length.
pub open spec fn text_order(a: Seq<char>, b: Seq<char>) -> Order
    decreases a.len(),
{
    if a.len() == 0 || b.len() == 0 {
        number_order(a.len() as int, b.len() as int)
    } else {
        first_of(
            number_order(a[0] as int, b[0] as int),
            text_order(a.drop_first(), b.drop_first()),
        )
    }
}

/// The order seen from the other side.
fn flip(order: Order) -> (out: Order)
    ensures
        out == flipped(order),
{
    match order {
        Order::Less => Order::Greater,
        Order::Equal => Order::Equal,
        Order::Greater => Order::Less,
    }
}

/// How two texts stand to each other.
pub fn compare_texts(a: &str, b: &str) -> (order: Order)
    ensures
        order == text_order(a@, b@),
{
    let left: Vec<char> = chars_of(a);
    let right: Vec<char> = chars_of(b);
    let mut i: usize = 0;
    assert(left@.skip(0) =~= left@);
    assert(right@.skip(0) =~= right@);
    while i < left.len() && i < right.len()
        invariant
            i <= left@.len(),
            i <= right@.len(),
            left@ == a@,
            right@ == b@,
            text_order(left@.skip(i as int), right@.skip(i as int)) == text_order(a@, b@),
        decreases left.len() - i,
    {
        let x: char = left[i];
        let y: char = right[i];
        proof {
            assert(left@.skip(i as int).drop_first() =~= left@.skip(i + 1));
            assert(right@.skip(i as int).drop_first() =~= right@.skip(i + 1));
            assert(left@.skip(i as int)[0] == x);
            assert(right@.skip(i as int)[0] == y);
        }
        if x < y {
            return Order::Less;
        }
        if x > y {
            return Order::Greater;
        }
        i = i + 1;
    }
    if left.len() < right.len() {
        Order::Less
    } else if left.len() == right.len() {
        Order::Equal
    } else {
        Order::Greater
    }
}

/// The lower case of a text, as Unicode defines it.
pub uninterp spec fn lowercase(text: Seq<char>) -> Seq<char>;

/// `str::to_lowercase` gives the lower case of a text. The only thing claimed of
/// the result is that it depends on nothing but the text.
#[verifier::external_body]
fn to_lowercase(text: &str) -> (out: String)
    ensures
        out@ == lowercase(text@),
{
    text.to_lowercase()
}

/// Where an entry stands among directories and other files: directories first.
pub open spec fn file_rank(entry: Entry<Seq<char>>) -> int {
    if entry.is_dir {
        0
    } else {
        1
    }
}

/// The content type of an entry, or the empty text.
pub open spec fn content_type_of(entry: Entry<Seq<char>>) -> Seq<char> {
    match entry.content_type {
        Some(content_type) => content_type,
        None => Seq::empty(),
    }
}

/// When an entry was modified, or the epoch.
pub open spec fn modified_at(entry: Entry<Seq<char>>) -> int {
    match entry.modified {
        Some(modified) => modified as int,
        None => 0,
    }
}

/// How two entries stand to each other by a key. `a_name` and `b_name` are their
/// names with the case folded away. By type means directories first, then
/// grouped by content type, with the name as the tie-breaker.
pub open spec fn key_order(
    a: Entry<Seq<char>>,
    a_name: Seq<char>,
    b: Entry<Seq<char>>,
    b_name: Seq<char>,
    key: SortKey,
) -> Order {
    match key {
        SortKey::Name => text_order(a_name, b_name),
        SortKey::Modified => number_order(modified_at(a), modified_at(b)),
        SortKey::Type => first_of(
            number_order(file_rank(a), file_rank(b)),
            first_of(
                text_order(content_type_of(a), content_type_of(b)),
                text_order(a_name, b_name),
            ),
        ),
    }
}

/// How two entries stand to each other under the settings, which may turn the
/// order round.
pub open spec fn entry_order(
    a: Entry<Seq<char>>,
    a_name: Seq<char>,
    b: Entry<Seq<char>>,
    b_name: Seq<char>,
    settings: Settings,
) -> Order {
    let order = key_order(a, a_name, b, b_name, settings.sort_key);
    if settings.sort_reversed {
        flipped(order)
    } else {
        order
    }
}

/// How two entries stand to each other, given their names with the case folded
/// away.
pub fn compare_named(
    a: &Entry,
    a_name: &str,
    b: &Entry,
    b_name: &str,
    settings: &Settings,
) -> (order: Order)
    ensures
        order == entry_order(a@, a_name@, b@, b_name@, *settings),
{
    let order: Order = match settings.sort_key {
        SortKey::Name => compare_texts(a_name, b_name),
        SortKey::Modified => {
            let left: i64 = match a.modified {
                Some(modified) => modified,
                None => 0,
            };
            let right: i64 = match b.modified {
                Some(modified) => modified,
                None => 0,
            };
            if left < right {
                Order::Less
            } else if left == right {
                Order::Equal
            } else {
                Order::Greater
            }
        },
        SortKey::Type => if a.is_dir && !b.is_dir {
            Order::Less
        } else if !a.is_dir && b.is_dir {
            Order::Greater
        } else {
            let none: String = String::new();
            proof {
                assert(none@ =~= Seq::<char>::empty());
            }
            let left: &String = match &a.content_type {
                Some(content_type) => content_type,
                None => &none,
            };
            let right: &String = match &b.content_type {
                Some(content_type) => content_type,
                None => &none,
            };
            let by_type: Order = compare_texts(left.as_str(), right.as_str());
            match by_type {
                Order::Equal => compare_texts(a_name, b_name),
                _ => by_type,
            }
        },
    };
    if settings.sort_reversed {
        flip(order)
    } else {
        order
    }
}

/// How two entries stand to each other in a sorted listing.
pub fn compare_entries(a: &Entry, b: &Entry, settings: &Settings) -> (order: Order)
    ensures
        order == entry_order(
            a@,
            lowercase(a.display_name@),
            b@,
            lowercase(b.display_name@),
            *settings,
        ),
{
    let a_name: String = to_lowercase(a.display_name.as_str());
    let b_name: String = to_lowercase(b.display_name.as_str());
    compare_named(a, a_name.as_str(), b, b_name.as_str(), settings)
}

/// Seen from the other side, the order of two texts is flipped.
proof fn lemma_text_order_flips(a: Seq<char>, b: Seq<char>)
    ensures
        text_order(b, a) == flipped(text_order(a, b)),
    decreases a.len(),
{
    if a.len() > 0 && b.len() > 0 {
        lemma_text_order_flips(a.drop_first(), b.drop_first());
    }
}

/// What stands before or with something that stands before or with a third thing
/// stands before or with that, and with it only if all three stand together.
pub open spec fn carries_over(ab: Order, bc: Order, ac: Order) -> bool {
    ab != Order::Greater && bc != Order::Greater ==> ac == first_of(ab, bc)
}

proof fn lemma_text_order_carries_over(a: Seq<char>, b: Seq<char>, c: Seq<char>)
    ensures
        carries_over(text_order(a, b), text_order(b, c), text_order(a, c)),
    decreases a.len(),
{
    if a.len() > 0 && b.len() > 0 && c.len() > 0 {
        lemma_text_order_carries_over(a.drop_first(), b.drop_first(), c.drop_first());
    }
}

proof fn lemma_text_order_decides(a: Seq<char>, b: Seq<char>)
    ensures
        text_order(a, b) == Order::Equal <==> a == b,
    decreases a.len(),
{
    if a.len() > 0 && b.len() > 0 {
        lemma_text_order_decides(a.drop_first(), b.drop_first());
        if text_order(a, b) == Order::Equal {
            assert(seq![a[0]] + a.drop_first() =~= a);
            assert(seq![b[0]] + b.drop_first() =~= b);
        }
    } else if a.len() == 0 && b.len() == 0 {
        assert(a =~= b);
    }
}

/// Comparing two entries the other way round gives the flipped order.
pub proof fn law_the_order_looks_the_same_from_both_sides(
    a: Entry<Seq<char>>,
    a_name: Seq<char>,
    b: Entry<Seq<char>>,
    b_name: Seq<char>,
    settings: Settings,
)
    ensures
        entry_order(b, b_name, a, a_name, settings) == flipped(
            entry_order(a, a_name, b, b_name, settings),
        ),
{
    lemma_text_order_flips(a_name, b_name);
    lemma_text_order_flips(content_type_of(a), content_type_of(b));
}

/// The order of entries carries over from one pair to the next, so a listing can
/// be sorted by it, whatever the key and the direction.
pub proof fn law_the_order_carries_over(
    a: Entry<Seq<char>>,
    a_name: Seq<char>,
    b: Entry<Seq<char>>,
    b_name: Seq<char>,
    c: Entry<Seq<char>>,
    c_name: Seq<char>,
    settings: Settings,
)
    ensures
        carries_over(
            entry_order(a, a_name, b, b_name, settings),
            entry_order(b, b_name, c, c_name, settings),
            entry_order(a, a_name, c, c_name, settings),
        ),
{
    lemma_text_order_carries_over(a_name, b_name, c_name);
    lemma_text_order_carries_over(content_type_of(a), content_type_of(b), content_type_of(c));
    lemma_text_order_carries_over(c_name, b_name, a_name);
    lemma_text_order_carries_over(content_type_of(c), content_type_of(b), content_type_of(a));
    lemma_text_order_flips(a_name, b_name);
    lemma_text_order_flips(b_name, c_name);
    lemma_text_order_flips(a_name, c_name);
    lemma_text_order_flips(content_type_of(a), content_type_of(b));
    lemma_text_order_flips(content_type_of(b), content_type_of(c));
    lemma_text_order_flips(content_type_of(a), content_type_of(c));
}

/// By name, two entries stand together exactly if their folded names are the
/// same.
pub proof fn law_the_name_decides(
    a: Entry<Seq<char>>,
    a_name: Seq<char>,
    b: Entry<Seq<char>>,
    b_name: Seq<char>,
    settings: Settings,
)
    requires
        settings.sort_key == SortKey::Name,
    ensures
        entry_order(a, a_name, b, b_name, settings) == Order::Equal <==> a_name == b_name,
{
    lemma_text_order_decides(a_name, b_name);
}

/// Sorted by type, directories come first, or last if the order is reversed.
pub proof fn law_by_type_directories_stand_together(
    a: Entry<Seq<char>>,
    a_name: Seq<char>,
    b: Entry<Seq<char>>,
    b_name: Seq<char>,
    settings: Settings,
)
    requires
        settings.sort_key == SortKey::Type,
        a.is_dir,
        !b.is_dir,
    ensures
        entry_order(a, a_name, b, b_name, settings) == (if settings.sort_reversed {
            Order::Greater
        } else {
            Order::Less
        }),
{
}

/// Whether an entry is listed under the settings: hidden ones only if hidden
/// files are shown.
pub open spec fn listed(settings: Settings, is_hidden: bool) -> bool {
    settings.show_hidden || !is_hidden
}

/// Whether an entry is listed under the settings.
pub fn is_listed(settings: &Settings, entry: &Entry) -> (out: bool)
    ensures
        out == listed(*settings, entry.is_hidden),
{
    settings.show_hidden || !entry.is_hidden
}

/// How the entries that are listed change when the setting for hidden files
/// does.
#[derive(Debug, Clone, Copy, PartialEq, Eq, Structural)]
pub enum FilterChange {
    /// Some more may be listed, and none fewer.
    LessStrict,

    /// Some fewer may be listed, and none more.
    MoreStrict,
}

/// What to tell the filter of every live directory panel after the setting for
/// hidden files was turned over.
pub fn refresh_hidden_filters(settings: &Settings) -> (change: FilterChange)
    ensures
        change == (if settings.show_hidden {
            FilterChange::LessStrict
        } else {
            FilterChange::MoreStrict
        }),
{
    if settings.show_hidden {
        FilterChange::LessStrict
    } else {
        FilterChange::MoreStrict
    }
}

/// Showing hidden files takes no entry away, and hiding them adds none.
pub proof fn law_showing_hidden_files_only_adds(before: Settings, after: Settings, hidden: bool)
    requires
        after.show_hidden == !before.show_hidden,
    ensures
        after.show_hidden ==> (listed(before, hidden) ==> listed(after, hidden)),
        !after.show_hidden ==> (listed(after, hidden) ==> listed(before, hidden)),
{
}

/// Whether an entry is a sound: its MIME type says so.
pub open spec fn audio(entry: Entry<Seq<char>>) -> bool {
    match entry.mime_type {
        Some(mime_type) => "audio/"@.is_prefix_of(mime_type),
        None => false,
    }
}

/// Whether an entry is a sound.
pub fn is_audio(entry: &Entry) -> (out: bool)
    ensures
        out == audio(entry@),
{
    match &entry.mime_type {
        Some(mime_type) => begins_with(&chars_of(mime_type.as_str()), &chars_of("audio/")),
        None => false,
    }
}

/// Whether a location is in the trash: its scheme is `trash`, in whatever case.
pub open spec fn trashed(uri: Seq<char>) -> bool {
    "trash:"@.is_prefix_of(search::folded(uri))
}

/// Whether a location is in the trash.
pub fn is_trashed(uri: &str) -> (out: bool)
    ensures
        out == trashed(uri@),
{
    begins_with(&fold(uri), &chars_of("trash:"))
}

/// What choosing an item of a context menu does.
#[derive(Debug, Clone, Copy, PartialEq, Eq, Structural)]
pub enum MenuAction {
    OpenDefault,
    OpenChooser,
    Rename,
    TrashSelection,
    RestoreSelectionFromTrash,
    NewFolder,
}

/// An item of a context menu: what it says, what it does and, where it is about
/// one entry alone, which one that is.
#[derive(Debug, Clone, PartialEq, Eq)]
pub struct MenuItem<Text = String> {
    pub label: Text,
    pub action: MenuAction,
    pub target: Option<Text>,
}

impl View for MenuItem {
    type V = MenuItem<Seq<char>>;

    open spec fn view(&self) -> MenuItem<Seq<char>> {
        MenuItem {
            label: self.label@,
            action: self.action,
            target: text_if_any(self.target),
        }
    }
}

/// The items of a menu as texts.
pub open spec fn items(menu: Seq<MenuItem>) -> Seq<MenuItem<Seq<char>>> {
    menu.map_values(|item: MenuItem| item@)
}

/// The section of an entry's menu for opening it: with its default application,
/// where there is one, and with another one.
pub open spec fn open_section(uri: Seq<char>, default_app: Option<&str>) -> Seq<
    MenuItem<Seq<char>>,
> {
    let chooser = MenuItem {
        label: "Open with..."@,
        action: MenuAction::OpenChooser,
        target: Some(uri),
    };
    match default_app {
        Some(app) => seq![
            MenuItem {
                label: "Open with "@ + app@,
                action: MenuAction::OpenDefault,
                target: Some(uri),
            },
            chooser,
        ],
        None => seq![chooser],
    }
}

/// The section of an entry's menu for changing it. What is in the trash can be
/// restored, everything else can be sent there.
pub open spec fn modify_section(uri: Seq<char>) -> Seq<MenuItem<Seq<char>>> {
    seq![
        MenuItem { label: "Rename..."@, action: MenuAction::Rename, target: Some(uri) },
        if trashed(uri) {
            MenuItem {
                label: "Restore from Trash"@,
                action: MenuAction::RestoreSelectionFromTrash,
                target: None,
            }
        } else {
            MenuItem {
                label: "Move to Trash"@,
                action: MenuAction::TrashSelection,
                target: None,
            }
        },
    ]
}

/// Constructs the two sections of a directory entry's right-click context menu.
pub fn populate_entry_menu_model(entry: &Entry, default_app: Option<&str>) -> (sections: (
    Vec<MenuItem>,
    Vec<MenuItem>,
))
    ensures
        items(sections.0@) == open_section(entry.uri@, default_app),
        items(sections.1@) == modify_section(entry.uri@),
{
    let mut open: Vec<MenuItem> = Vec::new();
    if let Some(app) = default_app {
        let mut label: String = "Open with ".to_owned();
        label.append(app);
        open.push(
            MenuItem {
                label,
                action: MenuAction::OpenDefault,
                target: Some(entry.uri.clone()),
            },
        );
    }
    open.push(
        MenuItem {
            label: "Open with...".to_owned(),
            action: MenuAction::OpenChooser,
            target: Some(entry.uri.clone()),
        },
    );
    let mut modify: Vec<MenuItem> = Vec::new();
    modify.push(
        MenuItem {
            label: "Rename...".to_owned(),
            action: MenuAction::Rename,
            target: Some(entry.uri.clone()),
        },
    );
    if !is_trashed(entry.uri.as_str()) {
        modify.push(
            MenuItem {
                label: "Move to Trash".to_owned(),
                action: MenuAction::TrashSelection,
                target: None,
            },
        );
    } else {
        modify.push(
            MenuItem {
                label: "Restore from Trash".to_owned(),
                action: MenuAction::RestoreSelectionFromTrash,
                target: None,
            },
        );
    }
    assert(items(open@) =~= open_section(entry.uri@, default_app));
    assert(items(modify@) =~= modify_section(entry.uri@));
    (open, modify)
}

/// Constructs the one section of a directory's right-click context menu.
pub fn populate_directory_menu_model() -> (section: Vec<MenuItem>)
    ensures
        items(section@) == seq![
            MenuItem { label: "New Folder..."@, action: MenuAction::NewFolder, target: None },
        ],
{
    let mut section: Vec<MenuItem> = Vec::new();
    section.push(
        MenuItem {
            label: "New Folder...".to_owned(),
            action: MenuAction::NewFolder,
            target: None,
        },
    );
    assert(items(section@) =~= seq![
        MenuItem { label: "New Folder..."@, action: MenuAction::NewFolder, target: None },
    ]);
    section
}

/// Whether an entry can be given this name: `Err` with what to tell the user
/// exactly if it is empty.
pub fn check_new_name(new_name: &str) -> (out: Result<(), String>)
    ensures
        match out {
            Ok(_) => new_name@.len() > 0,
            Err(message) => new_name@.len() == 0 && message@ == "File name cannot be empty."@,
        },
{
    if new_name.is_empty() {
        Err("File name cannot be empty.".to_owned())
    } else {
        Ok(())
    }
}

/// By time, the older entry comes first, whatever else the two are; an entry of
/// which the time is not known stands as if it were from the epoch. Reversed, the
/// newer one comes first.
pub proof fn law_time_alone_decides_by_time(
    a: Entry<Seq<char>>,
    a_name: Seq<char>,
    b: Entry<Seq<char>>,
    b_name: Seq<char>,
    settings: Settings,
)
    requires
        settings.sort_key == SortKey::Modified,
    ensures
        ({
            let s = if a.modified is Some {
                a.modified->0 as int
            } else {
                0
            };
            let t = if b.modified is Some {
                b.modified->0 as int
            } else {
                0
            };
            let order = entry_order(a, a_name, b, b_name, settings);
            &&& order == Order::Equal <==> s == t
            &&& order == Order::Less <==> if settings.sort_reversed {
                s > t
            } else {
                s < t
            }
            &&& order == Order::Greater <==> if settings.sort_reversed {
                s < t
            } else {
                s > t
            }
        }),
{
}

/// Two texts stand to each other as their first different characters do.
proof fn lemma_first_difference(same: Seq<char>, a: Seq<char>, b: Seq<char>)
    ensures
        text_order(same + a, same + b) == text_order(a, b),
    decreases same.len(),
{
    if same.len() == 0 {
        assert(same + a =~= a);
        assert(same + b =~= b);
    } else {
        assert((same + a).drop_first() =~= same.drop_first() + a);
        assert((same + b).drop_first() =~= same.drop_first() + b);
        lemma_first_difference(same.drop_first(), a, b);
    }
}

/// By name, two entries stand to each other as the first characters in which their
/// names differ, whatever else the two are; a name that another one starts with
/// comes before it. Reversed, it is the other way round.
pub proof fn law_the_first_difference_decides_by_name(
    a: Entry<Seq<char>>,
    b: Entry<Seq<char>>,
    settings: Settings,
    same: Seq<char>,
    a_rest: Seq<char>,
    b_rest: Seq<char>,
)
    requires
        settings.sort_key == SortKey::Name,
        b_rest.len() > 0,
        a_rest.len() == 0 || a_rest[0] < b_rest[0],
    ensures
        entry_order(a, same + a_rest, b, same + b_rest, settings) == (if settings.sort_reversed {
            Order::Greater
        } else {
            Order::Less
        }),
        entry_order(b, same + b_rest, a, same + a_rest, settings) == (if settings.sort_reversed {
            Order::Less
        } else {
            Order::Greater
        }),
        entry_order(a, same, b, same, settings) == Order::Equal,
{
    lemma_first_difference(same, a_rest, b_rest);
    lemma_text_order_flips(same + a_rest, same + b_rest);
    lemma_text_order_decides(same, same);
}

/// By type, a directory comes before anything else. Two directories, and two other
/// entries, stand to each other as the names of their content types would, an unknown
/// one being the empty text; those of one type stand as their own names do.
pub proof fn law_type_then_name_decides_by_type(
    a: Entry<Seq<char>>,
    a_name: Seq<char>,
    b: Entry<Seq<char>>,
    b_name: Seq<char>,
    reversed: bool,
    show_hidden: bool,
)
    ensures
        ({
            let by_type = Settings { show_hidden, sort_key: SortKey::Type, sort_reversed: reversed };
            let by_name = Settings { show_hidden, sort_key: SortKey::Name, sort_reversed: reversed };
            let a_type = if a.content_type is Some {
                a.content_type->0
            } else {
                Seq::empty()
            };
            let b_type = if b.content_type is Some {
                b.content_type->0
            } else {
                Seq::empty()
            };
            let order = entry_order(a, a_name, b, b_name, by_type);
            &&& a.is_dir && !b.is_dir ==> order == (if reversed {
                Order::Greater
            } else {
                Order::Less
            })
            &&& !a.is_dir && b.is_dir ==> order == (if reversed {
                Order::Less
            } else {
                Order::Greater
            })
            &&& a.is_dir == b.is_dir && a_type != b_type ==> order == entry_order(
                a,
                a_type,
                b,
                b_type,
                by_name,
            ) && order != Order::Equal
            &&& a.is_dir == b.is_dir && a_type == b_type ==> order == entry_order(
                a,
                a_name,
                b,
                b_name,
                by_name,
            )
        }),
{
    lemma_text_order_decides(content_type_of(a), content_type_of(b));
}

/// Reversing turns every order round and changes nothing else, and hidden files have
/// no say in it.
pub proof fn law_reversing_turns_the_order_round(
    a: Entry<Seq<char>>,
    a_name: Seq<char>,
    b: Entry<Seq<char>>,
    b_name: Seq<char>,
    key: SortKey,
    hidden: bool,
    shown: bool,
)
    ensures
        ({
            let up = entry_order(
                a,
                a_name,
                b,
                b_name,
                Settings { show_hidden: hidden, sort_key: key, sort_reversed: false },
            );
            let down = entry_order(
                a,
                a_name,
                b,
                b_name,
                Settings { show_hidden: shown, sort_key: key, sort_reversed: true },
            );
            &&& up == Order::Equal <==> down == Order::Equal
            &&& up == Order::Less <==> down == Order::Greater
            &&& up == Order::Greater <==> down == Order::Less
        }),
{
}

/// Only hidden entries are ever left out, and only while hidden files are not shown.
pub proof fn law_only_hidden_files_are_left_out(settings: Settings)
    ensures
        listed(settings, false),
        listed(settings, true) == settings.show_hidden,
{
}

/// An entry is a sound exactly if its MIME type is known and starts with `audio/`,
/// whatever else it is.
pub proof fn law_sounds_are_told_by_their_type(entry: Entry<Seq<char>>, kind: Seq<char>)
    ensures
        entry.mime_type is None ==> !audio(entry),
        entry.mime_type == Some("audio/"@ + kind) ==> audio(entry),
        audio(entry) ==> entry.mime_type is Some && entry.mime_type->0.len() >= 6
            && entry.mime_type->0.take(6) == "audio/"@,
{
    reveal_strlit("audio/");
    let whole = "audio/"@ + kind;
    assert(whole.subrange(0, 6) =~= "audio/"@);
    if audio(entry) {
        assert(entry.mime_type->0.take(6) =~= "audio/"@);
    }
}

/// A location is in the trash exactly if its scheme is `trash`, in whatever case its
/// letters are.
pub proof fn law_the_scheme_tells_the_trash(scheme: Seq<char>, rest: Seq<char>)
    requires
        scheme.len() == 6,
    ensures
        trashed(scheme + rest) <==> {
            &&& scheme[0] == 't' || scheme[0] == 'T'
            &&& scheme[1] == 'r' || scheme[1] == 'R'
            &&& scheme[2] == 'a' || scheme[2] == 'A'
            &&& scheme[3] == 's' || scheme[3] == 'S'
            &&& scheme[4] == 'h' || scheme[4] == 'H'
            &&& scheme[5] == ':'
        },
        forall|short: Seq<char>| short.len() < 6 ==> !#[trigger] trashed(short),
{
    reveal_strlit("trash:");
    let uri = scheme + rest;
    let seen = search::folded(uri);
    assert forall|i: int| 0 <= i < 6 implies #[trigger] seen[i] == search::folded_char(
        scheme[i],
    ) by {
        assert(uri[i] == scheme[i]);
    }
    assert(seen.len() >= 6);
    let first = seen.subrange(0, 6);
    assert(first[0] == search::folded_char(scheme[0]));
    assert(first[1] == search::folded_char(scheme[1]));
    assert(first[2] == search::folded_char(scheme[2]));
    assert(first[3] == search::folded_char(scheme[3]));
    assert(first[4] == search::folded_char(scheme[4]));
    assert(first[5] == search::folded_char(scheme[5]));
    let wanted = "trash:"@;
    assert(wanted =~= seq!['t', 'r', 'a', 's', 'h', ':']);
    if first[0] == 't' && first[1] == 'r' && first[2] == 'a' && first[3] == 's' && first[4] == 'h'
        && first[5] == ':' {
        assert(first =~= wanted);
    }
    if trashed(uri) {
        assert(wanted =~= first);
        assert(first[0] == wanted[0] && first[1] == wanted[1] && first[2] == wanted[2] && first[3]
            == wanted[3] && first[4] == wanted[4] && first[5] == wanted[5]);
    }
}

/// Opening is offered with the default application, if there is one, and always with
/// another one; everything can be renamed; and what is in the trash can be restored
/// but not sent there, and the other way round. What is about the entry alone names
/// it.
pub proof fn law_a_menu_offers_what_can_be_done(uri: Seq<char>, app: &str)
    ensures
        ({
            let with = open_section(uri, Some(app));
            let without = open_section(uri, None);
            let modify = modify_section(uri);
            &&& with.len() == 2
            &&& with[0].label == "Open with "@ + app@
            &&& with[0].action == MenuAction::OpenDefault
            &&& with[0].target == Some(uri)
            &&& with[1].label == "Open with..."@
            &&& with[1].action == MenuAction::OpenChooser
            &&& with[1].target == Some(uri)
            &&& without == seq![with[1]]
            &&& modify.len() == 2
            &&& modify[0].label == "Rename..."@
            &&& modify[0].action == MenuAction::Rename
            &&& modify[0].target == Some(uri)
            &&& modify[1].target is None
            &&& trashed(uri) ==> modify[1].action == MenuAction::RestoreSelectionFromTrash
                && modify[1].label == "Restore from Trash"@
            &&& !trashed(uri) ==> modify[1].action == MenuAction::TrashSelection
                && modify[1].label == "Move to Trash"@
        }),
{
}

/// Entries are sorted by when they were modified if that is what they are sorted by,
/// whatever they are called and whether they are files or directories.
pub proof fn law_entries_are_sorted_by_time(a: Entry, b: Entry, settings: Settings, order: Order)
    requires
        call_ensures(compare_entries, (&a, &b, &settings), order),
        settings.sort_key == SortKey::Modified,
        a.modified is Some,
        b.modified is Some,
    ensures
        order == Order::Equal <==> a.modified == b.modified,
        !settings.sort_reversed ==> (order == Order::Less <==> a.modified->0 < b.modified->0),
        settings.sort_reversed ==> (order == Order::Less <==> a.modified->0 > b.modified->0),
{
    law_time_alone_decides_by_time(
        a@,
        lowercase(a.display_name@),
        b@,
        lowercase(b.display_name@),
        settings,
    );
}

/// An entry and itself are equal, whatever they are sorted by.
pub proof fn law_an_entry_is_equal_to_itself(entry: Entry, settings: Settings, order: Order)
    requires
        call_ensures(compare_entries, (&entry, &entry, &settings), order),
    ensures
        order == Order::Equal,
{
    let name = lowercase(entry.display_name@);
    law_the_order_looks_the_same_from_both_sides(entry@, name, entry@, name, settings);
}

/// An entry is listed unless it is hidden and hidden entries are not shown, and showing
/// them is the less strict of the two.
pub proof fn law_hidden_entries_are_listed_when_shown(
    settings: Settings,
    entry: Entry,
    listed: bool,
    change: FilterChange,
)
    requires
        call_ensures(is_listed, (&settings, &entry), listed),
        call_ensures(refresh_hidden_filters, (&settings,), change),
    ensures
        listed <==> !entry.is_hidden || settings.show_hidden,
        change == FilterChange::LessStrict <==> settings.show_hidden,
        change == FilterChange::MoreStrict <==> !settings.show_hidden,
{
}

/// A new name is taken exactly if there is one.
pub proof fn law_a_name_cannot_be_empty(new_name: &str, out: Result<(), String>)
    requires
        call_ensures(check_new_name, (new_name,), out),
    ensures
        out is Ok <==> new_name@.len() >= 1,
        out is Err ==> out->Err_0@ == "File name cannot be empty."@,
{
}

} // verus!
