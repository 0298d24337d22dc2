//! The ranger-style keys of the window: Backspace (hidden files), `/` `n` `N`
//! (search), `o` and then `m`, `n` or `t` (sort by modified, name or type), F2
//! (rename), and the keys that move the cursor.

use super::app::AppMsg;
use crate::clipboard::ClipboardOp;
use crate::config::SortKey;
use vstd::prelude::*;

verus! {

/// A key.
#[derive(Debug, Clone, Copy, PartialEq, Eq, Structural)]
pub enum Key {
    /// A key that stands for a character, upper case if shifted.
    Char(char),
    BackSpace,
    Return,
    KeypadEnter,
    F2,
    Delete,
    Other,
}

/// The keys that are held down while another is pressed.
#[derive(Debug, Clone, Copy, PartialEq, Eq, Structural)]
pub struct Held {
    pub control: bool,
    pub alt: bool,
    pub shift: bool,
}

/// What a key asks for.
#[derive(Debug, Clone, PartialEq, Eq)]
pub enum KeyAction<Text = String, Texts = Vec<String>> {
    Nothing,

    /// Tell the window this.
    Send(AppMsg<Text, Texts>),

    /// Show hidden files, or hide them again.
    ToggleHidden,
}

impl View for KeyAction {
    type V = KeyAction<Seq<char>, Seq<Seq<char>>>;

    open spec fn view(&self) -> KeyAction<Seq<char>, Seq<Seq<char>>> {
        match self {
            KeyAction::Nothing => KeyAction::Nothing,
            KeyAction::Send(message) => KeyAction::Send(message@),
            KeyAction::ToggleHidden => KeyAction::ToggleHidden,
        }
    }
}

/// What a key asks for, and whether nothing else gets to see it.
#[derive(Debug, Clone, PartialEq, Eq)]
pub struct Response<Text = String, Texts = Vec<String>> {
    pub action: KeyAction<Text, Texts>,
    pub stop: bool,
}

impl View for Response {
    type V = Response<Seq<char>, Seq<Seq<char>>>;

    open spec fn view(&self) -> Response<Seq<char>, Seq<Seq<char>>> {
        Response { action: self.action@, stop: self.stop }
    }
}

/// The prefixes that were pressed and wait for the key that completes them.
#[derive(Debug, Clone, Copy, PartialEq, Eq, Structural)]
pub struct KeyController {
    /// `o`, which waits for the key to sort by.
    pub pending_sort: bool,

    /// `g`, which waits for another `g`.
    pub pending_g: bool,
}

/// The key is nobody else's, and asks for this.
pub open spec fn stop(action: KeyAction<Seq<char>, Seq<Seq<char>>>) -> Response<
    Seq<char>,
    Seq<Seq<char>>,
> {
    Response { action, stop: true }
}

/// The key goes on to whatever else wants it.
pub open spec fn proceed() -> Response<Seq<char>, Seq<Seq<char>>> {
    Response { action: KeyAction::Nothing, stop: false }
}

/// What a key does together with Control: `c` copies, `x` cuts and `v` pastes.
pub open spec fn clipboard_key(key: Key) -> Option<AppMsg<Seq<char>, Seq<Seq<char>>>> {
    if key == Key::Char('c') || key == Key::Char('C') {
        Some(AppMsg::ClipboardCopy(ClipboardOp::Copy))
    } else if key == Key::Char('x') || key == Key::Char('X') {
        Some(AppMsg::ClipboardCopy(ClipboardOp::Cut))
    } else if key == Key::Char('v') || key == Key::Char('V') {
        Some(AppMsg::ClipboardPaste)
    } else {
        None
    }
}

/// What a key does behind the prefix for sorting.
pub open spec fn sort_action(key: Key) -> KeyAction<Seq<char>, Seq<Seq<char>>> {
    if key == Key::Char('m') {
        KeyAction::Send(AppMsg::SetSort(SortKey::Modified))
    } else if key == Key::Char('n') {
        KeyAction::Send(AppMsg::SetSort(SortKey::Name))
    } else if key == Key::Char('t') {
        KeyAction::Send(AppMsg::SetSort(SortKey::Type))
    } else {
        KeyAction::Nothing
    }
}

/// What a key does by itself, or `None` if it is not one of the window's.
pub open spec fn plain_action(key: Key, shift: bool) -> Option<
    KeyAction<Seq<char>, Seq<Seq<char>>>,
> {
    match key {
        Key::BackSpace => Some(KeyAction::ToggleHidden),
        Key::Return => Some(KeyAction::Send(AppMsg::NavInto)),
        Key::KeypadEnter => Some(KeyAction::Send(AppMsg::NavInto)),
        Key::F2 => Some(KeyAction::Send(AppMsg::RenameSelected)),
        Key::Delete => Some(
            KeyAction::Send(
                if shift {
                    AppMsg::DeletePermanentSelected
                } else {
                    AppMsg::TrashSelected
                },
            ),
        ),
        Key::Other => None,
        Key::Char(c) => if c == '/' {
            Some(KeyAction::Send(AppMsg::SearchOpen))
        } else if c == 'o' || c == 'g' {
            Some(KeyAction::Nothing)
        } else if c == 'G' {
            Some(KeyAction::Send(AppMsg::NavLast))
        } else if c == 'n' {
            Some(KeyAction::Send(AppMsg::SearchNext))
        } else if c == 'N' {
            Some(KeyAction::Send(AppMsg::SearchPrev))
        } else if c == 'j' {
            Some(KeyAction::Send(AppMsg::NavMove(1)))
        } else if c == 'k' {
            Some(KeyAction::Send(AppMsg::NavMove((-1) as i32)))
        } else if c == 'l' {
            Some(KeyAction::Send(AppMsg::NavInto))
        } else if c == 'h' {
            Some(KeyAction::Send(AppMsg::NavParent))
        } else if c == ' ' {
            Some(KeyAction::Send(AppMsg::ToggleMark))
        } else {
            None
        },
    }
}

impl KeyController {
    /// What pressing a key asks for. `typing` says that a text entry or an open
    /// popover has the focus, and then it keeps its keys.
    pub open spec fn response(self, key: Key, held: Held, typing: bool) -> Response<
        Seq<char>,
        Seq<Seq<char>>,
    > {
        if typing {
            proceed()
        } else if held.control && !held.alt && clipboard_key(key) is Some {
            stop(KeyAction::Send(clipboard_key(key)->0))
        } else if held.control || held.alt {
            proceed()
        } else if self.pending_sort {
            stop(sort_action(key))
        } else if self.pending_g {
            stop(
                if key == Key::Char('g') {
                    KeyAction::Send(AppMsg::NavFirst)
                } else {
                    KeyAction::Nothing
                },
            )
        } else {
            match plain_action(key, held.shift) {
                Some(action) => stop(action),
                None => proceed(),
            }
        }
    }

    /// The prefixes that wait after a key was pressed. A repeated `o` waits again
    /// instead of cancelling.
    pub open spec fn after(self, key: Key, held: Held, typing: bool) -> KeyController {
        if typing {
            KeyController { pending_sort: false, pending_g: false }
        } else if held.control || held.alt {
            self
        } else if self.pending_sort {
            KeyController { pending_sort: key == Key::Char('o'), ..self }
        } else if self.pending_g {
            KeyController { pending_g: false, ..self }
        } else {
            KeyController { pending_sort: key == Key::Char('o'), pending_g: key == Key::Char('g') }
        }
    }

    /// A controller that waits for nothing.
    pub fn new() -> (controller: KeyController)
        ensures
            !controller.pending_sort,
            !controller.pending_g,
    {
        KeyController { pending_sort: false, pending_g: false }
    }

    /// Takes a key that was pressed.
    pub fn press(&mut self, key: Key, held: Held, typing: bool) -> (response: Response)
        ensures
            response@ == old(self).response(key, held, typing),
            *final(self) == old(self).after(key, held, typing),
    {
        // Let text entries (rename, search, ...) and open popovers (menus,
        // rename) keep their keys.
        if typing {
            self.pending_sort = false;
            self.pending_g = false;
            return Response { action: KeyAction::Nothing, stop: false };
        }
        // Ahead of the modifier bail below, so every other accelerator still
        // passes through.
        if held.control && !held.alt {
            if let Key::Char(c) = key {
                if c == 'c' || c == 'C' {
                    return Response {
                        action: KeyAction::Send(AppMsg::ClipboardCopy(ClipboardOp::Copy)),
                        stop: true,
                    };
                }
                if c == 'x' || c == 'X' {
                    return Response {
                        action: KeyAction::Send(AppMsg::ClipboardCopy(ClipboardOp::Cut)),
                        stop: true,
                    };
                }
                if c == 'v' || c == 'V' {
                    return Response {
                        action: KeyAction::Send(AppMsg::ClipboardPaste),
                        stop: true,
                    };
                }
            }
        }
        if held.control || held.alt {
            return Response { action: KeyAction::Nothing, stop: false };
        }
        if self.pending_sort {
            self.pending_sort = false;
            let action: KeyAction = match key {
                Key::Char(c) => if c == 'm' {
                    KeyAction::Send(AppMsg::SetSort(SortKey::Modified))
                } else if c == 'n' {
                    KeyAction::Send(AppMsg::SetSort(SortKey::Name))
                } else if c == 't' {
                    KeyAction::Send(AppMsg::SetSort(SortKey::Type))
                } else {
                    // A repeated prefix re-arms instead of cancelling.
                    self.pending_sort = c == 'o';
                    KeyAction::Nothing
                },
                _ => KeyAction::Nothing,
            };
            return Response { action, stop: true };
        }
        if self.pending_g {
            self.pending_g = false;
            let action: KeyAction = if key == Key::Char('g') {
                KeyAction::Send(AppMsg::NavFirst)
            } else {
                KeyAction::Nothing
            };
            return Response { action, stop: true };
        }
        let message: AppMsg = match key {
            Key::BackSpace => return Response { action: KeyAction::ToggleHidden, stop: true },
            Key::Return => AppMsg::NavInto,
            Key::KeypadEnter => AppMsg::NavInto,
            Key::F2 => AppMsg::RenameSelected,
            Key::Delete => if held.shift {
                AppMsg::DeletePermanentSelected
            } else {
                AppMsg::TrashSelected
            },
            Key::Other => return Response { action: KeyAction::Nothing, stop: false },
            Key::Char(c) => if c == '/' {
                AppMsg::SearchOpen
            } else if c == 'o' {
                self.pending_sort = true;
                return Response { action: KeyAction::Nothing, stop: true };
            } else if c == 'g' {
                self.pending_g = true;
                return Response { action: KeyAction::Nothing, stop: true };
            } else if c == 'G' {
                AppMsg::NavLast
            } else if c == 'n' {
                AppMsg::SearchNext
            } else if c == 'N' {
                AppMsg::SearchPrev
            } else if c == 'j' {
                AppMsg::NavMove(1)
            } else if c == 'k' {
                AppMsg::NavMove(-1)
            } else if c == 'l' {
                AppMsg::NavInto
            } else if c == 'h' {
                AppMsg::NavParent
            } else if c == ' ' {
                AppMsg::ToggleMark
            } else {
                return Response { action: KeyAction::Nothing, stop: false };
            },
        };
        Response { action: KeyAction::Send(message), stop: true }
    }
}

/// While text is being typed, every key goes to the text, and whatever prefix was
/// waiting is forgotten.
pub proof fn law_typing_keeps_its_keys(controller: KeyController, key: Key, held: Held)
    ensures
        controller.response(key, held, true) == proceed(),
        !controller.after(key, held, true).pending_sort,
        !controller.after(key, held, true).pending_g,
{
}

/// Every accelerator other than those of the clipboard passes through, and no
/// waiting prefix is lost over it.
pub proof fn law_accelerators_pass_through(controller: KeyController, key: Key, held: Held)
    requires
        held.control || held.alt,
    ensures
        controller.after(key, held, false) == controller,
        held.alt || clipboard_key(key) is None ==> controller.response(key, held, false)
            == proceed(),
{
}

/// Never do two prefixes wait at once.
pub proof fn law_at_most_one_prefix_waits(
    controller: KeyController,
    key: Key,
    held: Held,
    typing: bool,
)
    requires
        !(controller.pending_sort && controller.pending_g),
    ensures
        ({
            let after = controller.after(key, held, typing);
            !(after.pending_sort && after.pending_g)
        }),
{
}

/// The key behind a prefix belongs to the prefix: nothing else sees it, and it
/// does not do what it does by itself.
pub proof fn law_a_prefix_takes_the_next_key(controller: KeyController, key: Key, shift: bool)
    requires
        controller.pending_sort || controller.pending_g,
    ensures
        ({
            let held = Held { control: false, alt: false, shift };
            &&& controller.response(key, held, false).stop
            &&& controller.pending_sort ==> controller.response(key, held, false).action
                == sort_action(key)
            &&& !controller.pending_sort ==> controller.response(key, held, false) == stop(
                if key == Key::Char('g') {
                    KeyAction::Send(AppMsg::NavFirst)
                } else {
                    KeyAction::Nothing
                },
            )
        }),
{
}

/// Together with Control, and without Alt, `c` copies, `x` cuts and `v` pastes, in
/// either case, whatever prefix is waiting; any other key passes through, and so does
/// every key together with Alt.
pub proof fn law_control_reaches_the_clipboard(controller: KeyController, key: Key, held: Held)
    requires
        held.control || held.alt,
    ensures
        ({
            let response = controller.response(key, held, false);
            let copies = key == Key::Char('c') || key == Key::Char('C');
            let cuts = key == Key::Char('x') || key == Key::Char('X');
            let pastes = key == Key::Char('v') || key == Key::Char('V');
            let action: KeyAction<Seq<char>, Seq<Seq<char>>> = if held.alt {
                KeyAction::Nothing
            } else if copies {
                KeyAction::Send(AppMsg::ClipboardCopy(ClipboardOp::Copy))
            } else if cuts {
                KeyAction::Send(AppMsg::ClipboardCopy(ClipboardOp::Cut))
            } else if pastes {
                KeyAction::Send(AppMsg::ClipboardPaste)
            } else {
                KeyAction::Nothing
            };
            &&& response.stop == (!held.alt && (copies || cuts || pastes))
            &&& response.action == action
            &&& controller.after(key, held, false).pending_sort == controller.pending_sort
            &&& controller.after(key, held, false).pending_g == controller.pending_g
        }),
{
}

/// While text is being typed no key is taken from it.
pub proof fn law_nothing_is_taken_from_a_text(controller: KeyController, key: Key, held: Held)
    ensures
        !controller.response(key, held, true).stop,
        controller.response(key, held, true).action is Nothing,
        !controller.after(key, held, true).pending_sort,
        !controller.after(key, held, true).pending_g,
{
}

/// Behind `o`, a key sorts: `m` by time, `n` by name and `t` by type. Any other key
/// does nothing, but `o` waits for the next one again. Nothing else sees the key.
pub proof fn law_o_waits_for_what_to_sort_by(controller: KeyController, key: Key, shift: bool)
    requires
        controller.pending_sort,
    ensures
        ({
            let held = Held { control: false, alt: false, shift };
            let response = controller.response(key, held, false);
            let after = controller.after(key, held, false);
            let action: KeyAction<Seq<char>, Seq<Seq<char>>> = if key == Key::Char('m') {
                KeyAction::Send(AppMsg::SetSort(SortKey::Modified))
            } else if key == Key::Char('n') {
                KeyAction::Send(AppMsg::SetSort(SortKey::Name))
            } else if key == Key::Char('t') {
                KeyAction::Send(AppMsg::SetSort(SortKey::Type))
            } else {
                KeyAction::Nothing
            };
            &&& response.stop
            &&& response.action == action
            &&& after.pending_sort == (key == Key::Char('o'))
            &&& after.pending_g == controller.pending_g
        }),
{
}

/// Behind `g`, another `g` goes to the first row and any other key does nothing. Either
/// way the key is taken, and nothing waits any more.
pub proof fn law_g_waits_for_another(controller: KeyController, key: Key, shift: bool)
    requires
        controller.pending_g,
        !controller.pending_sort,
    ensures
        ({
            let held = Held { control: false, alt: false, shift };
            let response = controller.response(key, held, false);
            let after = controller.after(key, held, false);
            let action: KeyAction<Seq<char>, Seq<Seq<char>>> = if key == Key::Char('g') {
                KeyAction::Send(AppMsg::NavFirst)
            } else {
                KeyAction::Nothing
            };
            &&& response.stop
            &&& response.action == action
            &&& !after.pending_sort
            &&& !after.pending_g
        }),
{
}

/// What a key sends to the window, as texts.
pub type Sent = AppMsg<Seq<char>, Seq<Seq<char>>>;

/// What the keys do by themselves. A key that is none of the window's passes through,
/// and only `o` and `g` make the controller wait. Shift matters to Delete alone.
pub proof fn law_each_key_does_its_own(controller: KeyController, key: Key, shift: bool)
    requires
        !controller.pending_g,
        !controller.pending_sort,
    ensures
        ({
            let held = Held { control: false, alt: false, shift };
            let response = controller.response(key, held, false);
            let after = controller.after(key, held, false);
            let sent: Option<Sent> = match response.action {
                KeyAction::Send(msg) => Some(msg),
                _ => None,
            };
            &&& sent == Some(Sent::SearchOpen) <==> key == Key::Char('/')
            &&& sent == Some(Sent::NavLast) <==> key == Key::Char('G')
            &&& sent == Some(Sent::SearchNext) <==> key == Key::Char('n')
            &&& sent == Some(Sent::SearchPrev) <==> key == Key::Char('N')
            &&& sent == Some(Sent::NavMove(1)) <==> key == Key::Char('j')
            &&& sent == Some(Sent::NavMove((0 - 1) as i32)) <==> key == Key::Char('k')
            &&& sent == Some(Sent::NavParent) <==> key == Key::Char('h')
            &&& sent == Some(Sent::ToggleMark) <==> key == Key::Char(' ')
            &&& sent == Some(Sent::NavInto) <==> key == Key::Char('l') || key == Key::Return || key
                == Key::KeypadEnter
            &&& sent == Some(Sent::RenameSelected) <==> key == Key::F2
            &&& sent == Some(Sent::TrashSelected) <==> key == Key::Delete && !shift
            &&& sent == Some(Sent::DeletePermanentSelected) <==> key == Key::Delete && shift
            &&& response.action is ToggleHidden <==> key == Key::BackSpace
            &&& response.stop <==> sent is Some || key == Key::BackSpace || key == Key::Char('o')
                || key == Key::Char('g')
            &&& sent is Some ==> key == Key::Char('/') || key == Key::Char('G') || key == Key::Char(
                'n',
            ) || key == Key::Char('N') || key == Key::Char('j') || key == Key::Char('k') || key
                == Key::Char('h') || key == Key::Char(' ') || key == Key::Char('l') || key
                == Key::Return || key == Key::KeypadEnter || key == Key::F2 || key == Key::Delete
            &&& after.pending_sort == (key == Key::Char('o'))
            &&& after.pending_g == (key == Key::Char('g'))
        }),
{
}

/// At first no key is waited for.
pub proof fn law_nothing_is_waited_for_at_first(controller: KeyController)
    requires
        call_ensures(KeyController::new, (), controller),
    ensures
        !controller.pending_sort,
        !controller.pending_g,
{
}

} // verus!
