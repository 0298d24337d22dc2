use fm::clipboard::ClipboardOp;
use fm::component::app::AppMsg;
use fm::component::keys::{Held, Key, KeyAction, KeyController, Response};
use fm::config::SortKey;

const NONE: Held = Held { control: false, alt: false, shift: false };
const CONTROL: Held = Held { control: true, alt: false, shift: false };
const SHIFT: Held = Held { control: false, alt: false, shift: true };

fn send(message: AppMsg) -> Response {
    Response { action: KeyAction::Send(message), stop: true }
}

fn swallow() -> Response {
    Response { action: KeyAction::Nothing, stop: true }
}

fn proceed() -> Response {
    Response { action: KeyAction::Nothing, stop: false }
}

#[test]
fn every_plain_key_does_its_own() {
    let keys = [
        (Key::Char('/'), AppMsg::SearchOpen),
        (Key::Char('G'), AppMsg::NavLast),
        (Key::Char('n'), AppMsg::SearchNext),
        (Key::Char('N'), AppMsg::SearchPrev),
        (Key::Char('j'), AppMsg::NavMove(1)),
        (Key::Char('k'), AppMsg::NavMove(-1)),
        (Key::Char('l'), AppMsg::NavInto),
        (Key::Return, AppMsg::NavInto),
        (Key::KeypadEnter, AppMsg::NavInto),
        (Key::Char('h'), AppMsg::NavParent),
        (Key::F2, AppMsg::RenameSelected),
        (Key::Char(' '), AppMsg::ToggleMark),
        (Key::Delete, AppMsg::TrashSelected),
    ];
    for (key, message) in keys {
        assert_eq!(KeyController::new().press(key, NONE, false), send(message));
    }
    assert_eq!(
        KeyController::new().press(Key::Delete, SHIFT, false),
        send(AppMsg::DeletePermanentSelected)
    );
    assert_eq!(
        KeyController::new().press(Key::BackSpace, NONE, false),
        Response { action: KeyAction::ToggleHidden, stop: true }
    );
    assert_eq!(KeyController::new().press(Key::Char('q'), NONE, false), proceed());
    assert_eq!(KeyController::new().press(Key::Other, NONE, false), proceed());
}

#[test]
fn o_waits_for_the_key_to_sort_by() {
    for (c, key) in [('m', SortKey::Modified), ('n', SortKey::Name), ('t', SortKey::Type)] {
        let mut keys = KeyController::new();
        assert_eq!(keys.press(Key::Char('o'), NONE, false), swallow());
        assert_eq!(keys.press(Key::Char('o'), NONE, false), swallow());
        assert_eq!(keys.press(Key::Char(c), NONE, false), send(AppMsg::SetSort(key)));
        assert_eq!(keys, KeyController::new());
    }
    let mut keys = KeyController::new();
    keys.press(Key::Char('o'), NONE, false);
    assert_eq!(keys.press(Key::Char('j'), NONE, false), swallow());
    assert_eq!(keys.press(Key::Char('j'), NONE, false), send(AppMsg::NavMove(1)));
}

#[test]
fn g_waits_for_another_g() {
    let mut keys = KeyController::new();
    assert_eq!(keys.press(Key::Char('g'), NONE, false), swallow());
    assert_eq!(keys.press(Key::Char('g'), NONE, false), send(AppMsg::NavFirst));
    assert_eq!(keys.press(Key::Char('g'), NONE, false), swallow());
    assert_eq!(keys.press(Key::Char('o'), NONE, false), swallow());
    assert_eq!(keys, KeyController::new());
}

#[test]
fn control_copies_cuts_and_pastes() {
    for c in ['c', 'C'] {
        assert_eq!(
            KeyController::new().press(Key::Char(c), CONTROL, false),
            send(AppMsg::ClipboardCopy(ClipboardOp::Copy))
        );
    }
    for c in ['x', 'X'] {
        assert_eq!(
            KeyController::new().press(Key::Char(c), CONTROL, false),
            send(AppMsg::ClipboardCopy(ClipboardOp::Cut))
        );
    }
    for c in ['v', 'V'] {
        assert_eq!(
            KeyController::new().press(Key::Char(c), CONTROL, false),
            send(AppMsg::ClipboardPaste)
        );
    }
    let both = Held { control: true, alt: true, shift: false };
    assert_eq!(KeyController::new().press(Key::Char('c'), both, false), proceed());
}

#[test]
fn other_accelerators_pass_and_forget_nothing() {
    let mut keys = KeyController::new();
    keys.press(Key::Char('o'), NONE, false);
    assert_eq!(keys.press(Key::Char('h'), CONTROL, false), proceed());
    assert_eq!(keys.press(Key::Char('c'), CONTROL, false), send(AppMsg::ClipboardCopy(ClipboardOp::Copy)));
    assert_eq!(keys.press(Key::Char('t'), NONE, false), send(AppMsg::SetSort(SortKey::Type)));
}

#[test]
fn typing_keeps_its_keys_and_cancels_a_prefix() {
    let mut keys = KeyController::new();
    keys.press(Key::Char('g'), NONE, false);
    assert_eq!(keys.press(Key::Char('c'), CONTROL, true), proceed());
    assert_eq!(keys, KeyController::new());
    assert_eq!(keys.press(Key::Char('j'), NONE, true), proceed());
}
