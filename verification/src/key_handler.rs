//! Keys that peers hold down on this machine: which key of the wire is
//! which key to inject, and which keys are down and since when.

use crate::communicate::spec_elapsed;
use crate::filtering::{lemma_filter_members, lemma_filter_step};
use crate::input::{Direction, Key, KeyInput, KeyView, Keycode};
use crate::text::{chars_of, spells};
use vstd::prelude::*;
use vstd::string::*;

verus! {

/// Nanoseconds after which a key that was not refreshed counts as released:
/// 75 milliseconds.
pub const HOLD_TIMEOUT: u64 = 75_000_000;

/// What goes wrong when a key event is carried out.
#[derive(Debug, Clone, Copy, PartialEq, Eq, Structural)]
pub enum KeyError {
    /// The key has no counterpart among the keys that can be injected.
    TransformationError,
}

impl KeyError {
    /// The error in words.
    pub fn message(&self) -> (words: String)
        ensures
            words@ == "Was unable to transform a device_query key into an enigo key."@,
    {
        String::from_str("Was unable to transform a device_query key into an enigo key.")
    }
}

/// A key of the keyboard as it is injected.
#[derive(Debug, Clone, Copy, PartialEq, Eq, Structural)]
pub enum KeyboardKey {
    /// The key that gives the character on the layout in use.
    Layout(char),
    F1,
    F2,
    F3,
    F4,
    F5,
    F6,
    F7,
    F8,
    F9,
    F10,
    F11,
    F12,
    LControl,
    RControl,
    Space,
    Backspace,
    Meta,
    Escape,
    Return,
    UpArrow,
    DownArrow,
    LeftArrow,
    RightArrow,
    Alt,
    LShift,
    RShift,
    Tab,
}

/// A button of the mouse as it is injected.
#[derive(Debug, Clone, Copy, PartialEq, Eq, Structural)]
pub enum MouseButton {
    Left,
    Right,
    Middle,
    Back,
    Forward,
}

/// A key or button as it is injected.
#[derive(Debug, Clone, Copy, PartialEq, Eq, Structural)]
pub enum EnigoKey {
    KeyboardButton(KeyboardKey),
    MouseButton(MouseButton),
}

/// What is to be injected.
#[derive(Debug, Clone, Copy, PartialEq, Eq, Structural)]
pub enum KeyAction {
    KeyDown(KeyboardKey),
    KeyUp(KeyboardKey),
    MouseDown(MouseButton),
    MouseUp(MouseButton),
}

/// The button that a number of the wire stands for: the numbers from 1 to 5
/// stand for the left, right and middle button and for back and forward.
pub open spec fn spec_mouse_button(mouse_button: usize) -> Result<MouseButton, KeyError> {
    if mouse_button == 1 {
        Ok(MouseButton::Left)
    } else if mouse_button == 2 {
        Ok(MouseButton::Right)
    } else if mouse_button == 3 {
        Ok(MouseButton::Middle)
    } else if mouse_button == 4 {
        Ok(MouseButton::Back)
    } else if mouse_button == 5 {
        Ok(MouseButton::Forward)
    } else {
        Err(KeyError::TransformationError)
    }
}

/// The button to inject for a number of the wire: the numbers from 1 to 5
/// stand for the left, right and middle button and for back and forward.
pub fn mouse_button_to_enigo_mouse_button(mouse_button: usize) -> (r: Result<MouseButton, KeyError>)
    ensures
        r == spec_mouse_button(mouse_button),
{
    match mouse_button {
        1 => Ok(MouseButton::Left),
        2 => Ok(MouseButton::Right),
        3 => Ok(MouseButton::Middle),
        4 => Ok(MouseButton::Back),
        5 => Ok(MouseButton::Forward),
        _ => Err(KeyError::TransformationError),
    }
}

/// The small letter of a capital letter of the alphabet.
pub open spec fn spec_small(c: char) -> char {
    ((c as u8 + 32) as u8) as char
}

/// The function key of a number from 1 to 12.
pub open spec fn spec_function_key(number: int) -> Result<KeyboardKey, KeyError> {
    if number == 1 {
        Ok(KeyboardKey::F1)
    } else if number == 2 {
        Ok(KeyboardKey::F2)
    } else if number == 3 {
        Ok(KeyboardKey::F3)
    } else if number == 4 {
        Ok(KeyboardKey::F4)
    } else if number == 5 {
        Ok(KeyboardKey::F5)
    } else if number == 6 {
        Ok(KeyboardKey::F6)
    } else if number == 7 {
        Ok(KeyboardKey::F7)
    } else if number == 8 {
        Ok(KeyboardKey::F8)
    } else if number == 9 {
        Ok(KeyboardKey::F9)
    } else if number == 10 {
        Ok(KeyboardKey::F10)
    } else if number == 11 {
        Ok(KeyboardKey::F11)
    } else if number == 12 {
        Ok(KeyboardKey::F12)
    } else {
        Err(KeyError::TransformationError)
    }
}

/// The key to inject for a key that has a name of its own. No two names
/// give the same key: of the two keys that could stand for `Meta`, only the
/// left one has a counterpart.
pub open spec fn spec_named_key(name: Seq<char>) -> Result<KeyboardKey, KeyError> {
    if name == "LControl"@ {
        Ok(KeyboardKey::LControl)
    } else if name == "RControl"@ {
        Ok(KeyboardKey::RControl)
    } else if name == "Space"@ {
        Ok(KeyboardKey::Space)
    } else if name == "Backspace"@ {
        Ok(KeyboardKey::Backspace)
    } else if name == "LMeta"@ {
        Ok(KeyboardKey::Meta)
    } else if name == "Escape"@ {
        Ok(KeyboardKey::Escape)
    } else if name == "Enter"@ {
        Ok(KeyboardKey::Return)
    } else if name == "Up"@ {
        Ok(KeyboardKey::UpArrow)
    } else if name == "Down"@ {
        Ok(KeyboardKey::DownArrow)
    } else if name == "Left"@ {
        Ok(KeyboardKey::LeftArrow)
    } else if name == "Right"@ {
        Ok(KeyboardKey::RightArrow)
    } else if name == "LAlt"@ {
        Ok(KeyboardKey::Alt)
    } else if name == "LShift"@ {
        Ok(KeyboardKey::LShift)
    } else if name == "RShift"@ {
        Ok(KeyboardKey::RShift)
    } else if name == "Tab"@ {
        Ok(KeyboardKey::Tab)
    } else {
        Err(KeyError::TransformationError)
    }
}

/// The key to inject for a key of the keyboard, by its name: a capital
/// letter gives its small letter on the layout, `Key` with a digit gives
/// the digit, `F` with a number from 1 to 12 gives the function key, and
/// some keys have names of their own. Every other key has no counterpart.
pub open spec fn spec_keyboard_key(name: Seq<char>) -> Result<KeyboardKey, KeyError> {
    if name.len() == 1 && 'A' <= name[0] <= 'Z' {
        Ok(KeyboardKey::Layout(spec_small(name[0])))
    } else if name.len() == 4 && name[0] == 'K' && name[1] == 'e' && name[2] == 'y' && '0'
        <= name[3] <= '9' {
        Ok(KeyboardKey::Layout(name[3]))
    } else if name.len() == 2 && name[0] == 'F' && '1' <= name[1] <= '9' {
        spec_function_key(name[1] as int - '0' as int)
    } else if name.len() == 3 && name[0] == 'F' && name[1] == '1' && '0' <= name[2] <= '2' {
        spec_function_key(10 + (name[2] as int - '0' as int))
    } else {
        spec_named_key(name)
    }
}

/// The key or button to inject for a key of the wire.
pub open spec fn spec_enigo_key(key: KeyView) -> Result<EnigoKey, KeyError> {
    match key {
        KeyView::KeyCode(name) => match spec_keyboard_key(name) {
            Ok(found) => Ok(EnigoKey::KeyboardButton(found)),
            Err(e) => Err(e),
        },
        KeyView::MouseButton(index) => match spec_mouse_button(index) {
            Ok(found) => Ok(EnigoKey::MouseButton(found)),
            Err(e) => Err(e),
        },
    }
}

/// What is injected when the key or button goes down or comes up.
pub open spec fn spec_action(key: EnigoKey, direction: Direction) -> KeyAction {
    match (key, direction) {
        (EnigoKey::KeyboardButton(k), Direction::Down) => KeyAction::KeyDown(k),
        (EnigoKey::KeyboardButton(k), Direction::Up) => KeyAction::KeyUp(k),
        (EnigoKey::MouseButton(b), Direction::Down) => KeyAction::MouseDown(b),
        (EnigoKey::MouseButton(b), Direction::Up) => KeyAction::MouseUp(b),
    }
}

/// Two keys of the wire that are injected as the same key are the same key:
/// no two names of the keyboard and no two numbers of the mouse share a
/// counterpart. So the keys that are down can be told apart by their wire
/// keys as well as by the keys that are injected for them.
pub proof fn law_counterparts_differ(first: KeyView, second: KeyView)
    requires
        spec_enigo_key(first) is Ok,
        spec_enigo_key(first) == spec_enigo_key(second),
    ensures
        first == second,
{
    match (first, second) {
        (KeyView::KeyCode(a), KeyView::KeyCode(b)) => {
            assert(spec_keyboard_key(a) == spec_keyboard_key(b));
            if a.len() == 1 && 'A' <= a[0] <= 'Z' {
                assert(b.len() == 1 && 'A' <= b[0] <= 'Z');
                assert(a[0] == b[0]);
                assert(a =~= b);
            } else if a.len() == 4 && a[0] == 'K' && a[1] == 'e' && a[2] == 'y' && '0' <= a[3]
                <= '9' {
                assert(b.len() == 4);
                assert(a =~= b);
            } else if a.len() == 2 && a[0] == 'F' && '1' <= a[1] <= '9' {
                assert(b.len() == 2);
                assert(a =~= b);
            } else if a.len() == 3 && a[0] == 'F' && a[1] == '1' && '0' <= a[2] <= '2' {
                assert(b.len() == 3);
                assert(a =~= b);
            } else {
                assert(spec_named_key(a) == spec_named_key(b));
            }
        },
        (KeyView::MouseButton(a), KeyView::MouseButton(b)) => {},
        _ => {},
    }
}

fn function_key(number: u32) -> (r: Result<KeyboardKey, KeyError>)
    ensures
        r == spec_function_key(number as int),
{
    match number {
        1 => Ok(KeyboardKey::F1),
        2 => Ok(KeyboardKey::F2),
        3 => Ok(KeyboardKey::F3),
        4 => Ok(KeyboardKey::F4),
        5 => Ok(KeyboardKey::F5),
        6 => Ok(KeyboardKey::F6),
        7 => Ok(KeyboardKey::F7),
        8 => Ok(KeyboardKey::F8),
        9 => Ok(KeyboardKey::F9),
        10 => Ok(KeyboardKey::F10),
        11 => Ok(KeyboardKey::F11),
        12 => Ok(KeyboardKey::F12),
        _ => Err(KeyError::TransformationError),
    }
}

fn named_key(chars: &Vec<char>) -> (r: Result<KeyboardKey, KeyError>)
    ensures
        r == spec_named_key(chars@),
{
    let n = chars.len();
    proof {
        assert(chars@.subrange(0, n as int) =~= chars@);
    }
    if spells(chars, 0, n, "LControl") {
        Ok(KeyboardKey::LControl)
    } else if spells(chars, 0, n, "RControl") {
        Ok(KeyboardKey::RControl)
    } else if spells(chars, 0, n, "Space") {
        Ok(KeyboardKey::Space)
    } else if spells(chars, 0, n, "Backspace") {
        Ok(KeyboardKey::Backspace)
    } else if spells(chars, 0, n, "LMeta") {
        Ok(KeyboardKey::Meta)
    } else if spells(chars, 0, n, "Escape") {
        Ok(KeyboardKey::Escape)
    } else if spells(chars, 0, n, "Enter") {
        Ok(KeyboardKey::Return)
    } else if spells(chars, 0, n, "Up") {
        Ok(KeyboardKey::UpArrow)
    } else if spells(chars, 0, n, "Down") {
        Ok(KeyboardKey::DownArrow)
    } else if spells(chars, 0, n, "Left") {
        Ok(KeyboardKey::LeftArrow)
    } else if spells(chars, 0, n, "Right") {
        Ok(KeyboardKey::RightArrow)
    } else if spells(chars, 0, n, "LAlt") {
        Ok(KeyboardKey::Alt)
    } else if spells(chars, 0, n, "LShift") {
        Ok(KeyboardKey::LShift)
    } else if spells(chars, 0, n, "RShift") {
        Ok(KeyboardKey::RShift)
    } else if spells(chars, 0, n, "Tab") {
        Ok(KeyboardKey::Tab)
    } else {
        Err(KeyError::TransformationError)
    }
}

/// The key to inject for a key of the keyboard.
pub fn device_query_keycode_to_enigo_key(key: &Keycode) -> (r: Result<KeyboardKey, KeyError>)
    ensures
        r == spec_keyboard_key(key@),
{
    let chars = chars_of(key.name());
    let n = chars.len();
    if n == 1 && chars[0] >= 'A' && chars[0] <= 'Z' {
        Ok(KeyboardKey::Layout(((chars[0] as u8) + 32) as char))
    } else if n == 4 && chars[0] == 'K' && chars[1] == 'e' && chars[2] == 'y' && chars[3] >= '0'
        && chars[3] <= '9' {
        Ok(KeyboardKey::Layout(chars[3]))
    } else if n == 2 && chars[0] == 'F' && chars[1] >= '1' && chars[1] <= '9' {
        function_key(chars[1] as u32 - '0' as u32)
    } else if n == 3 && chars[0] == 'F' && chars[1] == '1' && chars[2] >= '0' && chars[2] <= '2' {
        function_key(10 + (chars[2] as u32 - '0' as u32))
    } else {
        named_key(&chars)
    }
}

/// The key or button to inject for a key of the wire.
pub fn enigo_key(key: &Key) -> (r: Result<EnigoKey, KeyError>)
    ensures
        r == spec_enigo_key(key@),
{
    match key {
        Key::KeyCode(code) => match device_query_keycode_to_enigo_key(code) {
            Ok(found) => Ok(EnigoKey::KeyboardButton(found)),
            Err(e) => Err(e),
        },
        Key::MouseButton(index) => match mouse_button_to_enigo_mouse_button(*index) {
            Ok(found) => Ok(EnigoKey::MouseButton(found)),
            Err(e) => Err(e),
        },
    }
}

/// What is injected when the key or button goes down or comes up.
pub fn action_for(key: EnigoKey, direction: Direction) -> (action: KeyAction)
    ensures
        action == spec_action(key, direction),
{
    match (key, direction) {
        (EnigoKey::KeyboardButton(k), Direction::Down) => KeyAction::KeyDown(k),
        (EnigoKey::KeyboardButton(k), Direction::Up) => KeyAction::KeyUp(k),
        (EnigoKey::MouseButton(b), Direction::Down) => KeyAction::MouseDown(b),
        (EnigoKey::MouseButton(b), Direction::Up) => KeyAction::MouseUp(b),
    }
}

/// A key that is down, and the clock reading, in nanoseconds, of its last
/// refresh.
pub struct HeldKey {
    pub key: KeyView,
    pub last_update: u64,
}

impl HeldKey {
    /// The key has not been refreshed for more than the hold timeout.
    pub open spec fn spec_expired(self, now: u64) -> bool {
        spec_elapsed(self.last_update, now) > HOLD_TIMEOUT
    }
}

/// The key is among the keys that are down.
pub open spec fn holds(held: Seq<HeldKey>, key: KeyView) -> bool {
    exists|i: int| 0 <= i < held.len() && (#[trigger] held[i]).key == key
}

/// No key is down twice.
pub open spec fn distinct_keys(held: Seq<HeldKey>) -> bool {
    forall|i: int, j: int|
        0 <= i < held.len() && 0 <= j < held.len() && (#[trigger] held[i]).key == (
        #[trigger] held[j]).key ==> i == j
}

/// The keys that are down, in the order in which they went down.
pub open spec fn keys_of(held: Seq<HeldKey>) -> Seq<KeyView> {
    held.map_values(|h: HeldKey| h.key)
}

/// The keys that are down after a Down for `key` at `now`: a key that is
/// down already is refreshed, another one joins at the end.
pub open spec fn pressed(held: Seq<HeldKey>, key: KeyView, now: u64) -> Seq<HeldKey> {
    if holds(held, key) {
        held.map_values(
            |h: HeldKey|
                if h.key == key {
                    HeldKey { key, last_update: now }
                } else {
                    h
                },
        )
    } else {
        held.push(HeldKey { key, last_update: now })
    }
}

/// The keys that are down after an Up for `key`.
pub open spec fn released(held: Seq<HeldKey>, key: KeyView) -> Seq<HeldKey> {
    held.filter(|h: HeldKey| h.key != key)
}

/// The keys that have expired at `now`.
pub open spec fn expired(held: Seq<HeldKey>, now: u64) -> Seq<HeldKey> {
    held.filter(|h: HeldKey| h.spec_expired(now))
}

/// The keys that have not expired at `now`.
pub open spec fn fresh(held: Seq<HeldKey>, now: u64) -> Seq<HeldKey> {
    held.filter(|h: HeldKey| !h.spec_expired(now))
}

/// The keys that are down after a key event, whatever its direction.
pub open spec fn after_event(
    held: Seq<HeldKey>,
    key: KeyView,
    direction: Direction,
    now: u64,
) -> Seq<HeldKey> {
    match direction {
        Direction::Down => pressed(held, key, now),
        Direction::Up => released(held, key),
    }
}

/// A key event is passed on: an Up always, a Down only for a key that is
/// not down already.
pub open spec fn forwards(held: Seq<HeldKey>, key: KeyView, direction: Direction) -> bool {
    match direction {
        Direction::Down => !holds(held, key),
        Direction::Up => true,
    }
}

/// Filtering keeps the keys distinct, and keeps no key that was not there.
pub proof fn lemma_filter_keys(held: Seq<HeldKey>, pred: spec_fn(HeldKey) -> bool)
    requires
        distinct_keys(held),
    ensures
        distinct_keys(held.filter(pred)),
        forall|i: int|
            0 <= i < held.filter(pred).len() ==> held.contains(#[trigger] held.filter(pred)[i]),
    decreases held.len(),
{
    reveal(Seq::filter);
    let out = held.filter(pred);
    assert forall|i: int| 0 <= i < out.len() implies held.contains(#[trigger] out[i]) by {
        lemma_filter_members(held, pred, out[i]);
        assert(out.contains(out[i]));
    }
    if held.len() > 0 {
        let rest = held.drop_last();
        let kept = rest.filter(pred);
        assert forall|i: int, j: int|
            0 <= i < rest.len() && 0 <= j < rest.len() && (#[trigger] rest[i]).key == (
            #[trigger] rest[j]).key implies i == j by {
            assert(rest[i] == held[i] && rest[j] == held[j]);
        }
        lemma_filter_keys(rest, pred);
        if pred(held.last()) {
            assert forall|i: int, j: int|
                0 <= i < out.len() && 0 <= j < out.len() && (#[trigger] out[i]).key == (
                #[trigger] out[j]).key implies i == j by {
                if i < kept.len() && j == kept.len() {
                    assert(rest.contains(kept[i]));
                    let k = choose|k: int| 0 <= k < rest.len() && rest[k] == kept[i];
                    assert(held[k].key == held[held.len() - 1].key);
                }
                if j < kept.len() && i == kept.len() {
                    assert(rest.contains(kept[j]));
                    let k = choose|k: int| 0 <= k < rest.len() && rest[k] == kept[j];
                    assert(held[k].key == held[held.len() - 1].key);
                }
            }
        }
    }
}

/// A Down keeps the keys distinct, and adds no key but its own.
pub proof fn lemma_pressed(held: Seq<HeldKey>, key: KeyView, now: u64)
    requires
        distinct_keys(held),
    ensures
        distinct_keys(pressed(held, key, now)),
        holds(pressed(held, key, now), key),
        forall|i: int|
            0 <= i < pressed(held, key, now).len() ==> (#[trigger] pressed(held, key, now)[i]).key
                == key || holds(held, pressed(held, key, now)[i].key),
{
    let out = pressed(held, key, now);
    if holds(held, key) {
        let k = choose|k: int| 0 <= k < held.len() && (#[trigger] held[k]).key == key;
        assert(out[k].key == key);
        assert forall|i: int, j: int|
            0 <= i < out.len() && 0 <= j < out.len() && (#[trigger] out[i]).key == (
            #[trigger] out[j]).key implies i == j by {
            assert(out[i].key == held[i].key);
            assert(out[j].key == held[j].key);
        }
        assert forall|i: int| 0 <= i < out.len() implies (#[trigger] out[i]).key == key || holds(
            held,
            out[i].key,
        ) by {
            assert(held[i].key == out[i].key);
        }
    } else {
        assert(out[held.len() as int].key == key);
        assert forall|i: int, j: int|
            0 <= i < out.len() && 0 <= j < out.len() && (#[trigger] out[i]).key == (
            #[trigger] out[j]).key implies i == j by {
            if i < held.len() {
                assert(out[i] == held[i]);
            }
            if j < held.len() {
                assert(out[j] == held[j]);
            }
        }
        assert forall|i: int| 0 <= i < out.len() implies (#[trigger] out[i]).key == key || holds(
            held,
            out[i].key,
        ) by {
            if i < held.len() {
                assert(held[i].key == out[i].key);
            }
        }
    }
}

/// A Down for a key that is down already changes no key and no place: the
/// same keys are down, in the same order, and only the time of that key's
/// last refresh is new.
pub proof fn law_repeated_down(held: Seq<HeldKey>, key: KeyView, now: u64)
    requires
        holds(held, key),
    ensures
        keys_of(pressed(held, key, now)) == keys_of(held),
        !forwards(held, key, Direction::Down),
        forall|i: int|
            0 <= i < held.len() ==> #[trigger] pressed(held, key, now)[i] == (if held[i].key
                == key {
                HeldKey { key, last_update: now }
            } else {
                held[i]
            }),
        forall|other: KeyView| holds(pressed(held, key, now), other) <==> holds(held, other),
{
    let out = pressed(held, key, now);
    assert(keys_of(out) =~= keys_of(held));
    assert forall|other: KeyView| holds(out, other) <==> holds(held, other) by {
        if holds(out, other) {
            let i = choose|i: int| 0 <= i < out.len() && (#[trigger] out[i]).key == other;
            assert(held[i].key == other);
        }
        if holds(held, other) {
            let i = choose|i: int| 0 <= i < held.len() && (#[trigger] held[i]).key == other;
            assert(out[i].key == other);
        }
    }
}

/// A key that is not refreshed is given up after the hold timeout: from
/// then on it is among the keys that have expired, and no longer among
/// those that are kept.
pub proof fn law_expiry(held: Seq<HeldKey>, entry: HeldKey, now: u64)
    requires
        held.contains(entry),
    ensures
        spec_elapsed(entry.last_update, now) > HOLD_TIMEOUT ==> expired(held, now).contains(entry)
            && !fresh(held, now).contains(entry),
        spec_elapsed(entry.last_update, now) <= HOLD_TIMEOUT ==> fresh(held, now).contains(entry)
            && !expired(held, now).contains(entry),
{
    lemma_filter_members(held, |h: HeldKey| h.spec_expired(now), entry);
    lemma_filter_members(held, |h: HeldKey| !h.spec_expired(now), entry);
}

/// A key that is down, with the time of its last refresh.
#[derive(Debug)]
pub struct LivePressedKey {
    key: Key,
    last_update: u64,
}

impl View for LivePressedKey {
    type V = HeldKey;

    closed spec fn view(&self) -> HeldKey {
        HeldKey { key: self.key@, last_update: self.last_update }
    }
}

impl LivePressedKey {
    /// A key that went down at `now`.
    pub fn new(key: Key, now: u64) -> (entry: LivePressedKey)
        ensures
            entry@ == (HeldKey { key: key@, last_update: now }),
    {
        LivePressedKey { key, last_update: now }
    }

    /// Records that the key was refreshed at `now`.
    pub fn update(&mut self, now: u64)
        ensures
            final(self)@ == (HeldKey { key: old(self)@.key, last_update: now }),
    {
        self.last_update = now;
    }

    /// The key has not been refreshed for more than the hold timeout.
    pub fn expired(&self, now: u64) -> (gone: bool)
        ensures
            gone == self@.spec_expired(now),
    {
        if now >= self.last_update {
            now - self.last_update > HOLD_TIMEOUT
        } else {
            false
        }
    }
}

/// The keys behind a list of entries.
pub open spec fn held_keys(entries: Seq<LivePressedKey>) -> Seq<HeldKey> {
    entries.map_values(|e: LivePressedKey| e@)
}

/// The place of a key among the entries.
fn position(entries: &Vec<LivePressedKey>, key: &Key) -> (place: Option<usize>)
    ensures
        match place {
            Some(index) => index < entries.len() && held_keys(entries@)[index as int].key == key@,
            None => !holds(held_keys(entries@), key@),
        },
{
    let mut index: usize = 0;
    while index < entries.len()
        invariant
            index <= entries.len(),
            forall|i: int| 0 <= i < index ==> (#[trigger] held_keys(entries@)[i]).key != key@,
        decreases entries.len() - index,
    {
        if entries[index].key.same_as(key) {
            return Some(index);
        }
        index = index + 1;
    }
    None
}

/// The keys that peers hold down, with the time of each key's last refresh.
#[derive(Debug)]
pub struct KeysManager {
    pressed_keys: Vec<LivePressedKey>,
}

impl View for KeysManager {
    type V = Seq<HeldKey>;

    closed spec fn view(&self) -> Seq<HeldKey> {
        held_keys(self.pressed_keys@)
    }
}

impl KeysManager {
    #[verifier::type_invariant]
    spec fn inv(self) -> bool {
        distinct_keys(self@)
    }

    /// A manager with no key down.
    pub fn new() -> (manager: KeysManager)
        ensures
            manager@ == Seq::<HeldKey>::empty(),
    {
        let manager = KeysManager { pressed_keys: Vec::new() };
        proof {
            assert(manager@ =~= Seq::<HeldKey>::empty());
        }
        manager
    }

    /// The key is down.
    pub fn is_held(&self, key: &Key) -> (held: bool)
        ensures
            held == holds(self@, key@),
    {
        position(&self.pressed_keys, key).is_some()
    }

    /// How many keys are down.
    pub fn len(&self) -> (count: usize)
        ensures
            count == self@.len(),
    {
        self.pressed_keys.len()
    }

    /// Takes in a key event that came at `now` and says whether it is to be
    /// passed on. A Down for a key that is not down adds the key and is
    /// passed on; a Down for a key that is down only refreshes it. An Up
    /// takes the key away and is always passed on.
    pub fn received_key_update(&mut self, key: &Key, direction: &Direction, now: u64) -> (forward:
        bool)
        ensures
            final(self)@ == after_event(old(self)@, key@, *direction, now),
            forward == forwards(old(self)@, key@, *direction),
            distinct_keys(final(self)@),
    {
        proof {
            use_type_invariant(&*self);
        }
        let ghost before = self@;
        let mut entries: Vec<LivePressedKey> = Vec::new();
        std::mem::swap(&mut entries, &mut self.pressed_keys);
        proof {
            assert(held_keys(self.pressed_keys@) =~= Seq::<HeldKey>::empty());
        }
        match direction {
            Direction::Down => {
                proof {
                    lemma_pressed(before, key@, now);
                }
                match position(&entries, key) {
                    Some(index) => {
                        let mut entry = entries.remove(index);
                        entry.update(now);
                        entries.insert(index, entry);
                        proof {
                            let ghost now_held = held_keys(entries@);
                            assert forall|i: int|
                                0 <= i < before.len() implies #[trigger] now_held[i] == pressed(
                                before,
                                key@,
                                now,
                            )[i] by {
                                if i != index {
                                    assert(before[i].key != before[index as int].key);
                                }
                            }
                            assert(held_keys(entries@) =~= pressed(before, key@, now));
                        }
                        self.pressed_keys = entries;
                        false
                    },
                    None => {
                        entries.push(LivePressedKey::new(key.duplicate(), now));
                        proof {
                            assert(held_keys(entries@) =~= pressed(before, key@, now));
                        }
                        self.pressed_keys = entries;
                        true
                    },
                }
            },
            Direction::Up => {
                let ghost pred = |h: HeldKey| h.key != key@;
                let mut index: usize = 0;
                let ghost mut done: int = 0;
                proof {
                    reveal(Seq::filter);
                    assert(before.take(0) =~= Seq::<HeldKey>::empty());
                    assert(before.skip(0) =~= before);
                    assert(before.take(0).filter(pred) + before.skip(0) =~= before);
                }
                while index < entries.len()
                    invariant
                        0 <= done <= before.len(),
                        index == before.take(done).filter(pred).len(),
                        held_keys(entries@) == before.take(done).filter(pred) + before.skip(done),
                        pred == |h: HeldKey| h.key != key@,
                    decreases before.len() - done,
                {
                    proof {
                        assert(held_keys(entries@)[index as int] == before[done]);
                        lemma_filter_step(before, pred, done);
                    }
                    if !entries[index].key.same_as(key) {
                        proof {
                            assert(before.take(done + 1).filter(pred) + before.skip(done + 1)
                                =~= before.take(done).filter(pred) + before.skip(done));
                        }
                        index = index + 1;
                    } else {
                        let ghost rows = held_keys(entries@);
                        entries.remove(index);
                        proof {
                            assert(held_keys(entries@) =~= rows.remove(index as int));
                            assert(rows.remove(index as int) =~= before.take(done + 1).filter(pred)
                                + before.skip(done + 1));
                        }
                    }
                    proof {
                        done = done + 1;
                    }
                }
                proof {
                    assert(done == before.len()) by {
                        assert(held_keys(entries@).len() == index + before.skip(done).len());
                    }
                    assert(before.take(done) =~= before);
                    assert(held_keys(entries@) =~= released(before, key@));
                    lemma_filter_keys(before, pred);
                }
                self.pressed_keys = entries;
                true
            },
        }
    }

    /// Gives up the keys that have expired at `now` and returns them, in
    /// the order in which they went down.
    pub fn time_update(&mut self, now: u64) -> (release_keys: Vec<Key>)
        ensures
            final(self)@ == fresh(old(self)@, now),
            release_keys@.map_values(|k: Key| k@) == keys_of(expired(old(self)@, now)),
            distinct_keys(final(self)@),
    {
        proof {
            use_type_invariant(&*self);
        }
        let ghost before = self@;
        let ghost keep = |h: HeldKey| !h.spec_expired(now);
        let ghost gone = |h: HeldKey| h.spec_expired(now);
        let mut entries: Vec<LivePressedKey> = Vec::new();
        std::mem::swap(&mut entries, &mut self.pressed_keys);
        let mut release_keys: Vec<Key> = Vec::new();
        let mut index: usize = 0;
        let ghost mut done: int = 0;
        proof {
            reveal(Seq::filter);
            assert(held_keys(self.pressed_keys@) =~= Seq::<HeldKey>::empty());
            assert(before.take(0) =~= Seq::<HeldKey>::empty());
            assert(before.skip(0) =~= before);
            assert(before.take(0).filter(keep) + before.skip(0) =~= before);
            assert(release_keys@.map_values(|k: Key| k@) =~= keys_of(before.take(0).filter(gone)));
        }
        while index < entries.len()
            invariant
                0 <= done <= before.len(),
                index == before.take(done).filter(keep).len(),
                held_keys(entries@) == before.take(done).filter(keep) + before.skip(done),
                release_keys@.map_values(|k: Key| k@) == keys_of(before.take(done).filter(gone)),
                keep == |h: HeldKey| !h.spec_expired(now),
                gone == |h: HeldKey| h.spec_expired(now),
            decreases before.len() - done,
        {
            proof {
                assert(held_keys(entries@)[index as int] == before[done]);
                lemma_filter_step(before, keep, done);
                lemma_filter_step(before, gone, done);
            }
            if !entries[index].expired(now) {
                proof {
                    assert(before.take(done + 1).filter(keep) + before.skip(done + 1)
                        =~= before.take(done).filter(keep) + before.skip(done));
                }
                index = index + 1;
            } else {
                let ghost rows = held_keys(entries@);
                let ghost names = release_keys@.map_values(|k: Key| k@);
                let entry = entries.remove(index);
                release_keys.push(entry.key);
                proof {
                    assert(held_keys(entries@) =~= rows.remove(index as int));
                    assert(rows.remove(index as int) =~= before.take(done + 1).filter(keep)
                        + before.skip(done + 1));
                    assert(release_keys@.map_values(|k: Key| k@) =~= names.push(before[done].key));
                    assert(keys_of(before.take(done + 1).filter(gone)) =~= names.push(
                        before[done].key,
                    ));
                }
            }
            proof {
                done = done + 1;
            }
        }
        proof {
            assert(done == before.len()) by {
                assert(held_keys(entries@).len() == index + before.skip(done).len());
            }
            assert(before.take(done) =~= before);
            assert(held_keys(entries@) =~= fresh(before, now));
            lemma_filter_keys(before, keep);
        }
        self.pressed_keys = entries;
        release_keys
    }
}

/// Every key that is down has a counterpart among the keys that can be
/// injected.
pub open spec fn all_injectable(held: Seq<HeldKey>) -> bool {
    forall|i: int| 0 <= i < held.len() ==> spec_enigo_key((#[trigger] held[i]).key) is Ok
}

/// What is injected to release a key.
pub open spec fn release_of(key: KeyView) -> KeyAction {
    spec_action(spec_enigo_key(key)->Ok_0, Direction::Up)
}

/// Carries out the key events of peers on this machine: finds the key to
/// inject, keeps track of the keys that are down, and releases those that a
/// peer has stopped refreshing.
#[derive(Debug)]
pub struct Handler {
    keys_manager: KeysManager,
}

impl View for Handler {
    type V = Seq<HeldKey>;

    closed spec fn view(&self) -> Seq<HeldKey> {
        self.keys_manager@
    }
}

impl Handler {
    #[verifier::type_invariant]
    spec fn inv(self) -> bool {
        all_injectable(self@)
    }

    /// A handler with no key down.
    pub fn new() -> (handler: Handler)
        ensures
            handler@ == Seq::<HeldKey>::empty(),
    {
        Handler { keys_manager: KeysManager::new() }
    }

    /// The key is down.
    pub fn is_held(&self, key: &Key) -> (held: bool)
        ensures
            held == holds(self@, key@),
    {
        self.keys_manager.is_held(key)
    }

    /// Takes in a key event that came from a peer at `now`, and says what
    /// is to be injected for it. A key without a counterpart is refused and
    /// changes nothing. Otherwise the event is taken in as the keys manager
    /// does, and is injected where the manager passes it on.
    pub fn received_key(&mut self, key_input: KeyInput, now: u64) -> (r: Result<
        Option<KeyAction>,
        KeyError,
    >)
        ensures
            match spec_enigo_key(key_input@.key) {
                Err(e) => r == Err::<Option<KeyAction>, KeyError>(e) && final(self)@ == old(self)@,
                Ok(found) => final(self)@ == after_event(
                    old(self)@,
                    key_input@.key,
                    key_input@.direction,
                    now,
                ) && r == Ok::<Option<KeyAction>, KeyError>(
                    if forwards(old(self)@, key_input@.key, key_input@.direction) {
                        Some(spec_action(found, key_input@.direction))
                    } else {
                        None
                    },
                ),
            },
            all_injectable(final(self)@),
    {
        proof {
            use_type_invariant(&*self);
        }
        let found = match enigo_key(&key_input.key) {
            Ok(found) => found,
            Err(e) => {
                return Err(e);
            },
        };
        let ghost before = self@;
        let mut manager = KeysManager::new();
        std::mem::swap(&mut manager, &mut self.keys_manager);
        proof {
            use_type_invariant(&manager);
        }
        let forward = manager.received_key_update(&key_input.key, &key_input.direction, now);
        proof {
            let after = manager@;
            match key_input.direction {
                Direction::Down => {
                    lemma_pressed(before, key_input@.key, now);
                    assert forall|i: int| 0 <= i < after.len() implies spec_enigo_key(
                        (#[trigger] after[i]).key,
                    ) is Ok by {
                        if after[i].key != key_input@.key {
                            let k = choose|k: int|
                                0 <= k < before.len() && (#[trigger] before[k]).key == after[i].key;
                        }
                    }
                },
                Direction::Up => {
                    lemma_filter_keys(before, |h: HeldKey| h.key != key_input@.key);
                    assert forall|i: int| 0 <= i < after.len() implies spec_enigo_key(
                        (#[trigger] after[i]).key,
                    ) is Ok by {
                        assert(before.contains(after[i]));
                        let k = choose|k: int| 0 <= k < before.len() && before[k] == after[i];
                        assert(spec_enigo_key(before[k].key) is Ok);
                    }
                },
            }
        }
        self.keys_manager = manager;
        if forward {
            Ok(Some(action_for(found, key_input.direction)))
        } else {
            Ok(None)
        }
    }

    /// Gives up the keys that have expired at `now`, and says what is to be
    /// injected to release them.
    pub fn timed_update(&mut self, now: u64) -> (releases: Vec<KeyAction>)
        ensures
            final(self)@ == fresh(old(self)@, now),
            releases@ == expired(old(self)@, now).map_values(|h: HeldKey| release_of(h.key)),
            all_injectable(final(self)@),
    {
        proof {
            use_type_invariant(&*self);
        }
        let ghost before = self@;
        let mut manager = KeysManager::new();
        std::mem::swap(&mut manager, &mut self.keys_manager);
        proof {
            use_type_invariant(&manager);
        }
        let release = manager.time_update(now);
        let ghost gone = expired(before, now);
        proof {
            let after = manager@;
            lemma_filter_keys(before, |h: HeldKey| !h.spec_expired(now));
            lemma_filter_keys(before, |h: HeldKey| h.spec_expired(now));
            assert forall|i: int| 0 <= i < after.len() implies spec_enigo_key(
                (#[trigger] after[i]).key,
            ) is Ok by {
                assert(before.contains(after[i]));
                let k = choose|k: int| 0 <= k < before.len() && before[k] == after[i];
                assert(spec_enigo_key(before[k].key) is Ok);
            }
            assert forall|i: int| 0 <= i < gone.len() implies spec_enigo_key(
                (#[trigger] gone[i]).key,
            ) is Ok by {
                assert(before.contains(gone[i]));
                let k = choose|k: int| 0 <= k < before.len() && before[k] == gone[i];
                assert(spec_enigo_key(before[k].key) is Ok);
            }
        }
        self.keys_manager = manager;
        let mut releases: Vec<KeyAction> = Vec::new();
        let mut index: usize = 0;
        proof {
            assert(release@.map_values(|k: Key| k@).len() == keys_of(gone).len());
        }
        while index < release.len()
            invariant
                index <= release.len(),
                release.len() == gone.len(),
                release@.map_values(|k: Key| k@) == keys_of(gone),
                all_injectable(gone),
                releases@ == gone.take(index as int).map_values(|h: HeldKey| release_of(h.key)),
            decreases release.len() - index,
        {
            proof {
                assert(release@.map_values(|k: Key| k@)[index as int]
                    == keys_of(gone)[index as int]);
                assert(spec_enigo_key(gone[index as int].key) is Ok);
            }
            match enigo_key(&release[index]) {
                Ok(found) => {
                    releases.push(action_for(found, Direction::Up));
                },
                Err(_) => {},
            }
            proof {
                assert(gone.take(index + 1) =~= gone.take(index as int).push(gone[index as int]));
                assert(releases@ =~= gone.take(index + 1).map_values(
                    |h: HeldKey| release_of(h.key),
                ));
            }
            index = index + 1;
        }
        proof {
            assert(release@.map_values(|k: Key| k@).len() == keys_of(gone).len());
            assert(gone.take(gone.len() as int) =~= gone);
        }
        releases
    }
}

} // verus!
