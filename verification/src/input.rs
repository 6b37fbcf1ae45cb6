//! Pointer samples and key events as plain values, and the way they are
//! written in frames.

use crate::address::SocketAddrV4;
use crate::display::{Client, DisplayManager};
use crate::filtering::{lemma_filter_no_duplicates, lemma_filter_step};
use crate::mouse_handler::Handler as MouseHandler;
use crate::protocol::{Fault, ProtocolError};
use crate::topology::Topology;
use crate::text::{
    chars_of, decimal_nat, find_from, first_segment, has_second_segment, parse_unsigned,
    push_decimal, read_unsigned, second_segment, slice_text, spells, unsigned_fault, IntFault,
};
use vstd::prelude::*;
use vstd::string::*;

verus! {

/// A pointer position in whole pixels.
#[derive(Debug, Clone, Copy, PartialEq, Eq, Structural)]
pub struct MousePosition {
    pub x: i32,
    pub y: i32,
}

/// A pointer displacement in whole pixels.
#[derive(Debug, Clone, Copy, PartialEq, Eq, Structural)]
pub struct MouseMovement {
    pub x: i32,
    pub y: i32,
}

impl MousePosition {
    /// The position moved by the displacement, where that stays within the
    /// range of positions.
    pub open spec fn spec_add(self, rhs: MouseMovement) -> Option<MousePosition> {
        if i32::MIN <= self.x + rhs.x <= i32::MAX && i32::MIN <= self.y + rhs.y <= i32::MAX {
            Some(MousePosition { x: (self.x + rhs.x) as i32, y: (self.y + rhs.y) as i32 })
        } else {
            None
        }
    }

    /// The position moved against the displacement, where that stays within
    /// the range of positions.
    pub open spec fn spec_sub(self, rhs: MouseMovement) -> Option<MousePosition> {
        if i32::MIN <= self.x - rhs.x <= i32::MAX && i32::MIN <= self.y - rhs.y <= i32::MAX {
            Some(MousePosition { x: (self.x - rhs.x) as i32, y: (self.y - rhs.y) as i32 })
        } else {
            None
        }
    }

    /// Moves the position by the displacement.
    pub fn add(self, rhs: MouseMovement) -> (moved: Option<MousePosition>)
        ensures
            moved == self.spec_add(rhs),
    {
        match (self.x.checked_add(rhs.x), self.y.checked_add(rhs.y)) {
            (Some(x), Some(y)) => Some(MousePosition { x, y }),
            _ => None,
        }
    }

    /// Moves the position against the displacement.
    pub fn sub(self, rhs: MouseMovement) -> (moved: Option<MousePosition>)
        ensures
            moved == self.spec_sub(rhs),
    {
        match (self.x.checked_sub(rhs.x), self.y.checked_sub(rhs.y)) {
            (Some(x), Some(y)) => Some(MousePosition { x, y }),
            _ => None,
        }
    }
}

/// Whether a key or button goes down or comes up.
#[derive(Debug, Clone, Copy, PartialEq, Eq, Structural)]
pub enum Direction {
    Up,
    Down,
}

impl Direction {
    /// The word for the direction in a frame.
    pub open spec fn spec_text(self) -> Seq<char> {
        match self {
            Direction::Down => "down"@,
            Direction::Up => "up"@,
        }
    }

    /// The direction that a word of a frame names, or why it names none.
    pub open spec fn spec_try_from(word: Seq<char>) -> Result<Direction, Fault> {
        if word == "down"@ {
            Ok(Direction::Down)
        } else if word == "up"@ {
            Ok(Direction::Up)
        } else {
            Err(
                Fault::Parser {
                    parser: "Key direction"@,
                    message: "Key direction could not be parsed"@,
                },
            )
        }
    }

    /// The word for the direction in a frame.
    pub fn text(&self) -> (word: &'static str)
        ensures
            word@ == self.spec_text(),
    {
        match self {
            Direction::Down => "down",
            Direction::Up => "up",
        }
    }

    /// Reads a direction from a word of a frame.
    pub fn try_from(value: &str) -> (r: Result<Direction, ProtocolError>)
        ensures
            match r {
                Ok(direction) => Direction::spec_try_from(value@) == Ok::<Direction, Fault>(
                    direction,
                ),
                Err(e) => Direction::spec_try_from(value@) == Err::<Direction, Fault>(e@),
            },
    {
        let chars = chars_of(value);
        proof {
            assert(chars@.subrange(0, chars.len() as int) =~= value@);
        }
        if spells(&chars, 0, chars.len(), "down") {
            Ok(Direction::Down)
        } else if spells(&chars, 0, chars.len(), "up") {
            Ok(Direction::Up)
        } else {
            Err(
                ProtocolError::ParserError(
                    "Key direction",
                    String::from_str("Key direction could not be parsed"),
                ),
            )
        }
    }
}

/// No bar stands in the text.
pub open spec fn bar_free(s: Seq<char>) -> bool {
    forall|i: int| 0 <= i < s.len() ==> #[trigger] s[i] != '|'
}

/// The words with which a name is refused as the name of a keyboard key;
/// there are none for a name that is one.
pub uninterp spec fn keycode_fault(name: Seq<char>) -> Option<Seq<char>>;

/// `Keycode::from_str` of `device_query`: looks a name up among the keys
/// that the crate knows and hands back the words of its refusal, or nothing
/// where it knows the name. What it returns depends on the name alone, and
/// none of the names that the crate knows holds a bar.
#[verifier::external_body]
fn keycode_lookup(name: &str) -> (fault: Option<String>)
    ensures
        match fault {
            Some(words) => keycode_fault(name@) == Some(words@),
            None => keycode_fault(name@) is None && bar_free(name@),
        },
{
    match <device_query::Keycode as std::str::FromStr>::from_str(name) {
        Ok(_) => None,
        Err(words) => Some(words),
    }
}

/// A key of the keyboard, known by the name under which the input source
/// reports it.
#[derive(Debug, PartialEq, Eq)]
pub struct Keycode {
    name: String,
}

impl View for Keycode {
    type V = Seq<char>;

    closed spec fn view(&self) -> Seq<char> {
        self.name@
    }
}

impl Keycode {
    #[verifier::type_invariant]
    spec fn inv(self) -> bool {
        keycode_fault(self.name@) is None && bar_free(self.name@)
    }

    /// The key of the given name; the words of the refusal where there is
    /// no such key.
    pub fn from_name(name: &str) -> (r: Result<Keycode, String>)
        ensures
            match r {
                Ok(code) => keycode_fault(name@) is None && code@ == name@,
                Err(words) => keycode_fault(name@) == Some(words@),
            },
    {
        match keycode_lookup(name) {
            None => Ok(Keycode { name: String::from_str(name) }),
            Some(words) => Err(words),
        }
    }

    /// The key's name.
    pub fn name(&self) -> (name: &str)
        ensures
            name@ == self@,
            keycode_fault(name@) is None,
            bar_free(name@),
    {
        proof {
            use_type_invariant(&*self);
        }
        self.name.as_str()
    }

    /// The two are the same key.
    pub fn same_as(&self, other: &Keycode) -> (same: bool)
        ensures
            same == (self@ == other@),
    {
        self.name == other.name
    }

    /// A copy of the key.
    pub fn duplicate(&self) -> (copy: Keycode)
        ensures
            copy@ == self@,
    {
        proof {
            use_type_invariant(&*self);
        }
        Keycode { name: self.name.clone() }
    }
}

impl Clone for Keycode {
    fn clone(&self) -> (copy: Keycode)
        ensures
            copy@ == self@,
    {
        self.duplicate()
    }
}

/// A key as a value: a keyboard key by its name, a mouse button by its
/// number.
pub enum KeyView {
    KeyCode(Seq<char>),
    MouseButton(usize),
}

impl KeyView {
    /// A keyboard key carries a name that the input source knows, and such
    /// a name holds no bar.
    pub open spec fn wf(self) -> bool {
        match self {
            KeyView::KeyCode(name) => keycode_fault(name) is None && bar_free(name),
            KeyView::MouseButton(_) => true,
        }
    }

    /// The key as it is written in a frame.
    pub open spec fn spec_text(self) -> Seq<char> {
        match self {
            KeyView::KeyCode(name) => seq!['K', '_'] + name,
            KeyView::MouseButton(index) => seq!['M', '_'] + decimal_nat(index as nat),
        }
    }

    /// The key that a piece of a frame names, or why it names none.
    pub open spec fn spec_try_from(word: Seq<char>) -> Result<KeyView, Fault> {
        if word.len() >= 2 && word[0] == 'K' && word[1] == '_' {
            match keycode_fault(word.skip(2)) {
                None => Ok(KeyView::KeyCode(word.skip(2))),
                Some(words) => Err(
                    Fault::Parser {
                        parser: "Key Parser"@,
                        message: "Unable to get key for: "@ + word.skip(2) + ". Error: "@ + words,
                    },
                ),
            }
        } else if word.len() >= 2 && word[0] == 'M' && word[1] == '_' {
            match unsigned_fault(word.skip(2), usize::MAX as int) {
                None => Ok(
                    KeyView::MouseButton(
                        parse_unsigned(word.skip(2), usize::MAX as int)->0 as usize,
                    ),
                ),
                Some(fault) => Err(
                    Fault::Parser {
                        parser: "Key Parser"@,
                        message: "Unable to get mouse button for: "@ + word.skip(2)
                            + ". Error: "@ + fault.spec_text(),
                    },
                ),
            }
        } else {
            Err(
                Fault::Parser {
                    parser: "Key Parser"@,
                    message: "Key does not start with a known prefix"@,
                },
            )
        }
    }
}

/// The words with which a name is refused as the name of a keyboard key:
/// the name, and the input source's own words.
pub fn unknown_key_message(name: &str, words: &str) -> (message: String)
    ensures
        message@ == "Unable to get key for: "@ + name@ + ". Error: "@ + words@,
{
    String::from_str("Unable to get key for: ").concat(name).concat(". Error: ").concat(words)
}

/// The words with which a text is refused as the number of a mouse button:
/// the text, and why it is no number.
pub fn unknown_button_message(text: &str, fault: IntFault) -> (message: String)
    ensures
        message@ == "Unable to get mouse button for: "@ + text@ + ". Error: "@ + fault.spec_text(),
{
    String::from_str("Unable to get mouse button for: ").concat(text).concat(". Error: ").concat(
        fault.text(),
    )
}

/// A key of the keyboard or a button of the mouse.
#[derive(Debug, Clone, PartialEq, Eq)]
pub enum Key {
    KeyCode(Keycode),
    MouseButton(usize),
}

impl View for Key {
    type V = KeyView;

    open spec fn view(&self) -> KeyView {
        match self {
            Key::KeyCode(code) => KeyView::KeyCode(code@),
            Key::MouseButton(index) => KeyView::MouseButton(*index),
        }
    }
}

impl Key {
    /// The two are the same key.
    pub fn same_as(&self, other: &Key) -> (same: bool)
        ensures
            same == (self@ == other@),
    {
        match (self, other) {
            (Key::KeyCode(a), Key::KeyCode(b)) => a.same_as(b),
            (Key::MouseButton(a), Key::MouseButton(b)) => *a == *b,
            _ => false,
        }
    }

    /// A copy of the key.
    pub fn duplicate(&self) -> (copy: Key)
        ensures
            copy@ == self@,
    {
        match self {
            Key::KeyCode(code) => Key::KeyCode(code.duplicate()),
            Key::MouseButton(index) => Key::MouseButton(*index),
        }
    }

    /// The key as it is written in a frame. Every key that exists is well
    /// formed.
    pub fn text(&self) -> (word: String)
        ensures
            word@ == self@.spec_text(),
            self@.wf(),
    {
        match self {
            Key::KeyCode(code) => {
                proof {
                    reveal_strlit("K_");
                }
                let word = String::from_str("K_").concat(code.name());
                proof {
                    assert(word@ =~= self@.spec_text());
                }
                word
            },
            Key::MouseButton(index) => {
                proof {
                    reveal_strlit("M_");
                }
                let mut word = String::from_str("M_");
                push_decimal(&mut word, *index as u64);
                proof {
                    assert(word@ =~= self@.spec_text());
                }
                word
            },
        }
    }

    /// Reads a key from a word of a frame.
    pub fn try_from(value: &str) -> (r: Result<Key, ProtocolError>)
        ensures
            match r {
                Ok(key) => KeyView::spec_try_from(value@) == Ok::<KeyView, Fault>(key@)
                    && key@.wf(),
                Err(e) => KeyView::spec_try_from(value@) == Err::<KeyView, Fault>(e@),
            },
    {
        let chars = chars_of(value);
        let length = chars.len();
        proof {
            if length >= 2 {
                assert(value@.skip(2) =~= chars@.subrange(2, length as int));
            }
        }
        if length >= 2 && chars[0] == 'K' && chars[1] == '_' {
            let cut_text = slice_text(value, 2, length);
            match Keycode::from_name(cut_text.as_str()) {
                Ok(code) => {
                    proof {
                        use_type_invariant(&code);
                    }
                    Ok(Key::KeyCode(code))
                },
                Err(words) => Err(
                    ProtocolError::ParserError(
                        "Key Parser",
                        unknown_key_message(cut_text.as_str(), words.as_str()),
                    ),
                ),
            }
        } else if length >= 2 && chars[0] == 'M' && chars[1] == '_' {
            proof {
                crate::text::lemma_unsigned_fault(value@.skip(2), usize::MAX as int);
            }
            match read_unsigned(&chars, 2, length, usize::MAX as u64) {
                Ok(index) => Ok(Key::MouseButton(index as usize)),
                Err(fault) => {
                    let cut_text = slice_text(value, 2, length);
                    Err(
                        ProtocolError::ParserError(
                            "Key Parser",
                            unknown_button_message(cut_text.as_str(), fault),
                        ),
                    )
                },
            }
        } else {
            Err(
                ProtocolError::ParserError(
                    "Key Parser",
                    String::from_str("Key does not start with a known prefix"),
                ),
            )
        }
    }
}

/// A key event as a value.
pub struct KeyInputView {
    pub key: KeyView,
    pub direction: Direction,
}

impl KeyInputView {
    /// The event as it is written in a frame, after the frame's first
    /// character.
    pub open spec fn spec_text(self) -> Seq<char> {
        self.direction.spec_text() + seq!['|'] + self.key.spec_text()
    }

    /// The key event that the rest of a frame describes, or why it describes
    /// none: its first two pieces, set apart by bars, name the direction and
    /// the key.
    pub open spec fn spec_try_from(body: Seq<char>) -> Result<KeyInputView, Fault> {
        if has_second_segment(body) {
            match Direction::spec_try_from(first_segment(body)) {
                Err(fault) => Err(fault),
                Ok(direction) => match KeyView::spec_try_from(second_segment(body)) {
                    Err(fault) => Err(fault),
                    Ok(key) => Ok(KeyInputView { key, direction }),
                },
            }
        } else {
            Err(
                Fault::Parser {
                    parser: "Key Input Parser"@,
                    message: "Unable to parse key inputs. Not enough segments"@,
                },
            )
        }
    }
}

/// A key or button going down or coming up.
#[derive(Debug, Clone, PartialEq, Eq)]
pub struct KeyInput {
    pub key: Key,
    pub direction: Direction,
}

impl View for KeyInput {
    type V = KeyInputView;

    open spec fn view(&self) -> KeyInputView {
        KeyInputView { key: self.key@, direction: self.direction }
    }
}

/// What the input source reports of the local keyboard and mouse: a key
/// or a button that was pressed or let go.
#[derive(Debug, Clone, PartialEq, Eq)]
pub enum Capture {
    KeyDown(Keycode),
    KeyUp(Keycode),
    MouseDown(usize),
    MouseUp(usize),
}

impl Capture {
    /// The key event that the report stands for: what was pressed goes
    /// down, what was let go comes up.
    pub open spec fn spec_event(self) -> KeyInputView {
        match self {
            Capture::KeyDown(code) => KeyInputView {
                key: KeyView::KeyCode(code@),
                direction: Direction::Down,
            },
            Capture::KeyUp(code) => KeyInputView {
                key: KeyView::KeyCode(code@),
                direction: Direction::Up,
            },
            Capture::MouseDown(index) => KeyInputView {
                key: KeyView::MouseButton(index),
                direction: Direction::Down,
            },
            Capture::MouseUp(index) => KeyInputView {
                key: KeyView::MouseButton(index),
                direction: Direction::Up,
            },
        }
    }
}

impl KeyInput {
    /// The event that the key goes the given way.
    pub fn new(key: Key, direction: Direction) -> (input: KeyInput)
        ensures
            input@ == (KeyInputView { key: key@, direction }),
    {
        KeyInput { key, direction }
    }

    /// The key event for what the input source reports.
    pub fn captured(capture: Capture) -> (input: KeyInput)
        ensures
            input@ == capture.spec_event(),
    {
        match capture {
            Capture::KeyDown(code) => KeyInput::new(Key::KeyCode(code), Direction::Down),
            Capture::KeyUp(code) => KeyInput::new(Key::KeyCode(code), Direction::Up),
            Capture::MouseDown(index) => KeyInput::new(Key::MouseButton(index), Direction::Down),
            Capture::MouseUp(index) => KeyInput::new(Key::MouseButton(index), Direction::Up),
        }
    }

    /// The event as it is written in a frame, after the frame's first
    /// character. The key of every event that exists is well formed.
    pub fn text(&self) -> (body: String)
        ensures
            body@ == self@.spec_text(),
            self@.key.wf(),
    {
        proof {
            reveal_strlit("|");
        }
        let key = self.key.text();
        let body = String::from_str(self.direction.text()).concat("|").concat(key.as_str());
        proof {
            assert(body@ =~= self@.spec_text());
        }
        body
    }

    /// Reads a key event from a frame's text after its first character.
    pub fn try_from(value: &str) -> (r: Result<KeyInput, ProtocolError>)
        ensures
            match r {
                Ok(input) => KeyInputView::spec_try_from(value@) == Ok::<KeyInputView, Fault>(
                    input@,
                ) && input@.key.wf(),
                Err(e) => KeyInputView::spec_try_from(value@) == Err::<KeyInputView, Fault>(e@),
            },
    {
        let chars = chars_of(value);
        let bar = find_from(&chars, 0, '|');
        proof {
            assert(chars@.skip(0) =~= value@);
        }
        if bar >= chars.len() {
            return Err(
                ProtocolError::ParserError(
                    "Key Input Parser",
                    String::from_str("Unable to parse key inputs. Not enough segments"),
                ),
            );
        }
        let end = find_from(&chars, bar + 1, '|');
        let direction_text = slice_text(value, 0, bar);
        let key_text = slice_text(value, bar + 1, end);
        proof {
            assert(first_segment(value@) =~= direction_text@);
            assert(second_segment(value@) =~= key_text@);
        }
        let direction = match Direction::try_from(direction_text.as_str()) {
            Ok(direction) => direction,
            Err(e) => {
                return Err(e);
            },
        };
        let key = match Key::try_from(key_text.as_str()) {
            Ok(key) => key,
            Err(e) => {
                return Err(e);
            },
        };
        Ok(KeyInput::new(key, direction))
    }
}

/// Nanoseconds between two refresh ticks for the keys that are held down:
/// 25 milliseconds.
pub const REFRESH_INTERVAL: u64 = 25_000_000;

/// The keys behind a list of keys.
pub open spec fn key_views(keys: Seq<Key>) -> Seq<KeyView> {
    keys.map_values(|k: Key| k@)
}

/// The peer to which key events go: the one that owns the pointer. While
/// the pointer is on this machine, or nowhere, key events stay here.
pub open spec fn spec_key_target(topology: Topology, position: MousePosition) -> Option<
    SocketAddrV4,
> {
    match topology.local_position_of(position) {
        Some(found) => match found.client {
            Client::IsNetworked(addr) => Some(addr),
            Client::IsSelf => None,
        },
        None => None,
    }
}

/// The keys that are held down on this machine's keyboard and mouse, in the
/// order in which they went down.
#[derive(Debug)]
pub struct HeldKeysManager {
    held_keys: Vec<Key>,
}

impl View for HeldKeysManager {
    type V = Seq<KeyView>;

    closed spec fn view(&self) -> Seq<KeyView> {
        key_views(self.held_keys@)
    }
}

impl HeldKeysManager {
    #[verifier::type_invariant]
    spec fn inv(self) -> bool {
        self@.no_duplicates()
    }

    /// A manager with no key down.
    pub fn new() -> (manager: HeldKeysManager)
        ensures
            manager@ == Seq::<KeyView>::empty(),
    {
        let manager = HeldKeysManager { held_keys: Vec::new() };
        proof {
            assert(manager@ =~= Seq::<KeyView>::empty());
        }
        manager
    }

    /// The keys that are down, in the order in which they went down.
    pub fn held_keys(&self) -> (keys: &Vec<Key>)
        ensures
            key_views(keys@) == self@,
    {
        &self.held_keys
    }

    /// The key is down.
    fn is_held(keys: &Vec<Key>, key: &Key) -> (held: bool)
        ensures
            held == key_views(keys@).contains(key@),
    {
        let mut index: usize = 0;
        while index < keys.len()
            invariant
                index <= keys.len(),
                forall|i: int| 0 <= i < index ==> #[trigger] key_views(keys@)[i] != key@,
            decreases keys.len() - index,
        {
            if keys[index].same_as(key) {
                proof {
                    assert(key_views(keys@)[index as int] == key@);
                }
                return true;
            }
            index = index + 1;
        }
        false
    }

    /// Takes in a key event of this machine and returns the event to pass
    /// on to the peer that owns the pointer, if there is one to pass on. An
    /// Up takes the key away and is always passed on. A Down for a key that
    /// is not down adds the key and is passed on; a Down for a key that is
    /// down already is kept back.
    pub fn key_input(&mut self, key_input: &KeyInput) -> (forward: Option<KeyInput>)
        ensures
            match key_input.direction {
                Direction::Up => final(self)@ == old(self)@.filter(|k: KeyView| k != key_input@.key)
                    && forward is Some && forward->0@ == key_input@,
                Direction::Down => if old(self)@.contains(key_input@.key) {
                    final(self)@ == old(self)@ && forward is None
                } else {
                    final(self)@ == old(self)@.push(key_input@.key) && forward is Some
                        && forward->0@ == key_input@
                },
            },
            final(self)@.no_duplicates(),
    {
        proof {
            use_type_invariant(&*self);
        }
        let ghost before = self@;
        let mut keys: Vec<Key> = Vec::new();
        std::mem::swap(&mut keys, &mut self.held_keys);
        proof {
            assert(key_views(self.held_keys@) =~= Seq::<KeyView>::empty());
        }
        match key_input.direction {
            Direction::Up => {
                let ghost pred = |k: KeyView| k != key_input@.key;
                let mut index: usize = 0;
                let ghost mut done: int = 0;
                proof {
                    reveal(Seq::filter);
                    assert(before.take(0) =~= Seq::<KeyView>::empty());
                    assert(before.skip(0) =~= before);
                    assert(before.take(0).filter(pred) + before.skip(0) =~= before);
                }
                while index < keys.len()
                    invariant
                        0 <= done <= before.len(),
                        index == before.take(done).filter(pred).len(),
                        key_views(keys@) == before.take(done).filter(pred) + before.skip(done),
                        pred == |k: KeyView| k != key_input@.key,
                    decreases before.len() - done,
                {
                    proof {
                        assert(key_views(keys@)[index as int] == before[done]);
                        lemma_filter_step(before, pred, done);
                    }
                    if !keys[index].same_as(&key_input.key) {
                        proof {
                            assert(before.take(done + 1).filter(pred) + before.skip(done + 1)
                                =~= before.take(done).filter(pred) + before.skip(done));
                        }
                        index = index + 1;
                    } else {
                        let ghost rows = key_views(keys@);
                        keys.remove(index);
                        proof {
                            assert(key_views(keys@) =~= rows.remove(index as int));
                            assert(rows.remove(index as int) =~= before.take(done + 1).filter(pred)
                                + before.skip(done + 1));
                        }
                    }
                    proof {
                        done = done + 1;
                    }
                }
                proof {
                    assert(done == before.len()) by {
                        assert(key_views(keys@).len() == index + before.skip(done).len());
                    }
                    assert(before.take(done) =~= before);
                    assert(key_views(keys@) =~= before.filter(pred));
                    lemma_filter_no_duplicates(before, pred);
                }
                self.held_keys = keys;
                Some(KeyInput::new(key_input.key.duplicate(), Direction::Up))
            },
            Direction::Down => {
                if Self::is_held(&keys, &key_input.key) {
                    self.held_keys = keys;
                    None
                } else {
                    keys.push(key_input.key.duplicate());
                    proof {
                        assert(key_views(keys@) =~= before.push(key_input@.key));
                        assert forall|i: int, j: int|
                            0 <= i < before.len() + 1 && 0 <= j < before.len() + 1 && i
                                != j implies before.push(key_input@.key)[i] != before.push(
                            key_input@.key,
                        )[j] by {
                            if i < before.len() {
                                assert(before.contains(before[i]));
                            }
                            if j < before.len() {
                                assert(before.contains(before[j]));
                            }
                        }
                    }
                    self.held_keys = keys;
                    Some(KeyInput::new(key_input.key.duplicate(), Direction::Down))
                }
            },
        }
    }

    /// The events of a refresh tick: a Down for every key that is down, in
    /// the order in which the keys went down.
    pub fn send_loop(&self) -> (refresh: Vec<KeyInput>)
        ensures
            refresh@.map_values(|e: KeyInput| e@) == self@.map_values(
                |k: KeyView| KeyInputView { key: k, direction: Direction::Down },
            ),
    {
        let mut refresh: Vec<KeyInput> = Vec::new();
        let mut index: usize = 0;
        while index < self.held_keys.len()
            invariant
                index <= self.held_keys.len(),
                refresh@.map_values(|e: KeyInput| e@) == self@.take(index as int).map_values(
                    |k: KeyView| KeyInputView { key: k, direction: Direction::Down },
                ),
            decreases self.held_keys.len() - index,
        {
            let ghost sent = refresh@.map_values(|e: KeyInput| e@);
            let event = KeyInput::new(self.held_keys[index].duplicate(), Direction::Down);
            refresh.push(event);
            proof {
                assert(self@[index as int] == self.held_keys@[index as int]@);
                assert(refresh@.map_values(|e: KeyInput| e@) =~= sent.push(event@));
                assert(self@.take(index + 1)
                    =~= self@.take(index as int).push(self@[index as int]));
                assert(refresh@.map_values(|e: KeyInput| e@) =~= self@.take(index + 1).map_values(
                    |k: KeyView| KeyInputView { key: k, direction: Direction::Down },
                ));
            }
            index = index + 1;
        }
        proof {
            assert(self@.take(self@.len() as int) =~= self@);
        }
        refresh
    }

    /// The peer to which a key event goes.
    pub fn send_event(mouse_handler: &MouseHandler, display_manager: &DisplayManager) -> (target:
        Option<SocketAddrV4>)
        ensures
            target == spec_key_target(display_manager@, mouse_handler@),
    {
        match mouse_handler.get_local_mouse_position(display_manager) {
            Ok(found) => match found.client {
                Client::IsNetworked(addr) => Some(addr),
                Client::IsSelf => None,
            },
            Err(_) => None,
        }
    }
}

} // verus!
