//! The listener of one input device: which keys are held down, and which command a key
//! event sets off.
//!
//! A listener belongs to one device and sees the events of that device alone, in the order
//! in which they arrive. It starts no process itself: it says which command is due, and the
//! caller launches it.

use crate::config::{CommandSpec, Exec, Keybindings};
use crate::input::{
    decoded, record_len, record_size, DecodeError, InputEvent, KEY_EV, KEY_PRESS, KEY_RELEASE,
};
use crate::key::{key_of_code, Key};
use crate::keyset::KeySet;
use vstd::prelude::*;

verus! {

/// The keys that are held after an event, given those held before it. A press puts its key
/// in, a release takes its key out. Events of another class, and key events that are neither
/// press nor release, such as repeats, change nothing.
pub open spec fn next_held(held: Set<Key>, event: InputEvent) -> Set<Key> {
    if event.type_ != KEY_EV {
        held
    } else if event.value == KEY_PRESS {
        held.insert(key_of_code(event.code))
    } else if event.value == KEY_RELEASE {
        held.remove(key_of_code(event.code))
    } else {
        held
    }
}

/// The command that an event sets off, given the keys held before it. Only the press of a
/// key that was not held sets one off, and only where the keys held after it are bound: the
/// command is the one bound to exactly those keys.
pub open spec fn dispatched(
    held: Set<Key>,
    event: InputEvent,
    table: Map<Set<Key>, CommandSpec>,
) -> Option<CommandSpec> {
    let key = key_of_code(event.code);
    if event.type_ == KEY_EV && event.value == KEY_PRESS && !held.contains(key)
        && table.contains_key(held.insert(key)) {
        Some(table[held.insert(key)])
    } else {
        None
    }
}

/// The command that an optional command holds.
pub open spec fn command_of_option(command: Option<Exec>) -> Option<CommandSpec> {
    match command {
        Some(c) => Some(c@),
        None => None,
    }
}

/// An event that is neither a press nor a release of a key, such as a repeat, leaves the
/// held keys as they are and sets off no command, whatever is held and whatever is bound.
pub proof fn lemma_repeat_is_inert(
    held: Set<Key>,
    event: InputEvent,
    table: Map<Set<Key>, CommandSpec>,
)
    requires
        event.type_ != KEY_EV || (event.value != KEY_PRESS && event.value != KEY_RELEASE),
    ensures
        next_held(held, event) == held,
        dispatched(held, event, table) is None,
{
}

/// A release sets off no command, and neither does the press of a key that is held already,
/// which also leaves the held keys as they are.
pub proof fn lemma_only_new_presses_dispatch(
    held: Set<Key>,
    event: InputEvent,
    table: Map<Set<Key>, CommandSpec>,
)
    ensures
        event.value != KEY_PRESS ==> dispatched(held, event, table) is None,
        held.contains(key_of_code(event.code)) ==> dispatched(held, event, table) is None,
        event.value == KEY_PRESS && held.contains(key_of_code(event.code)) ==> next_held(
            held,
            event,
        ) == held,
{
    if event.value == KEY_PRESS && held.contains(key_of_code(event.code)) {
        assert(held.insert(key_of_code(event.code)) =~= held);
    }
}

/// A command is set off only when the keys held on this device are exactly a bound
/// combination, and it is the command bound to them. Keys held elsewhere play no part.
pub proof fn lemma_dispatch_is_exact(
    held: Set<Key>,
    event: InputEvent,
    table: Map<Set<Key>, CommandSpec>,
)
    ensures
        dispatched(held, event, table) matches Some(command) ==> table.contains_key(
            next_held(held, event),
        ) && command == table[next_held(held, event)],
        !table.contains_key(next_held(held, event)) ==> dispatched(held, event, table) is None,
{
}

/// The keys held after two presses do not depend on which of the two came first.
pub proof fn lemma_press_order(held: Set<Key>, first: InputEvent, second: InputEvent)
    requires
        first.type_ == KEY_EV && first.value == KEY_PRESS,
        second.type_ == KEY_EV && second.value == KEY_PRESS,
    ensures
        next_held(next_held(held, first), second) == next_held(next_held(held, second), first),
{
    let a = key_of_code(first.code);
    let b = key_of_code(second.code);
    assert(held.insert(a).insert(b) =~= held.insert(b).insert(a));
}

/// The keys that are held after a run of events, given those held before it.
pub open spec fn held_after(held: Set<Key>, events: Seq<InputEvent>) -> Set<Key>
    decreases events.len(),
{
    if events.len() == 0 {
        held
    } else {
        next_held(held_after(held, events.drop_last()), events.last())
    }
}

/// The commands that a run of events sets off, in order, given the keys held before it.
pub open spec fn dispatches(
    held: Set<Key>,
    events: Seq<InputEvent>,
    table: Map<Set<Key>, CommandSpec>,
) -> Seq<CommandSpec>
    decreases events.len(),
{
    if events.len() == 0 {
        seq![]
    } else {
        let before = dispatches(held, events.drop_last(), table);
        match dispatched(held_after(held, events.drop_last()), events.last(), table) {
            Some(command) => before.push(command),
            None => before,
        }
    }
}

/// Whether an event is the press or the release of a key.
pub open spec fn press_or_release(event: InputEvent) -> bool {
    event.type_ == KEY_EV && (event.value == KEY_PRESS || event.value == KEY_RELEASE)
}

/// Only presses and releases count: a run of events holds the same keys in the end, and
/// sets off the same commands, as the presses and releases in it alone. Repeats and events
/// of other classes, wherever they stand in the run, change neither.
pub proof fn lemma_only_presses_and_releases_count(
    held: Set<Key>,
    events: Seq<InputEvent>,
    table: Map<Set<Key>, CommandSpec>,
)
    ensures
        held_after(held, events) == held_after(
            held,
            events.filter(|e: InputEvent| press_or_release(e)),
        ),
        dispatches(held, events, table) == dispatches(
            held,
            events.filter(|e: InputEvent| press_or_release(e)),
            table,
        ),
    decreases events.len(),
{
    reveal(Seq::filter);
    let counts = |e: InputEvent| press_or_release(e);
    if events.len() > 0 {
        let earlier = events.drop_last();
        lemma_only_presses_and_releases_count(held, earlier, table);
        if press_or_release(events.last()) {
            assert(events.filter(counts) == earlier.filter(counts).push(events.last()));
            assert(earlier.filter(counts).push(events.last()).drop_last() =~= earlier.filter(
                counts,
            ));
        } else {
            assert(events.filter(counts) == earlier.filter(counts));
        }
    }
}

/// The state of the listener of one device: the keys that are held down on it.
#[derive(Debug)]
pub struct Listener {
    held: KeySet,
}

impl View for Listener {
    type V = Set<Key>;

    closed spec fn view(&self) -> Set<Key> {
        self.held@
    }
}

impl Listener {
    /// A listener on whose device no key is held.
    pub fn new() -> (listener: Listener)
        ensures
            listener@ == Set::<Key>::empty(),
    {
        Listener { held: KeySet::new() }
    }

    /// The keys that are held down.
    pub fn held(&self) -> (keys: &KeySet)
        ensures
            keys@ == self@,
    {
        &self.held
    }

    /// Takes in one event: brings the held keys up to date and returns the command that the
    /// event sets off, if it sets one off.
    pub fn on_event(&mut self, event: &InputEvent, table: &Keybindings) -> (command: Option<Exec>)
        ensures
            final(self)@ == next_held(old(self)@, *event),
            command_of_option(command) == dispatched(old(self)@, *event, table@),
    {
        if !event.is_key_event() {
            return None;
        }
        let key = event.as_enum();
        if event.is_key_press() {
            if self.held.insert(key) {
                match table.get(&self.held) {
                    Some(command) => Some(command.copy()),
                    None => None,
                }
            } else {
                None
            }
        } else if event.is_key_release() {
            self.held.remove(key);
            None
        } else {
            None
        }
    }

    /// Takes in the bytes of one read from the device. Bytes that are not exactly one record
    /// are refused and change nothing; a record is decoded and taken in as an event.
    pub fn on_record(&mut self, record: &[u8], table: &Keybindings) -> (r: Result<
        Option<Exec>,
        DecodeError,
    >)
        ensures
            match r {
                Ok(command) => {
                    &&& record@.len() == record_len()
                    &&& final(self)@ == next_held(old(self)@, decoded(record@))
                    &&& command_of_option(command) == dispatched(
                        old(self)@,
                        decoded(record@),
                        table@,
                    )
                },
                Err(e) => {
                    &&& final(self)@ == old(self)@
                    &&& record@.len() != record_len()
                    &&& (e == DecodeError::Truncated <==> record@.len() < record_len())
                    &&& (e == DecodeError::Oversized <==> record@.len() > record_len())
                },
            },
    {
        match InputEvent::new(record) {
            Ok(event) => {
                if record.len() > record_size() {
                    Err(DecodeError::Oversized)
                } else {
                    Ok(self.on_event(&event, table))
                }
            },
            Err(e) => Err(e),
        }
    }
}

} // verus!
