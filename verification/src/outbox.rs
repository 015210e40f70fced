//! What happens to a socket message when its target's outbox is full, and how coalesced
//! messages are found again.
use vstd::prelude::*;
use crate::gameplay::lobby::{EmitPriority, coalescing};
use crate::text::{chars_of, string_of_range, text_eq};

verus! {

/// Messages a target's outbox holds.
pub const OUTBOX_CAPACITY: usize = 256;
/// Urgent messages kept aside per target when its outbox is full.
pub const HIGH_OUTBOX_OVERFLOW_CAPACITY: usize = 256;
/// Messages the lobby's outbox holds.
pub const LOBBY_OUTBOX_CAPACITY: usize = 64;

/// What becomes of a message that finds its outbox full.
#[derive(Clone, Copy, Debug, PartialEq, Eq, Structural)]
pub enum OverflowAction {
    /// Kept as the target's latest payload of that event, replacing an earlier one.
    Coalesce,
    /// Queued aside, if that queue has room.
    Overflow,
    /// Dropped.
    Drop,
}

/// Coalescing and low-priority messages are coalesced, urgent ones queued aside, the rest
/// dropped.
pub fn overflow_action(priority: EmitPriority, coalescing_event: bool) -> (r: OverflowAction)
    ensures
        r == (if coalescing_event || priority == EmitPriority::Low {
            OverflowAction::Coalesce
        } else if priority == EmitPriority::High {
            OverflowAction::Overflow
        } else {
            OverflowAction::Drop
        }),
{
    if coalescing_event || priority == EmitPriority::Low {
        OverflowAction::Coalesce
    } else if priority == EmitPriority::High {
        OverflowAction::Overflow
    } else {
        OverflowAction::Drop
    }
}

/// The queue kept aside takes another message while it holds fewer than its capacity.
pub fn high_overflow_accepts(queued: usize) -> (r: bool)
    ensures
        r == (queued < HIGH_OUTBOX_OVERFLOW_CAPACITY),
{
    queued < HIGH_OUTBOX_OVERFLOW_CAPACITY
}

/// The event of a coalesced key of `target`: what follows the target and NUL, when it is one
/// of the coalescing events.
pub open spec fn coalesced_event(key: Seq<char>, target: Seq<char>) -> Option<Seq<char>> {
    let p = target + seq!['\u{0}'];
    if key.len() >= p.len() && key.take(p.len() as int) == p && coalescing(key.skip(p.len() as int)) {
        Some(key.skip(p.len() as int))
    } else {
        None
    }
}

/// The coalescing event stored under `key` for `target`, if the key is one of its.
pub fn coalesced_event_of(key: &str, target: &str) -> (r: Option<&'static str>)
    ensures
        match r {
            Some(e) => coalesced_event(key@, target@) == Some(e@),
            None => coalesced_event(key@, target@) is None,
        },
{
    let kc = chars_of(key);
    let tc = chars_of(target);
    let ghost p = target@ + seq!['\u{0}'];
    if kc.len() <= tc.len() {
        return None;
    }
    let mut i: usize = 0;
    while i < tc.len()
        invariant
            i <= tc@.len(),
            tc@ == target@,
            kc@ == key@,
            kc@.len() >= tc@.len() + 1,
            p == target@ + seq!['\u{0}'],
            forall|j: int| 0 <= j < i ==> kc@[j] == tc@[j],
        decreases tc@.len() - i,
    {
        if kc[i] != tc[i] {
            assert(key@.take(p.len() as int)[i as int] != p[i as int]);
            return None;
        }
        i = i + 1;
    }
    if kc[tc.len()] != '\u{0}' {
        assert(key@.take(p.len() as int)[tc@.len() as int] != p[tc@.len() as int]);
        return None;
    }
    assert(key@.take(p.len() as int) =~= p);
    let rest = string_of_range(&kc, tc.len() + 1, kc.len());
    assert(rest@ =~= key@.skip(p.len() as int));
    if text_eq(rest.as_str(), "updatePlayers") {
        Some("updatePlayers")
    } else if text_eq(rest.as_str(), "guessHistoryUpdate") {
        Some("guessHistoryUpdate")
    } else if text_eq(rest.as_str(), "syncWaiting") {
        Some("syncWaiting")
    } else if text_eq(rest.as_str(), "nonstopProgress") {
        Some("nonstopProgress")
    } else {
        None
    }
}

} // verus!
