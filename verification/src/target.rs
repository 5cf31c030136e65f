//! Which large monster the overlay shows, and which monsters count as large.
//!
//! The order by distance and remaining health is a floating-point comparison
//! done by the caller; what is decided here is the lock-on rule, the use of
//! that order and the stable tie break.

use vstd::prelude::*;
use crate::text::{chars_of, starts_with, starts_with_vec};

verus! {

/// What the selection knows besides the candidates.
pub struct TargetContext {
    /// Double-list index of the monster the player locked on to; `-1` when none.
    pub locked_on_index: i32,
}

/// The integer facts of one monster that the selection reads.
#[derive(Clone, Copy, Debug)]
pub struct TargetCandidate {
    pub monster_id: i32,
    pub double_list_index: i32,
}

/// Picks the monster to display.
pub struct TargetSelector;

/// Multiplier of the tie-break hash.
pub const TIE_HASH_FACTOR: u64 = 2654435761;

/// First index at or after `i` whose double-list index is `idx`, if any.
pub open spec fn locked_from(monsters: Seq<TargetCandidate>, idx: i32, i: int) -> Option<int>
    decreases monsters.len() - i,
{
    if i < 0 || i >= monsters.len() {
        None
    } else if monsters[i].double_list_index == idx {
        Some(i)
    } else {
        locked_from(monsters, idx, i + 1)
    }
}

/// First index whose double-list index is `idx`, if any.
pub open spec fn locked_position(monsters: Seq<TargetCandidate>, idx: i32) -> Option<int> {
    locked_from(monsters, idx, 0)
}

/// Parity of the wrapping hash of a monster id: 0 keeps the first of two tied
/// candidates, 1 takes the second.
pub open spec fn tie_pick(id: i32) -> nat {
    (((id as u64) as nat * TIE_HASH_FACTOR as nat) % 0x1_0000_0000_0000_0000) % 2
}

/// The selection: `order` is the candidates sorted by distance, then health,
/// and `top_tie` says whether its first two are within the distance and
/// health tolerances of each other.
pub open spec fn selected(
    monsters: Seq<TargetCandidate>,
    locked_on_index: i32,
    order: Seq<usize>,
    top_tie: bool,
) -> Option<int> {
    if monsters.len() == 0 {
        None
    } else if monsters.len() == 1 {
        Some(0)
    } else if locked_on_index >= 0 && locked_position(monsters, locked_on_index) is Some {
        locked_position(monsters, locked_on_index)
    } else if top_tie {
        if tie_pick(monsters[order[0] as int].monster_id) == 0 {
            Some(order[0] as int)
        } else {
            Some(order[1] as int)
        }
    } else {
        Some(order[0] as int)
    }
}

impl TargetSelector {
    pub fn new() -> (s: Self) {
        TargetSelector
    }

    /// Index of the monster to show, `None` when there is none.
    pub fn select_target(
        &mut self,
        monsters: &[TargetCandidate],
        context: &TargetContext,
        order: &[usize],
        top_tie: bool,
    ) -> (r: Option<usize>)
        requires
            order@.len() == monsters@.len(),
            forall|i: int| 0 <= i < order@.len() ==> order@[i] < monsters@.len(),
        ensures
            match selected(monsters@, context.locked_on_index, order@, top_tie) {
                Some(i) => r == Some(i as usize),
                None => r is None,
            },
            r matches Some(i) ==> i < monsters@.len(),
    {
        let n = monsters.len();
        if n == 0 {
            return None;
        }
        if n == 1 {
            return Some(0);
        }
        if context.locked_on_index >= 0 {
            let want = context.locked_on_index;
            let mut i: usize = 0;
            while i < n
                invariant
                    n == monsters@.len(),
                    n >= 2,
                    i <= n,
                    want == context.locked_on_index,
                    want >= 0,
                    locked_position(monsters@, want) == locked_from(monsters@, want, i as int),
                decreases n - i,
            {
                if monsters[i].double_list_index == want {
                    assert(locked_from(monsters@, want, i as int) == Some(i as int));
                    return Some(i);
                }
                i += 1;
            }
        }
        let first = order[0];
        if top_tie {
            let hash = (#[verifier::truncate] (monsters[first].monster_id as u64)).wrapping_mul(TIE_HASH_FACTOR);
            if hash % 2 == 0 {
                return Some(first);
            } else {
                return Some(order[1]);
            }
        }
        Some(first)
    }
}

/// A monster the player locked on to is shown whenever it is among the
/// candidates, whatever the distance order says (with two or more candidates).
pub proof fn law_lock_on_wins(
    monsters: Seq<TargetCandidate>,
    locked_on_index: i32,
    order: Seq<usize>,
    top_tie: bool,
    i: int,
)
    requires
        monsters.len() >= 2,
        locked_on_index >= 0,
        0 <= i < monsters.len(),
        monsters[i].double_list_index == locked_on_index,
        forall|j: int| 0 <= j < i ==> monsters[j].double_list_index != locked_on_index,
    ensures
        selected(monsters, locked_on_index, order, top_tie) == Some(i),
{
    lemma_locked_from(monsters, locked_on_index, 0, i);
}

proof fn lemma_locked_from(monsters: Seq<TargetCandidate>, idx: i32, k: int, i: int)
    requires
        0 <= k <= i < monsters.len(),
        monsters[i].double_list_index == idx,
        forall|j: int| 0 <= j < i ==> monsters[j].double_list_index != idx,
    ensures
        locked_from(monsters, idx, k) == Some(i),
    decreases i - k,
{
    if k < i {
        lemma_locked_from(monsters, idx, k + 1, i);
    }
}

/// Without a lock-on match, the choice is always one of the first two of the
/// order, and the first unless they tie.
pub proof fn law_choice_from_order(
    monsters: Seq<TargetCandidate>,
    locked_on_index: i32,
    order: Seq<usize>,
    top_tie: bool,
)
    requires
        monsters.len() >= 2,
        order.len() == monsters.len(),
        locked_on_index < 0 || locked_position(monsters, locked_on_index) is None,
    ensures
        !top_tie ==> selected(monsters, locked_on_index, order, top_tie) == Some(order[0] as int),
        top_tie ==> (selected(monsters, locked_on_index, order, top_tie) == Some(order[0] as int)
            || selected(monsters, locked_on_index, order, top_tie) == Some(order[1] as int)),
{
}

/// Whether a monster's `em` path names a large monster: `em\em…` but not
/// `em\ems…` (small monsters).
pub open spec fn is_large_em(em: Seq<char>) -> bool {
    starts_with(em, "em\\em"@) && !starts_with(em, "em\\ems"@)
}

pub fn is_large_monster(em: &str) -> (b: bool)
    ensures
        b == is_large_em(em@),
{
    let v = chars_of(em);
    let large = chars_of("em\\em");
    let small = chars_of("em\\ems");
    starts_with_vec(&v, &large) && !starts_with_vec(&v, &small)
}

/// Reads the monster list of the current area.
pub struct MonsterScanner;

impl MonsterScanner {
    pub fn new() -> (s: Self) {
        MonsterScanner
    }
}

} // verus!
