//! Lookup tables for game data: move names per (monster, move) and names
//! per id (monsters, quests). A table built from a list of pairs answers
//! as a map filled in list order would: a later pair wins over an earlier one.

use vstd::prelude::*;
use crate::log::copy_string;

verus! {

/// Name for `id` in `pairs`: the last pair with that id.
pub open spec fn name_lookup(pairs: Seq<(i32, String)>, id: i32) -> Option<Seq<char>>
    decreases pairs.len(),
{
    if pairs.len() == 0 {
        None
    } else if pairs.last().0 == id {
        Some(pairs.last().1@)
    } else {
        name_lookup(pairs.drop_last(), id)
    }
}

/// Name for `(monster_id, action_id)` in `rows`: the last row with that key.
pub open spec fn action_lookup(rows: Seq<(i32, i32, String)>, monster_id: i32, action_id: i32) -> Option<
    Seq<char>,
>
    decreases rows.len(),
{
    if rows.len() == 0 {
        None
    } else if rows.last().0 == monster_id && rows.last().1 == action_id {
        Some(rows.last().2@)
    } else {
        action_lookup(rows.drop_last(), monster_id, action_id)
    }
}

/// Names by numeric id (monster names, quest names).
pub struct NameTable {
    pairs: Vec<(i32, String)>,
}

impl View for NameTable {
    type V = Seq<(i32, String)>;

    closed spec fn view(&self) -> Seq<(i32, String)> {
        self.pairs@
    }
}

impl NameTable {
    /// The table of the given pairs (a later pair for the same id wins).
    pub fn from_pairs(pairs: Vec<(i32, String)>) -> (t: NameTable)
        ensures
            t@ == pairs@,
    {
        NameTable { pairs }
    }

    /// The name for `id`, if any.
    pub fn get(&self, id: i32) -> (r: Option<String>)
        ensures
            match name_lookup(self@, id) {
                Some(n) => r matches Some(s) && s@ == n,
                None => r is None,
            },
    {
        let mut i = self.pairs.len();
        assert(self.pairs@.subrange(0, i as int) =~= self.pairs@);
        while i > 0
            invariant
                i <= self.pairs@.len(),
                name_lookup(self.pairs@, id) == name_lookup(self.pairs@.subrange(0, i as int), id),
            decreases i,
        {
            let ghost pre = self.pairs@.subrange(0, i as int);
            assert(pre.drop_last() =~= self.pairs@.subrange(0, i - 1));
            if self.pairs[i - 1].0 == id {
                assert(pre.last() == self.pairs@[i - 1]);
            return Some(copy_string(&self.pairs[i - 1].1));
            }
            i -= 1;
        }
        None
    }
}

/// Move names by (monster id, move id).
pub struct ActionTable {
    rows: Vec<(i32, i32, String)>,
}

impl View for ActionTable {
    type V = Seq<(i32, i32, String)>;

    closed spec fn view(&self) -> Seq<(i32, i32, String)> {
        self.rows@
    }
}

impl ActionTable {
    /// An empty table.
    pub fn new() -> (t: ActionTable)
        ensures
            t@ == Seq::<(i32, i32, String)>::empty(),
    {
        ActionTable { rows: Vec::new() }
    }

    /// Adds the moves of one monster, `(move id, name)` pairs, after the rows
    /// already held (so they win over earlier rows with the same key).
    pub fn extend(&mut self, monster_id: i32, moves: Vec<(i32, String)>)
        ensures
            final(self)@ == old(self)@ + moves@.map_values(|p: (i32, String)| (monster_id, p.0, p.1)),
    {
        let ghost start = self.rows@;
        let n = moves.len();
        for i in 0..n
            invariant
                n == moves@.len(),
                self.rows@ == start + moves@.subrange(0, i as int).map_values(
                    |p: (i32, String)| (monster_id, p.0, p.1),
                ),
        {
            let row = (monster_id, moves[i].0, copy_string(&moves[i].1));
            self.rows.push(row);
            assert(moves@.subrange(0, i + 1).map_values(|p: (i32, String)| (monster_id, p.0, p.1))
                =~= moves@.subrange(0, i as int).map_values(
                |p: (i32, String)| (monster_id, p.0, p.1),
            ).push(row));
        }
        assert(moves@.subrange(0, n as int) =~= moves@);
    }
}

/// The name of move `action_id` of monster `monster_id`, if the table knows it.
pub fn lookup_action_name(table: &ActionTable, monster_id: i32, action_id: i32) -> (r: Option<String>)
    ensures
        match action_lookup(table@, monster_id, action_id) {
            Some(n) => r matches Some(s) && s@ == n,
            None => r is None,
        },
{
    let rows = &table.rows;
    assert(table@ == rows@);
    let mut i = rows.len();
    assert(rows@.subrange(0, i as int) =~= rows@);
    while i > 0
        invariant
            table@ == rows@,
            i <= rows@.len(),
            action_lookup(rows@, monster_id, action_id) == action_lookup(
                rows@.subrange(0, i as int),
                monster_id,
                action_id,
            ),
        decreases i,
    {
        let ghost pre = rows@.subrange(0, i as int);
        assert(pre.drop_last() =~= rows@.subrange(0, i - 1));
        if rows[i - 1].0 == monster_id && rows[i - 1].1 == action_id {
            assert(pre.last() == rows@[i - 1]);
            assert(action_lookup(pre, monster_id, action_id) == Some(rows@[i - 1].2@));
            let name = copy_string(&rows[i - 1].2);
            assert(name@ == rows@[i - 1].2@);
            return Some(name);
        }
        i -= 1;
    }
    None
}

} // verus!
