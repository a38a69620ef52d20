//! Players, their hands of unplaced pieces, and whose turn it is.

use vstd::prelude::*;

use crate::cats::Cat;

verus! {

/// Index of a player, from 0.
#[derive(Clone, Copy, Debug, PartialEq, Eq, Structural, Hash)]
pub struct PlayerId(pub u8);

impl PlayerId {
    pub fn new(id: u8) -> (r: PlayerId)
        ensures
            r.0 == id,
    {
        PlayerId(id)
    }
}

/// Unplaced pieces of one player.
#[derive(Clone, Copy, Debug, PartialEq, Eq, Structural)]
pub struct Inventory {
    pub cats: u8,
    pub kittens: u8,
}

impl Inventory {
    pub fn new(kittens: u8, cats: u8) -> (r: Inventory)
        ensures
            r.kittens == kittens,
            r.cats == cats,
    {
        Inventory { cats, kittens }
    }
}

impl Default for Inventory {
    /// Six kittens and no cats.
    fn default() -> (r: Inventory)
        ensures
            r.kittens == 6,
            r.cats == 0,
    {
        Inventory { cats: 0, kittens: 6 }
    }
}

pub struct Player {
    pub id: PlayerId,
    pub name: String,
    pub inventory: Inventory,
}

impl Player {
    /// A player can act while they hold any piece.
    pub open spec fn can_act(&self) -> bool {
        self.inventory.kittens + self.inventory.cats > 0
    }

    pub fn can_do_turn(&self) -> (r: bool)
        ensures
            r == self.can_act(),
    {
        self.inventory.kittens > 0 || self.inventory.cats > 0
    }
}

/// All players and the index of the one to move.
pub struct Players {
    pub players: Vec<Player>,
    pub current_player: usize,
}

/// The index that the turn passes to from `cur`: the first after it, going
/// round, whose player can act; `cur` itself when nobody can.
pub open spec fn next_index(ps: Seq<Player>, cur: int) -> int {
    if exists|s: int| 1 <= s <= ps.len() && (#[trigger] ps[(cur + s) % ps.len() as int]).can_act() {
        let s = choose|s: int|
            1 <= s <= ps.len() && (#[trigger] ps[(cur + s) % ps.len() as int]).can_act() && forall|t: int|
                1 <= t < s ==> !(#[trigger] ps[(cur + t) % ps.len() as int]).can_act();
        (cur + s) % ps.len() as int
    } else {
        cur
    }
}

impl Default for Players {
    /// Green and Orange, each with the default hand; Green moves first.
    fn default() -> (r: Players)
        ensures
            r.wf(),
            r.current_player == 0,
            r.players@.len() == 2,
            r.players@[0].name@ == "Green"@,
            r.players@[1].name@ == "Orange"@,
            forall|k: int| 0 <= k < 2 ==> (#[trigger] r.players@[k]).inventory == (Inventory { cats: 0, kittens: 6 }),
    {
        let mut names: Vec<String> = Vec::new();
        names.push("Green".to_owned());
        names.push("Orange".to_owned());
        Players::new(names, Inventory::default())
    }
}

impl Players {
    /// At least one player, at most 256, player `k` has id `k`, and the one to
    /// move exists.
    pub open spec fn wf(&self) -> bool {
        &&& 1 <= self.players@.len() <= 256
        &&& self.current_player < self.players@.len()
        &&& forall|k: int| 0 <= k < self.players@.len() ==> (#[trigger] self.players@[k]).id.0 == k
    }

    pub open spec fn kittens(&self, k: int) -> int {
        self.players@[k].inventory.kittens as int
    }

    pub open spec fn cats(&self, k: int) -> int {
        self.players@[k].inventory.cats as int
    }

    /// The same players, in the same order, with the same one to move.
    pub open spec fn same_roster(&self, old: &Players) -> bool {
        &&& self.players@.len() == old.players@.len()
        &&& self.current_player == old.current_player
        &&& forall|j: int|
            0 <= j < self.players@.len() ==> (#[trigger] self.players@[j]).id == old.players@[j].id
                && self.players@[j].name@ == old.players@[j].name@
    }

    /// Every inventory is as before, except that of player `k`, which is `inv`.
    pub open spec fn same_but(&self, old: &Players, k: int, inv: Inventory) -> bool {
        &&& self.same_roster(old)
        &&& self.players@[k].inventory == inv
        &&& forall|j: int|
            0 <= j < self.players@.len() && j != k ==> (#[trigger] self.players@[j]).inventory
                == old.players@[j].inventory
    }

    /// One player per name, in order, each holding `inventory`; player 0
    /// moves first.
    pub fn new(names: Vec<String>, inventory: Inventory) -> (r: Players)
        requires
            1 <= names@.len() <= 256,
        ensures
            r.wf(),
            r.current_player == 0,
            r.players@.len() == names@.len(),
            forall|k: int|
                0 <= k < names@.len() ==> (#[trigger] r.players@[k]).inventory == inventory
                    && r.players@[k].name@ == names@[k]@,
    {
        let mut names = names;
        let ghost all = names@;
        let mut rev: Vec<Player> = Vec::new();
        // take the names from the back, then turn the list round
        while names.len() > 0
            invariant
                names@.len() + rev@.len() == all.len(),
                names@ == all.subrange(0, names@.len() as int),
                forall|j: int|
                    0 <= j < rev@.len() ==> (#[trigger] rev@[j]).inventory == inventory
                        && rev@[j].name@ == all[all.len() - 1 - j]@
                        && rev@[j].id.0 == all.len() - 1 - j,
                all.len() <= 256,
            decreases names@.len(),
        {
            let name = names.pop().unwrap();
            let id = names.len() as u8;
            rev.push(Player { id: PlayerId(id), name, inventory });
        }
        let mut players: Vec<Player> = Vec::new();
        while rev.len() > 0
            invariant
                rev@.len() + players@.len() == all.len(),
                forall|j: int|
                    0 <= j < rev@.len() ==> (#[trigger] rev@[j]).inventory == inventory
                        && rev@[j].name@ == all[all.len() - 1 - j]@
                        && rev@[j].id.0 == all.len() - 1 - j,
                forall|k: int|
                    0 <= k < players@.len() ==> (#[trigger] players@[k]).inventory == inventory
                        && players@[k].name@ == all[k]@ && players@[k].id.0 == k,
            decreases rev@.len(),
        {
            let p = rev.pop().unwrap();
            players.push(p);
        }
        Players { players, current_player: 0 }
    }

    pub fn current(&self) -> (r: &Player)
        requires
            self.wf(),
        ensures
            *r == self.players@[self.current_player as int],
    {
        &self.players[self.current_player]
    }

    /// Passes the turn to the next player, going round, who can act; nobody
    /// moves on when no player can act.
    pub fn next_player(&mut self) -> (r: &Player)
        requires
            old(self).wf(),
        ensures
            final(self).wf(),
            final(self).players@ == old(self).players@,
            final(self).current_player == next_index(
                old(self).players@,
                old(self).current_player as int,
            ),
            *r == final(self).players@[final(self).current_player as int],
    {
        let n = self.players.len();
        let cur = self.current_player;
        let ghost ps = self.players@;
        let mut s: usize = 1;
        let mut found = false;
        while s <= n && !found
            invariant
                1 <= s <= n + 1,
                n == ps.len(),
                ps == self.players@,
                self.wf(),
                cur < n,
                found ==> 1 <= s <= n && ps[(cur + s) % n as int].can_act(),
                forall|t: int| 1 <= t < s ==> !(#[trigger] ps[(cur + t) % n as int]).can_act(),
            decreases n + 1 - s, if found { 0int } else { 1int },
        {
            if self.players[(cur + s) % n].can_do_turn() {
                found = true;
            } else {
                s = s + 1;
            }
        }
        if found {
            proof {
                let w = choose|w: int|
                    1 <= w <= ps.len() && (#[trigger] ps[(cur + w) % ps.len() as int]).can_act()
                        && forall|t: int|
                        1 <= t < w ==> !(#[trigger] ps[(cur + t) % ps.len() as int]).can_act();
                if w > s {
                    assert(!ps[(cur + s as int) % n as int].can_act());
                }
                assert(w == s);
            }
            self.current_player = (cur + s) % n;
        } else {
            proof {
                assert forall|w: int| 1 <= w <= ps.len() implies !(#[trigger] ps[(cur + w)
                    % ps.len() as int]).can_act() by {
                    assert(1 <= w < s);
                }
            }
        }
        &self.players[self.current_player]
    }

    pub fn by_id(&self, id: PlayerId) -> (r: Option<&Player>)
        requires
            self.wf(),
        ensures
            (id.0 < self.players@.len()) == r.is_some(),
            id.0 < self.players@.len() ==> *r.unwrap() == self.players@[id.0 as int],
    {
        let mut i: usize = 0;
        while i < self.players.len()
            invariant
                self.wf(),
                i <= self.players@.len(),
                forall|j: int| 0 <= j < i ==> (#[trigger] self.players@[j]).id != id,
            decreases self.players@.len() - i,
        {
            if self.players[i].id == id {
                return Some(&self.players[i]);
            }
            i = i + 1;
        }
        proof {
            if id.0 < self.players@.len() {
                assert(self.players@[id.0 as int].id == id);
            }
        }
        None
    }

    /// Takes a kitten from the hand of the player to move.
    pub fn take_kitten(&mut self) -> (r: Option<Cat>)
        requires
            old(self).wf(),
        ensures
            final(self).wf(),
            ({
                let k = old(self).current_player as int;
                let inv = old(self).players@[k].inventory;
                if inv.kittens > 0 {
                    &&& r == Some(Cat::Kitten)
                    &&& final(self).same_but(old(self), k, Inventory { kittens: (inv.kittens - 1) as u8, ..inv })
                } else {
                    &&& r.is_none()
                    &&& final(self).players@ == old(self).players@
                    &&& final(self).current_player == old(self).current_player
                }
            }),
    {
        let k = self.current_player;
        if self.players[k].inventory.kittens > 0 {
            let mut inv = self.players[k].inventory;
            inv.kittens = inv.kittens - 1;
            self.set_inventory(k, inv);
            Some(Cat::Kitten)
        } else {
            None
        }
    }

    /// Returns a booped-off piece to `player`'s hand as a kitten.
    pub fn gain_kitten(&mut self, player: PlayerId)
        requires
            old(self).wf(),
            player.0 < old(self).players@.len(),
            old(self).kittens(player.0 as int) < 255,
        ensures
            final(self).wf(),
            ({
                let inv = old(self).players@[player.0 as int].inventory;
                final(self).same_but(old(self), player.0 as int, Inventory { kittens: (inv.kittens + 1) as u8, ..inv })
            }),
    {
        let k = player.0 as usize;
        let mut inv = self.players[k].inventory;
        inv.kittens = inv.kittens + 1;
        self.set_inventory(k, inv);
    }

    /// Takes an adult cat from the hand of the player to move.
    pub fn take_cat(&mut self) -> (r: Option<Cat>)
        requires
            old(self).wf(),
        ensures
            final(self).wf(),
            ({
                let k = old(self).current_player as int;
                let inv = old(self).players@[k].inventory;
                if inv.cats > 0 {
                    &&& r == Some(Cat::Adult)
                    &&& final(self).same_but(old(self), k, Inventory { cats: (inv.cats - 1) as u8, ..inv })
                } else {
                    &&& r.is_none()
                    &&& final(self).players@ == old(self).players@
                    &&& final(self).current_player == old(self).current_player
                }
            }),
    {
        let k = self.current_player;
        if self.players[k].inventory.cats > 0 {
            let mut inv = self.players[k].inventory;
            inv.cats = inv.cats - 1;
            self.set_inventory(k, inv);
            Some(Cat::Adult)
        } else {
            None
        }
    }

    /// Adds `num` adult cats to the hand of the player to move.
    pub fn gain_cats(&mut self, num: u8)
        requires
            old(self).wf(),
            old(self).cats(old(self).current_player as int) + num <= 255,
        ensures
            final(self).wf(),
            ({
                let k = old(self).current_player as int;
                let inv = old(self).players@[k].inventory;
                final(self).same_but(old(self), k, Inventory { cats: (inv.cats + num) as u8, ..inv })
            }),
    {
        let k = self.current_player;
        let mut inv = self.players[k].inventory;
        inv.cats = inv.cats + num;
        self.set_inventory(k, inv);
    }

    /// Gives every player `inventory` and the turn back to player 0.
    pub fn reset(&mut self, inventory: Inventory)
        requires
            old(self).wf(),
        ensures
            final(self).wf(),
            final(self).current_player == 0,
            final(self).players@.len() == old(self).players@.len(),
            forall|j: int|
                0 <= j < final(self).players@.len() ==> (#[trigger] final(self).players@[j]).id == old(
                    self,
                ).players@[j].id && final(self).players@[j].name@ == old(self).players@[j].name@
                    && final(self).players@[j].inventory == inventory,
    {
        self.current_player = 0;
        let mut k: usize = 0;
        while k < self.players.len()
            invariant
                self.wf(),
                self.current_player == 0,
                k <= self.players@.len(),
                self.players@.len() == old(self).players@.len(),
                forall|j: int|
                    0 <= j < self.players@.len() ==> (#[trigger] self.players@[j]).id == old(self).players@[j].id
                        && self.players@[j].name@ == old(self).players@[j].name@,
                forall|j: int| 0 <= j < k ==> (#[trigger] self.players@[j]).inventory == inventory,
            decreases self.players@.len() - k,
        {
            self.set_inventory(k, inventory);
            k = k + 1;
        }
    }

    fn set_inventory(&mut self, k: usize, inv: Inventory)
        requires
            old(self).wf(),
            k < old(self).players@.len(),
        ensures
            final(self).wf(),
            final(self).same_but(old(self), k as int, inv),
    {
        let mut p = self.players.remove(k);
        p.inventory = inv;
        self.players.insert(k, p);
        proof {
            assert forall|j: int| 0 <= j < self.players@.len() implies (#[trigger] self.players@[j]).id.0 == j by {
                if j != k { assert(self.players@[j] == old(self).players@[j]); }
            }
        }
    }
}

} // verus!
