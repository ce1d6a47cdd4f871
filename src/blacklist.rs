//! Players kept off the leaderboard.

use vstd::prelude::*;

use crate::model::PlayerID;

verus! {

/// Why a blacklist change was refused.
#[derive(Clone, Copy, Debug, PartialEq, Eq, Structural)]
pub enum BlacklistError {
    AlreadyListed,
    NotListed,
}

/// The players kept off the leaderboard, each listed once, in the order added.
pub struct Blacklist {
    ids: Vec<PlayerID>,
}

impl Blacklist {
    /// The listed players, in the order added.
    pub closed spec fn listed(self) -> Seq<PlayerID> {
        self.ids@
    }

    pub closed spec fn wf(self) -> bool {
        self.ids@.no_duplicates()
    }

    /// An empty blacklist.
    pub fn new() -> (r: Self)
        ensures
            r.wf(),
            r.listed() == Seq::<PlayerID>::empty(),
    {
        Blacklist { ids: Vec::new() }
    }

    /// Whether `player` is listed.
    pub fn contains(&self, player: PlayerID) -> (r: bool)
        ensures
            r == self.listed().contains(player),
    {
        let mut i: usize = 0;
        while i < self.ids.len()
            invariant
                i <= self.ids@.len(),
                forall|j: int| 0 <= j < i ==> self.ids@[j] != player,
            decreases self.ids@.len() - i,
        {
            if self.ids[i] == player {
                assert(self.ids@[i as int] == player);
                return true;
            }
            i = i + 1;
        }
        false
    }

    /// The listed players, in the order added.
    pub fn list(&self) -> (r: &Vec<PlayerID>)
        ensures
            r@ == self.listed(),
    {
        &self.ids
    }

    /// Lists `player`, who must not be listed yet.
    pub fn add(&mut self, player: PlayerID) -> (r: Result<(), BlacklistError>)
        requires
            old(self).wf(),
        ensures
            final(self).wf(),
            r is Ok <==> !old(self).listed().contains(player),
            r is Ok ==> final(self).listed() == old(self).listed().push(player),
            r is Err ==> r == Err::<(), BlacklistError>(BlacklistError::AlreadyListed)
                && final(self).listed() == old(self).listed(),
    {
        if self.contains(player) {
            return Err(BlacklistError::AlreadyListed);
        }
        self.ids.push(player);
        assert forall|i: int, j: int| 0 <= i < j < self.ids@.len() implies self.ids@[i] != self.ids@[j] by {
            if j == self.ids@.len() - 1 {
                assert(old(self).ids@[i] == self.ids@[i]);
            } else {
                assert(old(self).ids@[i] == self.ids@[i]);
                assert(old(self).ids@[j] == self.ids@[j]);
            }
        }
        Ok(())
    }

    /// Takes `player`, who must be listed, off the list.
    pub fn remove(&mut self, player: PlayerID) -> (r: Result<(), BlacklistError>)
        requires
            old(self).wf(),
        ensures
            final(self).wf(),
            r is Ok <==> old(self).listed().contains(player),
            r is Ok ==> final(self).listed() == old(self).listed().remove_value(player),
            r is Err ==> r == Err::<(), BlacklistError>(BlacklistError::NotListed)
                && final(self).listed() == old(self).listed(),
    {
        let mut i: usize = 0;
        while i < self.ids.len()
            invariant
                self.wf(),
                self.ids@ == old(self).ids@,
                i <= self.ids@.len(),
                forall|j: int| 0 <= j < i ==> self.ids@[j] != player,
            decreases self.ids@.len() - i,
        {
            if self.ids[i] == player {
                let ghost before = self.ids@;
                proof {
                    assert(before[i as int] == player);
                    before.index_of_first_ensures(player);
                    assert(before.index_of_first(player) == Some(i as int));
                }
                self.ids.remove(i);
                assert(self.ids@ =~= before.remove_value(player));
                assert(self.ids@.no_duplicates()) by {
                    assert forall|a: int, b: int| 0 <= a < b < self.ids@.len() implies self.ids@[a] != self.ids@[b] by {
                        let a0 = if a < i { a } else { a + 1 };
                        let b0 = if b < i { b } else { b + 1 };
                        assert(self.ids@[a] == before[a0]);
                        assert(self.ids@[b] == before[b0]);
                    }
                }
                return Ok(());
            }
            i = i + 1;
        }
        Err(BlacklistError::NotListed)
    }

    /// `ranked` without the listed players, in the same order.
    pub fn visible(&self, ranked: &Vec<PlayerID>) -> (r: Vec<PlayerID>)
        ensures
            r@ == ranked@.filter(|p: PlayerID| !self.listed().contains(p)),
    {
        let ghost f = |p: PlayerID| !self.listed().contains(p);
        let mut out: Vec<PlayerID> = Vec::new();
        let mut i: usize = 0;
        while i < ranked.len()
            invariant
                i <= ranked@.len(),
                f == (|p: PlayerID| !self.listed().contains(p)),
                out@ == ranked@.subrange(0, i as int).filter(f),
            decreases ranked@.len() - i,
        {
            let p = ranked[i];
            let ghost pre = ranked@.subrange(0, i as int);
            assert(ranked@.subrange(0, i + 1) =~= pre.push(p));
            proof {
                pre.lemma_filter_push(p, f);
            }
            if !self.contains(p) {
                out.push(p);
            }
            i = i + 1;
        }
        assert(ranked@.subrange(0, ranked@.len() as int) =~= ranked@);
        out
    }
}

} // verus!
