//! The cooldown ledger: one record per identity the board has ever seen,
//! held in exactly one of two disjoint sets — `players` (connected) or
//! `disconnected_players` (archived). Records move between the sets on
//! connect and disconnect and are never duplicated or dropped, so a
//! player's cooldown deadline survives reconnection.

use vstd::prelude::*;

use crate::tables::{Identity, Player};

verus! {

/// No identity occurs twice in `s`.
pub open spec fn ids_unique(s: Seq<Player>) -> bool {
    forall|i: int, j: int|
        #![trigger s[i], s[j]]
        0 <= i < s.len() && 0 <= j < s.len() && i != j ==> s[i].identity != s[j].identity
}

/// Some record in `s` belongs to `id`.
pub open spec fn has_id(s: Seq<Player>, id: Identity) -> bool {
    exists|i: int| #![trigger s[i]] 0 <= i < s.len() && s[i].identity == id
}

/// The position of `id`'s record in `s` (meaningful when `has_id` holds and
/// the identities of `s` are unique).
pub open spec fn idx_of(s: Seq<Player>, id: Identity) -> int {
    choose|i: int| #![trigger s[i]] 0 <= i < s.len() && s[i].identity == id
}

/// The deadline stored in `id`'s record in `s`.
pub open spec fn next_of(s: Seq<Player>, id: Identity) -> u64 {
    s[idx_of(s, id)].next_action
}

/// When the identities of `s` are unique, position `k` is exactly where
/// `idx_of` points for the identity stored there.
pub proof fn lemma_witness(s: Seq<Player>, k: int)
    requires
        ids_unique(s),
        0 <= k < s.len(),
    ensures
        has_id(s, s[k].identity),
        idx_of(s, s[k].identity) == k,
        next_of(s, s[k].identity) == s[k].next_action,
{
    assert(has_id(s, s[k].identity));
    let m = idx_of(s, s[k].identity);
    assert(0 <= m < s.len() && s[m].identity == s[k].identity);
    assert(m == k);
}

/// Removing position `k` removes exactly that record: every other identity
/// keeps its membership and its deadline.
pub proof fn lemma_remove_keeps_others(s: Seq<Player>, k: int)
    requires
        ids_unique(s),
        0 <= k < s.len(),
    ensures
        ids_unique(s.remove(k)),
        !has_id(s.remove(k), s[k].identity),
        forall|id: Identity| id != s[k].identity ==> (has_id(s.remove(k), id) <==> has_id(s, id)),
        forall|id: Identity|
            id != s[k].identity && has_id(s, id) ==> next_of(s.remove(k), id) == next_of(s, id),
{
    let t = s.remove(k);
    s.remove_ensures(k);
    assert forall|i: int, j: int|
        #![trigger t[i], t[j]]
        0 <= i < t.len() && 0 <= j < t.len() && i != j implies t[i].identity != t[j].identity by {
        let si: int = if i < k { i } else { i + 1 };
        let sj: int = if j < k { j } else { j + 1 };
        assert(t[i] == s[si] && t[j] == s[sj]);
    }
    if has_id(t, s[k].identity) {
        let i = idx_of(t, s[k].identity);
        assert(0 <= i < t.len() && t[i].identity == s[k].identity);
        let si: int = if i < k { i } else { i + 1 };
        assert(t[i] == s[si]);
        assert(false);
    }
    assert forall|id: Identity|
        id != s[k].identity implies (has_id(t, id) <==> has_id(s, id)) by {
        if has_id(t, id) {
            let i = idx_of(t, id);
            assert(0 <= i < t.len() && t[i].identity == id);
            let si: int = if i < k { i } else { i + 1 };
            assert(t[i] == s[si]);
            assert(has_id(s, id));
        }
        if has_id(s, id) {
            let j = idx_of(s, id);
            assert(0 <= j < s.len() && s[j].identity == id);
            if j < k {
                assert(t[j] == s[j]);
            } else {
                assert(t[j - 1] == s[j]);
            }
            assert(has_id(t, id));
        }
    }
    assert forall|id: Identity|
        id != s[k].identity && has_id(s, id) implies next_of(t, id) == next_of(s, id) by {
        let j = idx_of(s, id);
        assert(0 <= j < s.len() && s[j].identity == id);
        lemma_witness(s, j);
        let jt: int = if j < k { j } else { j - 1 };
        assert(t[jt] == s[j]);
        lemma_witness(t, jt);
    }
}

/// Appending a record for a fresh identity touches nobody else: every other
/// identity keeps its membership and its deadline.
pub proof fn lemma_push_keeps_others(s: Seq<Player>, p: Player)
    requires
        ids_unique(s),
        !has_id(s, p.identity),
    ensures
        ids_unique(s.push(p)),
        has_id(s.push(p), p.identity),
        next_of(s.push(p), p.identity) == p.next_action,
        forall|id: Identity| id != p.identity ==> (has_id(s.push(p), id) <==> has_id(s, id)),
        forall|id: Identity|
            id != p.identity && has_id(s, id) ==> next_of(s.push(p), id) == next_of(s, id),
{
    let t = s.push(p);
    let n = s.len() as int;
    assert(t[n] == p);
    assert forall|i: int, j: int|
        #![trigger t[i], t[j]]
        0 <= i < t.len() && 0 <= j < t.len() && i != j implies t[i].identity != t[j].identity by {
        if i < n && j < n {
            assert(t[i] == s[i] && t[j] == s[j]);
        } else if i < n {
            assert(t[i] == s[i] && t[j] == p);
        } else {
            assert(t[i] == p && t[j] == s[j]);
        }
    }
    lemma_witness(t, n);
    assert forall|id: Identity|
        id != p.identity implies (has_id(t, id) <==> has_id(s, id)) by {
        if has_id(t, id) {
            let i = idx_of(t, id);
            assert(0 <= i < t.len() && t[i].identity == id);
            assert(i < n && t[i] == s[i]);
            assert(has_id(s, id));
        }
        if has_id(s, id) {
            let j = idx_of(s, id);
            assert(0 <= j < s.len() && s[j].identity == id);
            assert(t[j] == s[j]);
            assert(has_id(t, id));
        }
    }
    assert forall|id: Identity|
        id != p.identity && has_id(s, id) implies next_of(t, id) == next_of(s, id) by {
        let j = idx_of(s, id);
        assert(0 <= j < s.len() && s[j].identity == id);
        lemma_witness(s, j);
        assert(t[j] == s[j]);
        lemma_witness(t, j);
    }
}

/// Overwriting position `k` with a record for the same identity changes at
/// most that identity's deadline: memberships are untouched everywhere.
pub proof fn lemma_update_keeps_others(s: Seq<Player>, k: int, p: Player)
    requires
        ids_unique(s),
        0 <= k < s.len(),
        p.identity == s[k].identity,
    ensures
        ids_unique(s.update(k, p)),
        forall|id: Identity| has_id(s.update(k, p), id) <==> has_id(s, id),
        next_of(s.update(k, p), p.identity) == p.next_action,
        forall|id: Identity|
            id != p.identity && has_id(s, id) ==> next_of(s.update(k, p), id) == next_of(s, id),
{
    let t = s.update(k, p);
    assert(t[k] == p);
    assert forall|i: int, j: int|
        #![trigger t[i], t[j]]
        0 <= i < t.len() && 0 <= j < t.len() && i != j implies t[i].identity != t[j].identity by {
        assert(t[i] == if i == k { p } else { s[i] });
        assert(t[j] == if j == k { p } else { s[j] });
    }
    lemma_witness(t, k);
    assert forall|id: Identity| has_id(t, id) <==> has_id(s, id) by {
        if has_id(t, id) {
            let i = idx_of(t, id);
            assert(0 <= i < t.len() && t[i].identity == id);
            assert(t[i] == if i == k { p } else { s[i] });
            assert(has_id(s, id));
        }
        if has_id(s, id) {
            let j = idx_of(s, id);
            assert(0 <= j < s.len() && s[j].identity == id);
            if j == k {
                assert(t[k] == p);
            } else {
                assert(t[j] == s[j]);
            }
            assert(has_id(t, id));
        }
    }
    assert forall|id: Identity|
        id != p.identity && has_id(s, id) implies next_of(t, id) == next_of(s, id) by {
        let j = idx_of(s, id);
        assert(0 <= j < s.len() && s[j].identity == id);
        lemma_witness(s, j);
        assert(t[j] == s[j]);
        lemma_witness(t, j);
    }
}

/// The two cooldown sets: records of connected players and records kept for
/// disconnected ones.
pub struct CooldownLedger {
    pub players: Vec<Player>,
    pub disconnected_players: Vec<Player>,
}

/// Both ledgers hold exactly the same state.
pub open spec fn ledger_unchanged(pre: CooldownLedger, post: CooldownLedger) -> bool {
    &&& post.players@ == pre.players@
    &&& post.disconnected_players@ == pre.disconnected_players@
}

/// Every identity other than `id` keeps its membership in both sets and its
/// deadline from `pre` to `post`.
pub open spec fn others_unchanged(pre: CooldownLedger, post: CooldownLedger, id: Identity) -> bool {
    forall|j: Identity|
        #![trigger post.is_active(j)]
        #![trigger pre.is_active(j)]
        j != id ==> {
            &&& (post.is_active(j) <==> pre.is_active(j))
            &&& (post.is_archived(j) <==> pre.is_archived(j))
            &&& (pre.is_active(j) ==> post.active_next(j) == pre.active_next(j))
            &&& (pre.is_archived(j) ==> post.archived_next(j) == pre.archived_next(j))
        }
}

/// `post` is `pre` with `id`'s record moved from the active to the archived
/// set, its deadline kept exactly.
pub open spec fn archives(pre: CooldownLedger, post: CooldownLedger, id: Identity) -> bool {
    &&& pre.is_active(id)
    &&& !post.is_active(id)
    &&& post.is_archived(id)
    &&& post.archived_next(id) == pre.active_next(id)
    &&& post.players@.len() == pre.players@.len() - 1
    &&& post.disconnected_players@.len() == pre.disconnected_players@.len() + 1
    &&& others_unchanged(pre, post, id)
}

/// `post` is `pre` with `id`'s record moved from the archived to the active
/// set, its deadline kept exactly.
pub open spec fn restores(pre: CooldownLedger, post: CooldownLedger, id: Identity) -> bool {
    &&& pre.is_archived(id)
    &&& post.is_active(id)
    &&& !post.is_archived(id)
    &&& post.active_next(id) == pre.archived_next(id)
    &&& post.players@.len() == pre.players@.len() + 1
    &&& post.disconnected_players@.len() == pre.disconnected_players@.len() - 1
    &&& others_unchanged(pre, post, id)
}

/// `post` is `pre` with a brand-new active record for `id`, deadline `next`.
pub open spec fn creates_active(
    pre: CooldownLedger,
    post: CooldownLedger,
    id: Identity,
    next: u64,
) -> bool {
    &&& post.is_active(id)
    &&& !post.is_archived(id)
    &&& post.active_next(id) == next
    &&& post.players@.len() == pre.players@.len() + 1
    &&& post.disconnected_players@ == pre.disconnected_players@
    &&& others_unchanged(pre, post, id)
}

/// `post` is `pre` with `id`'s active deadline replaced by `next`.
pub open spec fn reschedules(
    pre: CooldownLedger,
    post: CooldownLedger,
    id: Identity,
    next: u64,
) -> bool {
    &&& post.is_active(id)
    &&& post.active_next(id) == next
    &&& post.players@.len() == pre.players@.len()
    &&& post.disconnected_players@ == pre.disconnected_players@
    &&& others_unchanged(pre, post, id)
}

/// Linear scan for `id`'s record.
fn find_in(v: &Vec<Player>, id: Identity) -> (r: Option<usize>)
    ensures
        match r {
            Some(i) => i < v@.len() && v@[i as int].identity == id,
            None => !has_id(v@, id),
        },
{
    let mut i: usize = 0;
    while i < v.len()
        invariant
            0 <= i <= v@.len(),
            forall|j: int| #![trigger v@[j]] 0 <= j < i ==> v@[j].identity != id,
        decreases v@.len() - i,
    {
        if v[i].identity == id {
            return Some(i);
        }
        i += 1;
    }
    None
}

impl CooldownLedger {
    /// Identities are unique within each set, and no identity is in both.
    pub open spec fn wf(self) -> bool {
        &&& ids_unique(self.players@)
        &&& ids_unique(self.disconnected_players@)
        &&& forall|id: Identity|
            !(#[trigger] has_id(self.players@, id) && has_id(self.disconnected_players@, id))
    }

    /// `id` is currently connected.
    pub open spec fn is_active(self, id: Identity) -> bool {
        has_id(self.players@, id)
    }

    /// `id` is disconnected but its cooldown record is kept.
    pub open spec fn is_archived(self, id: Identity) -> bool {
        has_id(self.disconnected_players@, id)
    }

    /// The board has seen `id` at some point: a record exists somewhere.
    pub open spec fn is_known(self, id: Identity) -> bool {
        self.is_active(id) || self.is_archived(id)
    }

    /// The deadline of `id`'s active record.
    pub open spec fn active_next(self, id: Identity) -> u64 {
        next_of(self.players@, id)
    }

    /// The deadline of `id`'s archived record.
    pub open spec fn archived_next(self, id: Identity) -> u64 {
        next_of(self.disconnected_players@, id)
    }

    /// Eligible to act now: no active record, or its deadline has passed.
    pub open spec fn spec_is_eligible(self, id: Identity, now: u64) -> bool {
        !self.is_active(id) || self.active_next(id) <= now
    }

    /// An empty ledger: nobody has ever connected.
    pub fn new() -> (l: CooldownLedger)
        ensures
            l.wf(),
            l.players@.len() == 0,
            l.disconnected_players@.len() == 0,
    {
        CooldownLedger { players: Vec::new(), disconnected_players: Vec::new() }
    }

    /// Whether `id` currently has an active record.
    pub fn contains_active(&self, id: Identity) -> (r: bool)
        ensures
            r == self.is_active(id),
    {
        match find_in(&self.players, id) {
            Some(i) => {
                proof {
                    assert(has_id(self.players@, id));
                }
                true
            },
            None => false,
        }
    }

    /// The active record of `id`, when there is one.
    pub fn get_active(&self, id: Identity) -> (r: Option<Player>)
        requires
            self.wf(),
        ensures
            r == if self.is_active(id) {
                Some(Player { identity: id, next_action: self.active_next(id) })
            } else {
                None::<Player>
            },
    {
        match find_in(&self.players, id) {
            Some(i) => {
                let p = self.players[i];
                proof {
                    lemma_witness(self.players@, i as int);
                }
                Some(p)
            },
            None => None,
        }
    }

    /// True when `id` may act at time `now`: it has no active record, or the
    /// record's deadline is not in the future.
    pub fn is_eligible(&self, id: Identity, now: u64) -> (r: bool)
        requires
            self.wf(),
        ensures
            r == self.spec_is_eligible(id, now),
    {
        match self.get_active(id) {
            None => true,
            Some(p) => p.next_action <= now,
        }
    }

    /// Number of currently connected players.
    pub fn active_count(&self) -> (n: usize)
        ensures
            n == self.players@.len(),
    {
        self.players.len()
    }

    /// First-ever connection: when no record exists anywhere, creates an
    /// active one whose deadline is `now` — a newly connected player is
    /// immediately eligible. Otherwise changes nothing.
    pub fn ensure_active(&mut self, id: Identity, now: u64)
        requires
            old(self).wf(),
        ensures
            final(self).wf(),
            !old(self).is_known(id) ==> creates_active(*old(self), *final(self), id, now),
            old(self).is_known(id) ==> ledger_unchanged(*old(self), *final(self)),
    {
        let in_active = find_in(&self.players, id);
        let in_archived = find_in(&self.disconnected_players, id);
        match (in_active, in_archived) {
            (None, None) => {
                let p = Player { identity: id, next_action: now };
                self.players.push(p);
                proof {
                    lemma_push_keeps_others(old(self).players@, p);
                    assert forall|j: Identity|
                        !(#[trigger] has_id(self.players@, j)
                            && has_id(self.disconnected_players@, j)) by {
                        if j != id {
                            assert(has_id(self.players@, j) <==> has_id(old(self).players@, j));
                        }
                    }
                }
            },
            _ => {
                proof {
                    match in_active {
                        Some(i) => {
                            assert(self.players@[i as int].identity == id);
                            assert(has_id(self.players@, id));
                        },
                        None => {
                            match in_archived {
                                Some(i) => {
                                    assert(self.disconnected_players@[i as int].identity == id);
                                    assert(has_id(self.disconnected_players@, id));
                                },
                                None => {
                                    assert(false);
                                },
                            }
                        },
                    }
                }
            },
        }
    }

    /// Consumes the player's action window: sets its deadline to
    /// `now + cooldown_seconds`. With the cooldown disabled
    /// (`cooldown_seconds == 0`) this is deliberately a no-op, leaving the
    /// player always eligible.
    pub fn record_action(&mut self, id: Identity, now: u64, cooldown_seconds: u64)
        requires
            old(self).wf(),
            old(self).is_active(id),
            now + cooldown_seconds <= u64::MAX,
        ensures
            final(self).wf(),
            cooldown_seconds == 0 ==> ledger_unchanged(*old(self), *final(self)),
            cooldown_seconds > 0 ==> reschedules(
                *old(self),
                *final(self),
                id,
                (now + cooldown_seconds) as u64,
            ),
    {
        if cooldown_seconds == 0 {
            return;
        }
        match find_in(&self.players, id) {
            Some(i) => {
                let np = Player { identity: id, next_action: now + cooldown_seconds };
                self.players.set(i, np);
                proof {
                    lemma_update_keeps_others(old(self).players@, i as int, np);
                    assert forall|j: Identity|
                        !(#[trigger] has_id(self.players@, j)
                            && has_id(self.disconnected_players@, j)) by {
                        assert(has_id(self.players@, j) <==> has_id(old(self).players@, j));
                    }
                }
            },
            None => {
                proof {
                    assert(false);
                }
            },
        }
    }

    /// Disconnect: moves `id`'s active record, deadline untouched, into the
    /// archived set. Without an active record this changes nothing, so a
    /// duplicate disconnect signal is harmless.
    pub fn archive(&mut self, id: Identity) -> (moved: bool)
        requires
            old(self).wf(),
        ensures
            final(self).wf(),
            moved == old(self).is_active(id),
            old(self).is_active(id) ==> archives(*old(self), *final(self), id),
            !old(self).is_active(id) ==> ledger_unchanged(*old(self), *final(self)),
    {
        match find_in(&self.players, id) {
            Some(i) => {
                proof {
                    lemma_witness(old(self).players@, i as int);
                    lemma_remove_keeps_others(old(self).players@, i as int);
                }
                let p = self.players.remove(i);
                proof {
                    assert(!has_id(old(self).disconnected_players@, id));
                    lemma_push_keeps_others(old(self).disconnected_players@, p);
                }
                self.disconnected_players.push(p);
                proof {
                    assert forall|j: Identity|
                        !(#[trigger] has_id(self.players@, j)
                            && has_id(self.disconnected_players@, j)) by {
                        if j != id {
                            assert(has_id(self.players@, j) <==> has_id(old(self).players@, j));
                            assert(has_id(self.disconnected_players@, j) <==> has_id(
                                old(self).disconnected_players@,
                                j,
                            ));
                        } else {
                            assert(!has_id(self.players@, j));
                        }
                    }
                }
                true
            },
            None => false,
        }
    }

    /// Reconnect of a previously seen identity: moves `id`'s archived
    /// record, deadline untouched, back into the active set. Without an
    /// archived record this changes nothing.
    pub fn restore(&mut self, id: Identity) -> (moved: bool)
        requires
            old(self).wf(),
        ensures
            final(self).wf(),
            moved == old(self).is_archived(id),
            old(self).is_archived(id) ==> restores(*old(self), *final(self), id),
            !old(self).is_archived(id) ==> ledger_unchanged(*old(self), *final(self)),
    {
        match find_in(&self.disconnected_players, id) {
            Some(i) => {
                proof {
                    lemma_witness(old(self).disconnected_players@, i as int);
                    lemma_remove_keeps_others(old(self).disconnected_players@, i as int);
                }
                let p = self.disconnected_players.remove(i);
                proof {
                    assert(!has_id(old(self).players@, id));
                    lemma_push_keeps_others(old(self).players@, p);
                }
                self.players.push(p);
                proof {
                    assert forall|j: Identity|
                        !(#[trigger] has_id(self.players@, j)
                            && has_id(self.disconnected_players@, j)) by {
                        if j != id {
                            assert(has_id(self.players@, j) <==> has_id(old(self).players@, j));
                            assert(has_id(self.disconnected_players@, j) <==> has_id(
                                old(self).disconnected_players@,
                                j,
                            ));
                        } else {
                            assert(!has_id(self.disconnected_players@, j));
                        }
                    }
                }
                true
            },
            None => false,
        }
    }
}

/// Disconnecting and then immediately reconnecting the same identity hands
/// back exactly the deadline it had: archiving a record and restoring it
/// preserves `next_action`, so reconnection can never reset a cooldown.
pub proof fn lemma_reconnect_preserves_deadline(
    s0: CooldownLedger,
    s1: CooldownLedger,
    s2: CooldownLedger,
    id: Identity,
)
    requires
        archives(s0, s1, id),
        restores(s1, s2, id),
    ensures
        s2.is_active(id),
        s2.active_next(id) == s0.active_next(id),
{
}

} // verus!
