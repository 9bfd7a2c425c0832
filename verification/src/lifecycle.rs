//! The connection lifecycle.
//!
//! Every client identity is, at any time, in at most one of three
//! membership sets: `Guest` (connected, unauthenticated), `Online`
//! (authenticated, active) and `Offline` (known but not connected); an
//! identity with a player account is in exactly one of them.
//! Authentication is fire-and-forget: a valid key only enqueues the caller
//! into the pending queue, and the promotion to an account and the `Online`
//! set happens in a later authentication tick. Disconnecting always purges
//! the identity from the pending queue, so that a late tick can never
//! revive a session that already disconnected.

use vstd::prelude::*;
use crate::ids::{EntityId, Identity, PlayerAccountId};
use crate::entity::EntityType;
use crate::store::EntityStore;

verus! {

/// A player account, created on first successful authentication.
#[derive(Clone, Copy, Debug, PartialEq, Eq, Structural)]
pub struct PlayerAccount {
    pub id: PlayerAccountId,
    pub identity: Identity,
}

/// Which membership set a given identity is in.
#[derive(Clone, Copy, Debug, PartialEq, Eq, Structural)]
pub enum Membership {
    Guest,
    Online,
    Offline,
    Disconnected,
}

/// No identity occurs twice in `s`.
pub open spec fn no_dups(s: Seq<Identity>) -> bool {
    forall|i: int, j: int| 0 <= i < j < s.len() ==> s[i] != s[j]
}

/// `s` with every occurrence of `x` removed, keeping the order of the rest.
pub open spec fn ident_without(s: Seq<Identity>, x: Identity) -> Seq<Identity>
    decreases s.len(),
{
    if s.len() == 0 {
        Seq::empty()
    } else if s.last() == x {
        ident_without(s.drop_last(), x)
    } else {
        ident_without(s.drop_last(), x).push(s.last())
    }
}

/// What removal keeps and drops.
pub proof fn lemma_ident_without(s: Seq<Identity>, x: Identity)
    ensures
        !ident_without(s, x).contains(x),
        forall|y: Identity| y != x
            ==> (#[trigger] ident_without(s, x).contains(y) <==> s.contains(y)),
        no_dups(s) ==> no_dups(ident_without(s, x)),
        ident_without(s, x).len() <= s.len(),
        !s.contains(x) ==> ident_without(s, x) == s,
    decreases s.len(),
{
    let w = ident_without(s, x);
    if s.len() == 0 {
        assert(w =~= s);
    } else {
        let t = s.drop_last();
        let wt = ident_without(t, x);
        lemma_ident_without(t, x);
        assert forall|y: Identity| s.contains(y) && y != x implies t.contains(y) || s.last() == y by {
            let i = choose|i: int| 0 <= i < s.len() && s[i] == y;
            if i < s.len() - 1 {
                assert(t[i] == y);
            }
        }
        assert forall|y: Identity| t.contains(y) implies s.contains(y) by {
            let i = choose|i: int| 0 <= i < t.len() && t[i] == y;
            assert(s[i] == y);
        }
        if s.last() == x {
            assert(w == wt);
        } else {
            assert(w == wt.push(s.last()));
            assert forall|y: Identity| w.contains(y)
                implies (wt.contains(y) || s.last() == y) by {
                let i = choose|i: int| 0 <= i < w.len() && w[i] == y;
                if i < w.len() - 1 {
                    assert(wt[i] == y);
                }
            }
            assert(w[w.len() - 1] == s.last());
            assert forall|y: Identity| wt.contains(y) implies w.contains(y) by {
                let i = choose|i: int| 0 <= i < wt.len() && wt[i] == y;
                assert(w[i] == y);
            }
            if no_dups(s) {
                assert forall|i: int, j: int| 0 <= i < j < w.len() implies w[i] != w[j] by {
                    if j == w.len() - 1 {
                        assert(wt.contains(w[i]));
                        assert(t.contains(w[i]) || x == w[i]);
                        if t.contains(w[i]) {
                            let k = choose|k: int| 0 <= k < t.len() && t[k] == w[i];
                            assert(s[k] == w[i]);
                        }
                    }
                }
            }
        }
        if !s.contains(x) {
            assert(s[s.len() - 1] == s.last());
            assert(s.last() != x);
            assert(!t.contains(x));
            assert(w =~= s);
        }
    }
}

/// Membership in a sequence extended by one identity.
pub proof fn lemma_push_contains(s: Seq<Identity>, x: Identity)
    ensures
        forall|y: Identity| #[trigger] s.push(x).contains(y) <==> s.contains(y) || y == x,
{
    assert forall|y: Identity| #[trigger] s.push(x).contains(y)
        implies s.contains(y) || y == x by {
        let i = choose|i: int| 0 <= i < s.push(x).len() && s.push(x)[i] == y;
        if i < s.len() {
            assert(s[i] == y);
        }
    }
    assert forall|y: Identity| s.contains(y) || y == x
        implies #[trigger] s.push(x).contains(y) by {
        if s.contains(y) {
            let i = choose|i: int| 0 <= i < s.len() && s[i] == y;
            assert(s.push(x)[i] == y);
        } else {
            assert(s.push(x)[s.len() as int] == y);
        }
    }
}

/// Some account belongs to identity `x`.
pub open spec fn has_account(accounts: Seq<PlayerAccount>, x: Identity) -> bool {
    exists|i: int| 0 <= i < accounts.len() && (#[trigger] accounts[i]).identity == x
}

/// Account ownership in a table extended by one account.
pub proof fn lemma_account_push_contains(s: Seq<PlayerAccount>, a: PlayerAccount)
    ensures
        forall|y: Identity| #[trigger] has_account(s.push(a), y)
            <==> has_account(s, y) || a.identity == y,
{
    assert forall|y: Identity| #[trigger] has_account(s.push(a), y)
        implies has_account(s, y) || a.identity == y by {
        let i = choose|i: int|
            0 <= i < s.push(a).len() && (#[trigger] s.push(a)[i]).identity == y;
        if i < s.len() {
            assert(s[i].identity == y);
        }
    }
    assert forall|y: Identity| has_account(s, y) || a.identity == y
        implies #[trigger] has_account(s.push(a), y) by {
        if has_account(s, y) {
            let i = choose|i: int| 0 <= i < s.len() && (#[trigger] s[i]).identity == y;
            assert(s.push(a)[i].identity == y);
        } else {
            assert(s.push(a)[s.len() as int].identity == y);
        }
    }
}

/// The account of identity `x`; meaningful only when `has_account` holds
/// and identities are unique.
pub open spec fn account_of(accounts: Seq<PlayerAccount>, x: Identity) -> PlayerAccount {
    accounts[choose|i: int| 0 <= i < accounts.len() && (#[trigger] accounts[i]).identity == x]
}

/// Some account carries id `aid`.
pub open spec fn has_account_id(accounts: Seq<PlayerAccount>, aid: PlayerAccountId) -> bool {
    exists|i: int| 0 <= i < accounts.len() && (#[trigger] accounts[i]).id == aid
}

/// An account with id `aid` exists and its identity is `x`.
pub open spec fn owner_identity_is(accounts: Seq<PlayerAccount>, aid: PlayerAccountId, x: Identity) -> bool {
    exists|i: int| 0 <= i < accounts.len()
        && (#[trigger] accounts[i]).id == aid && accounts[i].identity == x
}

/// The entity owner `aid` belongs to an account whose identity is online.
pub open spec fn owner_online(accounts: Seq<PlayerAccount>, online: Seq<Identity>, aid: PlayerAccountId) -> bool {
    exists|i: int| 0 <= i < accounts.len()
        && (#[trigger] accounts[i]).id == aid && online.contains(accounts[i].identity)
}

/// The membership sets, account table and pending-authentication queue.
pub struct ConnectionLifecycle {
    pub accounts: Vec<PlayerAccount>,
    /// Connected but not authenticated.
    pub guests: Vec<Identity>,
    /// Authenticated and active.
    pub online: Vec<Identity>,
    /// Known but not connected.
    pub offline: Vec<Identity>,
    /// Identities awaiting the next authentication tick; duplicates allowed.
    pub pending_auth: Vec<Identity>,
    /// Next auto-incremented account id; ids start at 1.
    pub next_account_id: u32,
    /// The shared secret that `private_authenticate` checks a caller's key
    /// against.
    pub auth_key: String,
}

impl ConnectionLifecycle {
    /// The membership invariant.
    ///
    /// The three sets are duplicate-free and pairwise disjoint; online and
    /// offline identities have accounts; every account's identity is in
    /// exactly one set; accounts have unique ids and identities; and every
    /// pending identity is still connected (guest or online), because
    /// disconnecting purges it from the queue.
    pub open spec fn wf(self) -> bool {
        &&& no_dups(self.guests@)
        &&& no_dups(self.online@)
        &&& no_dups(self.offline@)
        &&& forall|x: Identity| #[trigger] self.guests@.contains(x) ==> !self.online@.contains(x)
        &&& forall|x: Identity| #[trigger] self.guests@.contains(x) ==> !self.offline@.contains(x)
        &&& forall|x: Identity| #[trigger] self.online@.contains(x) ==> !self.offline@.contains(x)
        &&& forall|x: Identity| #[trigger] self.online@.contains(x) ==> has_account(self.accounts@, x)
        &&& forall|x: Identity| #[trigger] self.offline@.contains(x) ==> has_account(self.accounts@, x)
        &&& forall|i: int| 0 <= i < self.accounts@.len()
                ==> self.guests@.contains((#[trigger] self.accounts@[i]).identity)
                    || self.online@.contains(self.accounts@[i].identity)
                    || self.offline@.contains(self.accounts@[i].identity)
        &&& forall|i: int, j: int| 0 <= i < j < self.accounts@.len()
                ==> (#[trigger] self.accounts@[i]).id != (#[trigger] self.accounts@[j]).id
        &&& forall|i: int, j: int| 0 <= i < j < self.accounts@.len()
                ==> (#[trigger] self.accounts@[i]).identity != (#[trigger] self.accounts@[j]).identity
        &&& forall|i: int| 0 <= i < self.accounts@.len()
                ==> 1 <= (#[trigger] self.accounts@[i]).id.0 < self.next_account_id
        &&& forall|x: Identity| #[trigger] self.pending_auth@.contains(x)
                ==> self.guests@.contains(x) || self.online@.contains(x)
        &&& self.next_account_id >= 1
    }

    /// A lifecycle with no known identities.
    pub fn new(auth_key: String) -> (r: ConnectionLifecycle)
        ensures
            r.wf(),
            r.accounts@.len() == 0,
            r.guests@.len() == 0,
            r.online@.len() == 0,
            r.offline@.len() == 0,
            r.pending_auth@.len() == 0,
            r.next_account_id == 1u32,
            r.auth_key == auth_key,
    {
        ConnectionLifecycle {
            accounts: Vec::new(),
            guests: Vec::new(),
            online: Vec::new(),
            offline: Vec::new(),
            pending_auth: Vec::new(),
            next_account_id: 1,
            auth_key,
        }
    }
}

/// What a transport-level connect does: an identity that is not already
/// connected becomes a guest, leaving the offline set if it was there.
pub open spec fn connect_rel(pre: ConnectionLifecycle, post: ConnectionLifecycle, x: Identity) -> bool {
    &&& post.accounts == pre.accounts
    &&& post.pending_auth == pre.pending_auth
    &&& post.next_account_id == pre.next_account_id
    &&& post.auth_key == pre.auth_key
    &&& post.online == pre.online
    &&& if pre.guests@.contains(x) || pre.online@.contains(x) {
            post.guests == pre.guests && post.offline == pre.offline
        } else {
            post.guests@ == pre.guests@.push(x)
                && post.offline@ == ident_without(pre.offline@, x)
        }
}

/// What a transport-level disconnect does: the identity is always purged
/// from the pending queue; an online identity moves to offline; a guest is
/// removed, moving to offline when it has an account.
pub open spec fn disconnect_rel(pre: ConnectionLifecycle, post: ConnectionLifecycle, x: Identity) -> bool {
    &&& post.accounts == pre.accounts
    &&& post.next_account_id == pre.next_account_id
    &&& post.auth_key == pre.auth_key
    &&& post.pending_auth@ == ident_without(pre.pending_auth@, x)
    &&& if pre.online@.contains(x) {
            &&& post.online@ == ident_without(pre.online@, x)
            &&& post.offline@ == pre.offline@.push(x)
            &&& post.guests == pre.guests
        } else if pre.guests@.contains(x) {
            &&& post.guests@ == ident_without(pre.guests@, x)
            &&& post.online == pre.online
            &&& post.offline@ == if has_account(pre.accounts@, x) {
                    pre.offline@.push(x)
                } else {
                    pre.offline@
                }
        } else {
            &&& post.guests == pre.guests
            &&& post.online == pre.online
            &&& post.offline == pre.offline
        }
}

/// What fire-and-forget authentication does: a connected caller presenting
/// the right key is enqueued for the next authentication tick; anything
/// else is ignored without a reply.
pub open spec fn authenticate_rel(
    pre: ConnectionLifecycle,
    post: ConnectionLifecycle,
    x: Identity,
    key: Seq<char>,
) -> bool {
    &&& post.accounts == pre.accounts
    &&& post.guests == pre.guests
    &&& post.online == pre.online
    &&& post.offline == pre.offline
    &&& post.next_account_id == pre.next_account_id
    &&& post.auth_key == pre.auth_key
    &&& post.pending_auth@ == if key == pre.auth_key@
            && (pre.guests@.contains(x) || pre.online@.contains(x)) {
            pre.pending_auth@.push(x)
        } else {
            pre.pending_auth@
        }
}

/// What processing one queued identity does: it leaves the guest set; an
/// identity without an account gets a fresh account and an entity triad
/// owned by it; either way it ends up online.
pub open spec fn admit_rel(
    store0: EntityStore,
    lc0: ConnectionLifecycle,
    store1: EntityStore,
    lc1: ConnectionLifecycle,
    x: Identity,
    now: u64,
) -> bool {
    &&& lc1.auth_key == lc0.auth_key
    &&& lc1.pending_auth == lc0.pending_auth
    &&& lc1.guests@ == ident_without(lc0.guests@, x)
    &&& lc1.offline@ == ident_without(lc0.offline@, x)
    &&& lc1.online@ == if lc0.online@.contains(x) { lc0.online@ } else { lc0.online@.push(x) }
    &&& if has_account(lc0.accounts@, x) {
            &&& lc1.accounts == lc0.accounts
            &&& lc1.next_account_id == lc0.next_account_id
            &&& store1 == store0
        } else {
            &&& lc1.accounts@ == lc0.accounts@.push(
                    PlayerAccount { id: PlayerAccountId(lc0.next_account_id), identity: x },
                )
            &&& lc1.next_account_id == lc0.next_account_id + 1
            &&& store1.next_id == store0.next_id + 1
            &&& store1.records@ == store0.records@.push(store1.records@.last())
            &&& store1.records@.last().is_fresh(
                    EntityId(store0.next_id),
                    EntityType::Player,
                    PlayerAccountId(lc0.next_account_id),
                    now,
                )
        }
}

/// Whether `v` holds identity `x`.
fn ident_vec_contains(v: &Vec<Identity>, x: Identity) -> (b: bool)
    ensures
        b == v@.contains(x),
{
    let n = v.len();
    let mut i: usize = 0;
    while i < n
        invariant
            i <= n,
            n == v@.len(),
            forall|k: int| 0 <= k < i ==> v@[k] != x,
        decreases n - i,
    {
        if v[i].0 == x.0 {
            assert(v@[i as int] == x);
            return true;
        }
        i = i + 1;
    }
    false
}

/// Removes every occurrence of identity `x` from `v`.
fn ident_vec_remove(v: &mut Vec<Identity>, x: Identity)
    ensures
        final(v)@ == ident_without(old(v)@, x),
{
    let mut kept: Vec<Identity> = Vec::new();
    let n = v.len();
    let mut i: usize = 0;
    while i < n
        invariant
            i <= n,
            n == v@.len(),
            v == old(v),
            kept@ == ident_without(v@.subrange(0, i as int), x),
        decreases n - i,
    {
        proof {
            let pre = v@.subrange(0, i as int);
            let cur = v@.subrange(0, i as int + 1);
            assert(cur.drop_last() =~= pre);
            assert(cur.last() == v@[i as int]);
        }
        let y = v[i];
        if y.0 != x.0 {
            kept.push(y);
        }
        i = i + 1;
    }
    proof {
        assert(v@.subrange(0, n as int) =~= v@);
    }
    *v = kept;
}

impl ConnectionLifecycle {
    /// Looks up the account of identity `x`.
    pub fn find_account(&self, x: Identity) -> (r: Option<PlayerAccount>)
        ensures
            match r {
                Some(a) => has_account(self.accounts@, x)
                    && exists|i: int| 0 <= i < self.accounts@.len()
                        && (#[trigger] self.accounts@[i]) == a && a.identity == x,
                None => !has_account(self.accounts@, x),
            },
    {
        let n = self.accounts.len();
        let mut i: usize = 0;
        while i < n
            invariant
                i <= n,
                n == self.accounts@.len(),
                forall|k: int| 0 <= k < i ==> (#[trigger] self.accounts@[k]).identity != x,
            decreases n - i,
        {
            if self.accounts[i].identity.0 == x.0 {
                assert(self.accounts@[i as int].identity == x);
                return Some(self.accounts[i]);
            }
            i = i + 1;
        }
        None
    }

    /// Whether the owner id belongs to an account whose identity is online.
    pub fn is_owner_online(&self, aid: PlayerAccountId) -> (b: bool)
        requires
            self.wf(),
        ensures
            b == owner_online(self.accounts@, self.online@, aid),
    {
        let n = self.accounts.len();
        let mut i: usize = 0;
        while i < n
            invariant
                i <= n,
                n == self.accounts@.len(),
                forall|k: int| 0 <= k < i ==> (#[trigger] self.accounts@[k]).id != aid
                    || !self.online@.contains(self.accounts@[k].identity),
            decreases n - i,
        {
            if self.accounts[i].id.0 == aid.0 {
                assert(self.accounts@[i as int].id == aid);
                if ident_vec_contains(&self.online, self.accounts[i].identity) {
                    return true;
                }
            }
            i = i + 1;
        }
        false
    }

    /// Which membership set identity `x` is in.
    pub fn membership_of(&self, x: Identity) -> (m: Membership)
        ensures
            m == (if self.guests@.contains(x) {
                Membership::Guest
            } else if self.online@.contains(x) {
                Membership::Online
            } else if self.offline@.contains(x) {
                Membership::Offline
            } else {
                Membership::Disconnected
            }),
    {
        if ident_vec_contains(&self.guests, x) {
            Membership::Guest
        } else if ident_vec_contains(&self.online, x) {
            Membership::Online
        } else if ident_vec_contains(&self.offline, x) {
            Membership::Offline
        } else {
            Membership::Disconnected
        }
    }

    /// Transport-level connect: a new or offline identity becomes a guest;
    /// connecting an already connected identity is a no-op.
    pub fn on_connect(&mut self, x: Identity)
        requires
            old(self).wf(),
        ensures
            final(self).wf(),
            connect_rel(*old(self), *final(self), x),
    {
        proof {
            lemma_ident_without(self.offline@, x);
        }
        if ident_vec_contains(&self.guests, x) || ident_vec_contains(&self.online, x) {
            return;
        }
        ident_vec_remove(&mut self.offline, x);
        self.guests.push(x);
        proof {
            let pre = *old(self);
            assert forall|y: Identity| #[trigger] self.guests@.contains(y)
                implies pre.guests@.contains(y) || y == x by {
                let i = choose|i: int| 0 <= i < self.guests@.len() && self.guests@[i] == y;
                if i < self.guests@.len() - 1 {
                    assert(pre.guests@[i] == y);
                }
            }
            assert forall|y: Identity| pre.guests@.contains(y)
                implies #[trigger] self.guests@.contains(y) by {
                let i = choose|i: int| 0 <= i < pre.guests@.len() && pre.guests@[i] == y;
                assert(self.guests@[i] == y);
            }
            assert(self.guests@[self.guests@.len() - 1] == x);
            assert forall|i: int, j: int| 0 <= i < j < self.guests@.len()
                implies self.guests@[i] != self.guests@[j] by {
                if j == self.guests@.len() - 1 {
                    assert(pre.guests@.contains(self.guests@[i]));
                }
            }
        }
    }

    /// Transport-level disconnect: always purges the identity from the
    /// pending queue; an online identity moves to offline, a guest with an
    /// account moves to offline, a guest without one is forgotten.
    pub fn on_disconnect(&mut self, x: Identity)
        requires
            old(self).wf(),
        ensures
            final(self).wf(),
            disconnect_rel(*old(self), *final(self), x),
    {
        proof {
            lemma_ident_without(self.pending_auth@, x);
            lemma_ident_without(self.online@, x);
            lemma_ident_without(self.guests@, x);
        }
        ident_vec_remove(&mut self.pending_auth, x);
        if ident_vec_contains(&self.online, x) {
            ident_vec_remove(&mut self.online, x);
            self.offline.push(x);
            proof {
                let pre = *old(self);
                assert(pre.online@.contains(x));
                assert(!pre.offline@.contains(x));
                assert forall|y: Identity| #[trigger] self.offline@.contains(y)
                    implies pre.offline@.contains(y) || y == x by {
                    let i = choose|i: int| 0 <= i < self.offline@.len() && self.offline@[i] == y;
                    if i < self.offline@.len() - 1 {
                        assert(pre.offline@[i] == y);
                    }
                }
                assert forall|y: Identity| pre.offline@.contains(y)
                    implies #[trigger] self.offline@.contains(y) by {
                    let i = choose|i: int| 0 <= i < pre.offline@.len() && pre.offline@[i] == y;
                    assert(self.offline@[i] == y);
                }
                assert(self.offline@[self.offline@.len() - 1] == x);
                assert forall|i: int, j: int| 0 <= i < j < self.offline@.len()
                    implies self.offline@[i] != self.offline@[j] by {
                    if j == self.offline@.len() - 1 {
                        assert(pre.offline@.contains(self.offline@[i]));
                    }
                }
            }
        } else if ident_vec_contains(&self.guests, x) {
            ident_vec_remove(&mut self.guests, x);
            let has = self.find_account(x);
            if has.is_some() {
                self.offline.push(x);
            }
            proof {
                let pre = *old(self);
                assert(pre.guests@.contains(x));
                assert(!pre.offline@.contains(x));
                if has_account(pre.accounts@, x) {
                    assert forall|y: Identity| #[trigger] self.offline@.contains(y)
                        implies pre.offline@.contains(y) || y == x by {
                        let i = choose|i: int| 0 <= i < self.offline@.len() && self.offline@[i] == y;
                        if i < self.offline@.len() - 1 {
                            assert(pre.offline@[i] == y);
                        }
                    }
                    assert forall|y: Identity| pre.offline@.contains(y)
                        implies #[trigger] self.offline@.contains(y) by {
                        let i = choose|i: int| 0 <= i < pre.offline@.len() && pre.offline@[i] == y;
                        assert(self.offline@[i] == y);
                    }
                    assert(self.offline@[self.offline@.len() - 1] == x);
                    assert forall|i: int, j: int| 0 <= i < j < self.offline@.len()
                        implies self.offline@[i] != self.offline@[j] by {
                        if j == self.offline@.len() - 1 {
                            assert(pre.offline@.contains(self.offline@[i]));
                        }
                    }
                }
            }
        }
    }

    /// Fire-and-forget authentication: a connected caller whose key matches
    /// is enqueued for the next authentication tick; there is no reply, and
    /// a wrong key changes nothing.
    pub fn private_authenticate(&mut self, x: Identity, key: String)
        requires
            old(self).wf(),
        ensures
            final(self).wf(),
            authenticate_rel(*old(self), *final(self), x, key@),
    {
        let connected = ident_vec_contains(&self.guests, x) || ident_vec_contains(&self.online, x);
        if connected && key == self.auth_key {
            self.pending_auth.push(x);
            proof {
                assert forall|y: Identity| #[trigger] self.pending_auth@.contains(y)
                    implies self.guests@.contains(y) || self.online@.contains(y) by {
                    let i = choose|i: int|
                        0 <= i < self.pending_auth@.len() && self.pending_auth@[i] == y;
                    if i < self.pending_auth@.len() - 1 {
                        assert(old(self).pending_auth@[i] == y);
                        assert(old(self).pending_auth@.contains(y));
                    }
                }
            }
        }
    }

    /// Takes the whole pending queue, leaving it empty; the tick then
    /// processes the drained entries, so that entries submitted afterwards
    /// wait for the next tick.
    pub fn take_pending(&mut self) -> (p: Vec<Identity>)
        requires
            old(self).wf(),
        ensures
            final(self).wf(),
            p@ == old(self).pending_auth@,
            final(self).pending_auth@.len() == 0,
            final(self).accounts == old(self).accounts,
            final(self).guests == old(self).guests,
            final(self).online == old(self).online,
            final(self).offline == old(self).offline,
            final(self).next_account_id == old(self).next_account_id,
            final(self).auth_key == old(self).auth_key,
    {
        let n = self.pending_auth.len();
        let mut p: Vec<Identity> = Vec::new();
        let mut i: usize = 0;
        while i < n
            invariant
                i <= n,
                n == self.pending_auth@.len(),
                self == old(self),
                p@ == self.pending_auth@.subrange(0, i as int),
            decreases n - i,
        {
            p.push(self.pending_auth[i]);
            proof {
                assert(p@ =~= self.pending_auth@.subrange(0, i as int + 1));
            }
            i = i + 1;
        }
        proof {
            assert(self.pending_auth@.subrange(0, n as int) =~= self.pending_auth@);
        }
        self.pending_auth.clear();
        p
    }
}

/// Processes one drained identity of the pending queue: removes it from
/// the guest set, creates an account and its entity triad when none
/// exists, and moves it to the online set.
pub fn admit_identity(store: &mut EntityStore, lc: &mut ConnectionLifecycle, x: Identity, now: u64)
    requires
        old(store).wf(),
        old(lc).wf(),
        old(store).next_id < u32::MAX,
        old(lc).next_account_id < u32::MAX,
    ensures
        final(store).wf(),
        final(lc).wf(),
        admit_rel(*old(store), *old(lc), *final(store), *final(lc), x, now),
{
    proof {
        lemma_ident_without(lc.guests@, x);
        lemma_ident_without(lc.offline@, x);
    }
    ident_vec_remove(&mut lc.guests, x);
    ident_vec_remove(&mut lc.offline, x);
    let account = lc.find_account(x);
    match account {
        Some(_) => {},
        None => {
            let aid = PlayerAccountId(lc.next_account_id);
            lc.accounts.push(PlayerAccount { id: aid, identity: x });
            lc.next_account_id = lc.next_account_id + 1;
            store.create_entity_tree(EntityType::Player, aid, now);
        }
    }
    let already_online = ident_vec_contains(&lc.online, x);
    if !already_online {
        lc.online.push(x);
    }
    proof {
        let pre = *old(lc);
        let post = *lc;
        if !pre.online@.contains(x) {
            assert forall|y: Identity| #[trigger] post.online@.contains(y)
                implies pre.online@.contains(y) || y == x by {
                let i = choose|i: int| 0 <= i < post.online@.len() && post.online@[i] == y;
                if i < post.online@.len() - 1 {
                    assert(pre.online@[i] == y);
                }
            }
            assert forall|y: Identity| pre.online@.contains(y)
                implies #[trigger] post.online@.contains(y) by {
                let i = choose|i: int| 0 <= i < pre.online@.len() && pre.online@[i] == y;
                assert(post.online@[i] == y);
            }
            assert(post.online@[post.online@.len() - 1] == x);
            assert forall|i: int, j: int| 0 <= i < j < post.online@.len()
                implies post.online@[i] != post.online@[j] by {
                if j == post.online@.len() - 1 {
                    assert(pre.online@.contains(post.online@[i]));
                }
            }
        }
        if !has_account(pre.accounts@, x) {
            assert(post.accounts@ == pre.accounts@.push(
                PlayerAccount { id: PlayerAccountId(pre.next_account_id), identity: x },
            ));
            assert forall|y: Identity| #[trigger] has_account(post.accounts@, y)
                implies has_account(pre.accounts@, y) || y == x by {
                let i = choose|i: int|
                    0 <= i < post.accounts@.len() && (#[trigger] post.accounts@[i]).identity == y;
                if i < post.accounts@.len() - 1 {
                    assert(pre.accounts@[i].identity == y);
                }
            }
            assert forall|y: Identity| has_account(pre.accounts@, y)
                implies #[trigger] has_account(post.accounts@, y) by {
                let i = choose|i: int|
                    0 <= i < pre.accounts@.len() && (#[trigger] pre.accounts@[i]).identity == y;
                assert(post.accounts@[i].identity == y);
            }
            assert(post.accounts@[post.accounts@.len() - 1].identity == x);
            assert(has_account(post.accounts@, x));
        }
        assert forall|y: Identity| #[trigger] post.online@.contains(y)
            implies has_account(post.accounts@, y) by {
            if y == x {
                if has_account(pre.accounts@, x) {
                    assert(post.accounts == pre.accounts);
                }
            } else {
                assert(pre.online@.contains(y));
                if !has_account(pre.accounts@, x) {
                    let i = choose|i: int|
                        0 <= i < pre.accounts@.len() && (#[trigger] pre.accounts@[i]).identity == y;
                    assert(post.accounts@[i].identity == y);
                }
            }
        }
        assert forall|i: int| 0 <= i < post.accounts@.len()
            implies post.guests@.contains((#[trigger] post.accounts@[i]).identity)
                || post.online@.contains(post.accounts@[i].identity)
                || post.offline@.contains(post.accounts@[i].identity) by {
            let y = post.accounts@[i].identity;
            if y == x {
                assert(post.online@.contains(x));
            } else {
                if i < pre.accounts@.len() {
                    assert(pre.accounts@[i] == post.accounts@[i]);
                    assert(pre.guests@.contains(y) || pre.online@.contains(y)
                        || pre.offline@.contains(y));
                } else {
                    assert(post.accounts@[i].identity == x);
                }
            }
        }
    }
}

/// When identities are unique, the account found at index `i` is the
/// account of its own identity.
pub proof fn lemma_account_at(accounts: Seq<PlayerAccount>, i: int, x: Identity)
    requires
        forall|a: int, b: int| 0 <= a < b < accounts.len()
            ==> (#[trigger] accounts[a]).identity != (#[trigger] accounts[b]).identity,
        0 <= i < accounts.len(),
        accounts[i].identity == x,
    ensures
        has_account(accounts, x),
        account_of(accounts, x) == accounts[i],
{
    assert(has_account(accounts, x));
    let j = choose|j: int|
        0 <= j < accounts.len() && (#[trigger] accounts[j]).identity == x;
    assert(0 <= j < accounts.len() && accounts[j].identity == x);
    if i != j {
        assert(accounts[i].identity != accounts[j].identity);
    }
}

/// Well-formedness makes the membership sets mutually exclusive: no
/// identity is ever in two of guests, online and offline, and every
/// account's identity is in exactly one of the three.
pub proof fn lemma_membership_exclusive(lc: ConnectionLifecycle, x: Identity)
    requires
        lc.wf(),
    ensures
        !(lc.guests@.contains(x) && lc.online@.contains(x)),
        !(lc.guests@.contains(x) && lc.offline@.contains(x)),
        !(lc.online@.contains(x) && lc.offline@.contains(x)),
        has_account(lc.accounts@, x)
            ==> (lc.guests@.contains(x) || lc.online@.contains(x) || lc.offline@.contains(x)),
{
    if has_account(lc.accounts@, x) {
        let i = choose|i: int|
            0 <= i < lc.accounts@.len() && (#[trigger] lc.accounts@[i]).identity == x;
        assert(lc.guests@.contains(lc.accounts@[i].identity)
            || lc.online@.contains(lc.accounts@[i].identity)
            || lc.offline@.contains(lc.accounts@[i].identity));
    }
}

} // verus!
