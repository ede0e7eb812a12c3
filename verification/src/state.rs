//! The key-value state the execution reads and writes, the in-memory store,
//! the overlay of pending writes kept over a store while transactions run,
//! and transaction admission: each account's transactions carry consecutive
//! nonces, starting at zero.

use std::collections::{BTreeMap, HashMap};
use vstd::prelude::*;

verus! {

broadcast use vstd::std_specs::hash::group_hash_axioms, vstd::std_specs::btree::group_btree_axioms,
    vstd::laws_cmp::group_laws_cmp;

/// What the keys of a store must obey for its maps to behave as maps: a
/// total order that agrees with equality, and hashing that agrees with it too.
pub open spec fn key_laws<K: Ord + std::hash::Hash>() -> bool {
    &&& vstd::laws_cmp::obeys_cmp::<K>()
    &&& vstd::std_specs::hash::obeys_key_model::<K>()
}

/// A pending change to one key: a new value, or its removal.
#[derive(Clone, Debug, PartialEq, Eq)]
pub enum Status<V> {
    Update(V),
    Delete,
}

/// What a read of `key` gives in a store holding `m`.
pub open spec fn lookup<K, V>(m: Map<K, V>, key: K) -> Option<V> {
    if m.contains_key(key) {
        Some(m[key])
    } else {
        None
    }
}

/// A store after one change.
pub open spec fn apply_one<K, V>(m: Map<K, V>, change: (K, Status<V>)) -> Map<K, V> {
    match change.1 {
        Status::Update(v) => m.insert(change.0, v),
        Status::Delete => m.remove(change.0),
    }
}

/// A store after a list of changes, applied in order.
pub open spec fn applied<K, V>(m: Map<K, V>, changes: Seq<(K, Status<V>)>) -> Map<K, V>
    decreases changes.len(),
{
    if changes.len() == 0 {
        m
    } else {
        apply_one(applied(m, changes.drop_last()), changes.last())
    }
}

/// What a store reads as through pending changes: a key with a pending
/// update reads as its new value, a key with a pending removal is absent,
/// any other key reads as in the store below.
pub open spec fn overlay<K, V>(base: Map<K, V>, pending: Map<K, Status<V>>) -> Map<K, V> {
    Map::new(
        |k: K|
            if pending.contains_key(k) {
                pending[k] is Update
            } else {
                base.contains_key(k)
            },
        |k: K|
            if pending.contains_key(k) {
                pending[k]->Update_0
            } else {
                base[k]
            },
    )
}

/// A key-value store. Reads give what the last write of a key left there.
pub trait State<K: Ord + std::hash::Hash, V> {
    /// The entries the store holds.
    spec fn contents(&self) -> Map<K, V>;

    /// The value of `key`, if it has one.
    fn get(&self, key: &K) -> (r: Option<&V>)
        requires
            key_laws::<K>(),
        ensures
            match r {
                Some(v) => lookup(self.contents(), *key) == Some(*v),
                None => lookup(self.contents(), *key) is None,
            },
    ;

    /// Sets the value of `key`.
    fn insert(&mut self, key: K, value: V)
        requires
            key_laws::<K>(),
        ensures
            final(self).contents() == old(self).contents().insert(key, value),
    ;

    /// Removes `key`.
    fn delete(&mut self, key: K)
        requires
            key_laws::<K>(),
        ensures
            final(self).contents() == old(self).contents().remove(key),
    ;

    /// Applies a list of changes in order.
    fn apply(&mut self, changes: Vec<(K, Status<V>)>)
        requires
            key_laws::<K>(),
        ensures
            final(self).contents() == applied(old(self).contents(), changes@),
    {
        let ghost start = self.contents();
        let ghost all = changes@;
        assert(all.take(all.len() as int) =~= all);
        for change in it: changes
            invariant
                key_laws::<K>(),
                it.seq() == all,
                self.contents() == applied(start, all.take(it.index() as int)),
        {
            proof {
                assert(all.take(it.index() + 1).drop_last() =~= all.take(it.index() as int));
            }
            let (key, status) = change;
            match status {
                Status::Update(value) => self.insert(key, value),
                Status::Delete => self.delete(key),
            }
        }
    }
}

/// A store held in memory.
pub struct Memory<K, V> {
    state: HashMap<K, V>,
}

impl<K: Ord + std::hash::Hash, V> Memory<K, V> {
    /// An empty store.
    pub fn new() -> (m: Self)
        ensures
            m.contents() == Map::<K, V>::empty(),
    {
        Memory { state: HashMap::new() }
    }
}

impl<K: Ord + std::hash::Hash, V> Default for Memory<K, V> {
    fn default() -> (m: Self)
        ensures
            m.contents() == Map::<K, V>::empty(),
    {
        Memory::new()
    }
}

impl<K: Ord + std::hash::Hash, V> State<K, V> for Memory<K, V> {
    closed spec fn contents(&self) -> Map<K, V> {
        self.state@
    }

    fn get(&self, key: &K) -> (r: Option<&V>) {
        self.state.get(key)
    }

    fn insert(&mut self, key: K, value: V) {
        self.state.insert(key, value);
    }

    fn delete(&mut self, key: K) {
        self.state.remove(&key);
    }
}

/// Whether `s` lists the entries of `m`: each entry of `s` is one of `m`,
/// each key of `m` occurs in `s`, and no key occurs twice.
pub open spec fn lists<K, V>(m: Map<K, V>, s: Seq<(K, V)>) -> bool {
    &&& forall|i: int| 0 <= i < s.len() ==> #[trigger] m.contains_key(s[i].0) && m[s[i].0] == s[i].1
    &&& forall|k: K| #[trigger] m.contains_key(k) ==> exists|i: int| 0 <= i < s.len() && s[i].0 == k
    &&& forall|i: int, j: int| 0 <= i < j < s.len() ==> s[i].0 != s[j].0
}

/// The keys of a list of entries.
pub open spec fn entry_keys<K, V>(s: Seq<(K, V)>) -> Seq<K> {
    s.map_values(|e: (K, V)| e.0)
}

/// `Vec::from_iter` over a `BTreeMap`: its documentation gives the map's
/// entries, each once, in increasing order of keys. That is what this
/// contract says, for keys whose order behaves as one.
#[verifier::external_body]
pub(crate) fn btree_entries<K: Ord, V>(m: BTreeMap<K, V>) -> (r: Vec<(K, V)>)
    ensures
        vstd::laws_cmp::obeys_cmp::<K>() ==> lists(m@, r@),
        vstd::laws_cmp::obeys_cmp::<K>() ==> vstd::std_specs::btree::increasing_seq(entry_keys(r@)),
{
    Vec::from_iter(m)
}

/// The value `key` reads as through `pending` over `state`.
pub(crate) fn read_through<'b, K: Ord + std::hash::Hash, V, S: State<K, V>>(
    state: &'b S,
    pending: &'b BTreeMap<K, Status<V>>,
    key: &K,
) -> (r: Option<&'b V>)
    requires
        key_laws::<K>(),
    ensures
        match r {
            Some(v) => lookup(overlay(state.contents(), pending@), *key) == Some(*v),
            None => lookup(overlay(state.contents(), pending@), *key) is None,
        },
{
    match pending.get(key) {
        Some(Status::Update(value)) => Some(value),
        Some(Status::Delete) => None,
        None => state.get(key),
    }
}

/// A pending update of `key` over `pending` shows as `key` holding `value`.
pub(crate) proof fn lemma_overlay_update<K, V>(base: Map<K, V>, pending: Map<K, Status<V>>, key: K, value: V)
    ensures
        overlay(base, pending.insert(key, Status::Update(value))) == overlay(base, pending).insert(key, value),
{
    assert(overlay(base, pending.insert(key, Status::Update(value))) =~= overlay(base, pending).insert(key, value));
}

/// A pending removal of `key` over `pending` shows as `key` gone.
pub(crate) proof fn lemma_overlay_delete<K, V>(base: Map<K, V>, pending: Map<K, Status<V>>, key: K)
    ensures
        overlay(base, pending.insert(key, Status::Delete)) == overlay(base, pending).remove(key),
{
    assert(overlay(base, pending.insert(key, Status::Delete)) =~= overlay(base, pending).remove(key));
}

/// Nothing pending: the store reads as it is.
pub(crate) proof fn lemma_overlay_empty<K, V>(base: Map<K, V>)
    ensures
        overlay(base, Map::<K, Status<V>>::empty()) == base,
{
    assert(overlay(base, Map::<K, Status<V>>::empty()) =~= base);
}

/// Writing the changes an overlay lists into the store below it makes the
/// store read as the overlay did, whatever the order of the list.
pub proof fn lemma_commit_apply<K, V>(base: Map<K, V>, pending: Map<K, Status<V>>, changes: Seq<(K, Status<V>)>)
    requires
        lists(pending, changes),
    ensures
        applied(base, changes) == overlay(base, pending),
    decreases changes.len(),
{
    if changes.len() == 0 {
        assert(pending =~= Map::<K, Status<V>>::empty()) by {
            assert forall|k: K| !pending.contains_key(k) by {
                if pending.contains_key(k) {
                    let i = choose|i: int| 0 <= i < changes.len() && changes[i].0 == k;
                }
            }
        }
        lemma_overlay_empty::<K, V>(base);
    } else {
        let init = changes.drop_last();
        let last = changes.last();
        let rest = pending.remove(last.0);
        assert(pending.contains_key(changes[changes.len() - 1].0));
        assert forall|i: int| 0 <= i < init.len() implies #[trigger] rest.contains_key(init[i].0) && rest[init[i].0]
            == init[i].1 by {
            assert(init[i] == changes[i]);
            assert(pending.contains_key(changes[i].0));
            assert(changes[i].0 != changes[changes.len() - 1].0);
        }
        assert forall|k: K| #[trigger] rest.contains_key(k) implies exists|i: int| 0 <= i < init.len() && init[i].0 == k by {
            assert(pending.contains_key(k));
            let i = choose|i: int| 0 <= i < changes.len() && changes[i].0 == k;
            assert(i != changes.len() - 1);
            assert(init[i] == changes[i]);
        }
        assert forall|i: int, j: int| 0 <= i < j < init.len() implies init[i].0 != init[j].0 by {
            assert(init[i] == changes[i]);
            assert(init[j] == changes[j]);
        }
        lemma_commit_apply(base, rest, init);
        assert(pending[last.0] == last.1);
        assert(overlay(base, pending) =~= apply_one(overlay(base, rest), last));
    }
}

/// A read of a key gives what the last write of that key left there: the
/// value written, or nothing after a removal; a write to one key leaves the
/// reads of every other key as they were.
pub proof fn lemma_read_your_writes<K, V>(m: Map<K, V>, key: K, value: V, other: K)
    requires
        other != key,
    ensures
        lookup(m.insert(key, value), key) == Some(value),
        lookup(m.remove(key), key) is None,
        lookup(m.insert(key, value), other) == lookup(m, other),
        lookup(m.remove(key), other) == lookup(m, other),
{
}

/// Pending writes kept over a store while transactions are admitted: each
/// admitted transaction's account update is held here, over the store.
pub struct Noncer<'a, K, V, S> {
    state: &'a S,
    pending: BTreeMap<K, Status<V>>,
}

impl<'a, K: Ord + std::hash::Hash, V, S: State<K, V>> Noncer<'a, K, V, S> {
    /// Nothing pending over `state`.
    pub fn new(state: &'a S) -> (n: Self)
        ensures
            n.contents() == state.contents(),
    {
        let n = Noncer { state, pending: BTreeMap::new() };
        proof {
            lemma_overlay_empty::<K, V>(state.contents());
        }
        n
    }
}

impl<'a, S: State<u64, u64>> Noncer<'a, u64, u64, S> {
    /// Admits a transaction of `account` carrying `nonce`: refused unless
    /// the nonce is the account's expected one, which it then advances. The
    /// accounts here are held by id, each with its nonce.
    pub fn prepare(&mut self, account: u64, nonce: u64) -> (r: Result<(), PrepareError>)
        requires
            expected_nonce(old(self).contents(), account) == nonce ==> nonce < u64::MAX,
        ensures
            match nonce_check(expected_nonce(old(self).contents(), account), nonce) {
                Ok(next) => r is Ok && final(self).contents() == old(self).contents().insert(account, next),
                Err(e) => r == Err::<(), PrepareError>(e) && final(self).contents() == old(self).contents(),
            },
    {
        prepare_account(self, account, nonce)
    }
}

/// Every integer key obeys the laws of store keys.
pub proof fn lemma_u64_key_laws()
    ensures
        key_laws::<u64>(),
{
}

/// Loads an account's nonce from `state` (zero for an account never
/// seen), checks a transaction's nonce against it and writes the advanced
/// nonce back.
pub(crate) fn prepare_account<S: State<u64, u64>>(state: &mut S, account: u64, nonce: u64) -> (r: Result<(), PrepareError>)
    requires
        expected_nonce(old(state).contents(), account) == nonce ==> nonce < u64::MAX,
    ensures
        match nonce_check(expected_nonce(old(state).contents(), account), nonce) {
            Ok(next) => r is Ok && final(state).contents() == old(state).contents().insert(account, next),
            Err(e) => r == Err::<(), PrepareError>(e) && final(state).contents() == old(state).contents(),
        },
{
    proof {
        lemma_u64_key_laws();
    }
    let mut current: u64 = match state.get(&account) {
        Some(n) => *n,
        None => 0,
    };
    match validate_and_increment_nonce(&mut current, nonce) {
        Ok(()) => {
            state.insert(account, current);
            Ok(())
        },
        Err(e) => Err(e),
    }
}

impl<'a, K: Ord + std::hash::Hash, V, S: State<K, V>> State<K, V> for Noncer<'a, K, V, S> {
    closed spec fn contents(&self) -> Map<K, V> {
        overlay(self.state.contents(), self.pending@)
    }

    fn get(&self, key: &K) -> (r: Option<&V>) {
        read_through(self.state, &self.pending, key)
    }

    fn insert(&mut self, key: K, value: V) {
        proof {
            lemma_overlay_update(self.state.contents(), self.pending@, key, value);
        }
        self.pending.insert(key, Status::Update(value));
    }

    fn delete(&mut self, key: K) {
        proof {
            lemma_overlay_delete::<K, V>(self.state.contents(), self.pending@, key);
        }
        self.pending.insert(key, Status::Delete);
    }
}

/// Why a transaction is refused before it runs.
#[derive(Clone, Copy, Debug, PartialEq, Eq, Structural)]
pub enum PrepareError {
    NonceMismatch { expected: u64, got: u64 },
}

/// Checking a transaction's nonce against the account's: the next nonce on a
/// match, the mismatch otherwise.
pub open spec fn nonce_check(account_nonce: u64, provided_nonce: u64) -> Result<u64, PrepareError> {
    if account_nonce != provided_nonce {
        Err(PrepareError::NonceMismatch { expected: account_nonce, got: provided_nonce })
    } else {
        Ok((account_nonce + 1) as u64)
    }
}

/// Accepts a transaction whose nonce is the account's and advances the
/// account's nonce; refuses any other nonce and leaves the account alone.
pub fn validate_and_increment_nonce(account_nonce: &mut u64, provided_nonce: u64) -> (r: Result<(), PrepareError>)
    requires
        *old(account_nonce) == provided_nonce ==> provided_nonce < u64::MAX,
    ensures
        match nonce_check(*old(account_nonce), provided_nonce) {
            Ok(next) => r is Ok && *final(account_nonce) == next,
            Err(e) => r == Err::<(), PrepareError>(e) && *final(account_nonce) == *old(account_nonce),
        },
{
    if *account_nonce != provided_nonce {
        return Err(PrepareError::NonceMismatch { expected: *account_nonce, got: provided_nonce });
    }
    *account_nonce = *account_nonce + 1;
    Ok(())
}

/// A transaction is admitted at most once: after it is accepted, the same
/// nonce is refused, expecting the next one.
pub proof fn lemma_nonce_replay_refused(account_nonce: u64, provided_nonce: u64)
    requires
        provided_nonce < u64::MAX,
    ensures
        nonce_check(account_nonce, provided_nonce) matches Ok(next) ==> nonce_check(next, provided_nonce)
            == Err::<u64, PrepareError>(
            PrepareError::NonceMismatch { expected: (provided_nonce + 1) as u64, got: provided_nonce },
        ),
{
}

/// The nonce an account's next transaction must carry: what `nonces` holds
/// for it, zero for an account never seen.
pub open spec fn expected_nonce(nonces: Map<u64, u64>, account: u64) -> u64 {
    if nonces.contains_key(account) {
        nonces[account]
    } else {
        0
    }
}

/// Admitting a block's `(account, nonce)` transactions in order, from the
/// account nonces `nonces`: a transaction is admitted when it carries its
/// account's expected nonce, which then moves on by one. Gives whether each
/// was admitted, the account nonces after the block, and the next nonce of
/// each account that had a transaction admitted.
pub open spec fn admission(nonces: Map<u64, u64>, txs: Seq<(u64, u64)>) -> (Seq<bool>, Map<u64, u64>, Map<u64, u64>)
    decreases txs.len(),
{
    if txs.len() == 0 {
        (Seq::empty(), nonces, Map::empty())
    } else {
        let (flags, m, processed) = admission(nonces, txs.drop_last());
        let (account, nonce) = txs.last();
        if expected_nonce(m, account) == nonce {
            (flags.push(true), m.insert(account, (nonce + 1) as u64), processed.insert(account, (nonce + 1) as u64))
        } else {
            (flags.push(false), m, processed)
        }
    }
}

/// No admitted transaction carries the largest nonce, whose successor
/// would not fit.
pub open spec fn admissible(nonces: Map<u64, u64>, txs: Seq<(u64, u64)>) -> bool {
    forall|i: int|
        0 <= i < txs.len() && #[trigger] expected_nonce(admission(nonces, txs.take(i)).1, txs[i].0) == txs[i].1
            ==> txs[i].1 < u64::MAX
}

/// The nonces of the transactions of `account` that are admitted, in order.
pub open spec fn admitted_nonces(nonces: Map<u64, u64>, txs: Seq<(u64, u64)>, account: u64) -> Seq<u64>
    decreases txs.len(),
{
    if txs.len() == 0 {
        Seq::empty()
    } else {
        let before = admitted_nonces(nonces, txs.drop_last(), account);
        let m = admission(nonces, txs.drop_last()).1;
        if txs.last().0 == account && expected_nonce(m, account) == txs.last().1 {
            before.push(txs.last().1)
        } else {
            before
        }
    }
}

/// Admits the transactions of a block in order against the account nonces of
/// `state`, as the layer does before it runs each one: a transaction carrying
/// its account's expected nonce is admitted and advances it; any other is
/// skipped. Gives whether each was admitted and the next nonce of each
/// account with an admitted transaction.
pub fn admit_transactions<S: State<u64, u64>>(state: &mut S, txs: &[(u64, u64)]) -> (r: (Vec<bool>, BTreeMap<u64, u64>))
    requires
        admissible(old(state).contents(), txs@),
    ensures
        r.0@ == admission(old(state).contents(), txs@).0,
        final(state).contents() == admission(old(state).contents(), txs@).1,
        r.1@ == admission(old(state).contents(), txs@).2,
{
    let ghost start = state.contents();
    let mut admitted: Vec<bool> = Vec::new();
    let mut processed: BTreeMap<u64, u64> = BTreeMap::new();
    let mut i: usize = 0;
    while i < txs.len()
        invariant
            i <= txs.len(),
            admissible(start, txs@),
            (admitted@, state.contents(), processed@) == admission(start, txs@.take(i as int)),
        decreases txs.len() - i,
    {
        let (account, nonce) = txs[i];
        proof {
            assert(txs@.take(i + 1).drop_last() =~= txs@.take(i as int));
            assert(txs@.take(i + 1).last() == txs@[i as int]);
            assert(expected_nonce(admission(start, txs@.take(i as int)).1, txs@[i as int].0) == txs@[i as int].1
                ==> txs@[i as int].1 < u64::MAX);
        }
        match prepare_account(state, account, nonce) {
            Ok(()) => {
                processed.insert(account, nonce.saturating_add(1));
                admitted.push(true);
            },
            Err(_) => {
                admitted.push(false);
            },
        }
        i = i + 1;
    }
    proof {
        assert(txs@.take(txs@.len() as int) =~= txs@);
    }
    (admitted, processed)
}

/// Within a block, the admitted transactions of an account carry
/// consecutive nonces starting from the account's nonce before the block;
/// the account's nonce after the block follows the last of them, and it is
/// the one reported for the account when any was admitted.
pub proof fn lemma_admitted_nonces_consecutive(nonces: Map<u64, u64>, txs: Seq<(u64, u64)>, account: u64)
    requires
        admissible(nonces, txs),
    ensures
        ({
            let seen = admitted_nonces(nonces, txs, account);
            let (_, after, processed) = admission(nonces, txs);
            &&& forall|j: int| 0 <= j < seen.len() ==> seen[j] == expected_nonce(nonces, account) + j
            &&& expected_nonce(after, account) == expected_nonce(nonces, account) + seen.len()
            &&& processed.contains_key(account) <==> seen.len() > 0
            &&& processed.contains_key(account) ==> processed[account] == expected_nonce(after, account)
        }),
    decreases txs.len(),
{
    if txs.len() > 0 {
        let init = txs.drop_last();
        assert forall|i: int|
            0 <= i < init.len() && #[trigger] expected_nonce(admission(nonces, init.take(i)).1, init[i].0) == init[i].1
                implies init[i].1 < u64::MAX by {
            assert(init.take(i) =~= txs.take(i));
            assert(init[i] == txs[i]);
            assert(expected_nonce(admission(nonces, txs.take(i)).1, txs[i].0) == txs[i].1);
        }
        lemma_admitted_nonces_consecutive(nonces, init, account);
        let n = txs.len() - 1;
        assert(txs.take(n as int) =~= init);
        assert(expected_nonce(admission(nonces, txs.take(n as int)).1, txs[n as int].0) == txs[n as int].1
            ==> txs[n as int].1 < u64::MAX);
    }
}

/// What a block at `height` does, given the heights the state and the
/// event log have reached.
#[derive(Clone, Copy, Debug, PartialEq, Eq, Structural)]
pub enum TransitionPlan {
    /// Neither the next height nor the current one: nothing is done.
    Invalid,
    /// The state already holds this height: nothing is executed.
    AlreadyApplied,
    /// The next height: its transactions run and the state is committed;
    /// the events are appended too when the log is one height behind.
    Execute { append_events: bool },
}

/// Decides what a block at `height` does to the state and the event log.
pub fn plan_state_transition(height: u64, state_height: u64, events_height: u64) -> (p: TransitionPlan)
    requires
        state_height < u64::MAX,
        height == state_height + 1 ==> events_height < u64::MAX,
    ensures
        p == if height != state_height && height != state_height + 1 {
            TransitionPlan::Invalid
        } else if height == state_height {
            TransitionPlan::AlreadyApplied
        } else {
            TransitionPlan::Execute { append_events: height == events_height + 1 }
        },
{
    if height != state_height && height != state_height + 1 {
        return TransitionPlan::Invalid;
    }
    if height == state_height + 1 {
        TransitionPlan::Execute { append_events: height == events_height + 1 }
    } else {
        TransitionPlan::AlreadyApplied
    }
}

} // verus!
