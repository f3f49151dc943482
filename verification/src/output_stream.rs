//! Handoff of output subscriptions from the app thread to the thread that
//! serves the client.
//!
//! The app answers an open request with plain text, so it leaves the live
//! subscription here under the token of the request, and the serving thread
//! claims it once the answer is there. Entries are evicted by age, so that a
//! thread that dies between request and claim cannot leak a subscription.

use crate::channel::PaneOutputFrame;
use std::collections::HashMap;
use tokio::sync::broadcast;
use vstd::prelude::*;

verus! {

broadcast use vstd::std_specs::hash::group_hash_axioms;

/// How long a subscription may wait to be claimed, in nanoseconds.
pub const STASH_MAX_AGE_NANOS: u128 = 60_000_000_000;

/// `tokio::runtime::Handle`, carried as it is.
#[verifier::external_type_specification]
#[verifier::external_body]
pub struct ExRuntimeHandle(tokio::runtime::Handle);

/// A live subscription to one pane's output.
pub struct PaneOutputSubscription {
    pub receiver: broadcast::Receiver<PaneOutputFrame>,
    pub cols: u16,
    pub rows: u16,
    /// The visible screen at the moment of subscribing, where it was asked for.
    pub repaint_ansi: Option<String>,
}

/// A subscription that waits to be claimed.
pub struct PendingOutputStream {
    pub subscription: PaneOutputSubscription,
    /// The app's runtime, on which the receiver can be awaited.
    pub runtime: tokio::runtime::Handle,
    /// When the subscription was stashed, in nanoseconds of a monotonic clock.
    pub stashed_at: u128,
}

/// Hands out the tokens under which subscriptions are stashed.
pub struct TokenSource {
    next: u64,
}

/// The token that follows `token`.
pub open spec fn token_after(token: u64) -> u64 {
    if token == u64::MAX {
        0
    } else {
        (token + 1) as u64
    }
}

/// The token that is handed out after `count` others, when `first` is next.
pub open spec fn nth_token(first: u64, count: nat) -> u64
    decreases count,
{
    if count == 0 {
        first
    } else {
        token_after(nth_token(first, (count - 1) as nat))
    }
}

impl View for TokenSource {
    type V = u64;

    /// The token that is handed out next.
    closed spec fn view(&self) -> u64 {
        self.next
    }
}

impl TokenSource {
    /// A source that starts at 1.
    pub fn new() -> (tokens: TokenSource)
        ensures
            tokens@ == 1,
    {
        TokenSource { next: 1 }
    }
}

/// The next token. The counter wraps around after the last one.
pub fn next_token(tokens: &mut TokenSource) -> (token: u64)
    ensures
        token == old(tokens)@,
        final(tokens)@ == token_after(old(tokens)@),
        token < u64::MAX ==> final(tokens)@ == token + 1,
        token == u64::MAX ==> final(tokens)@ == 0,
{
    let token = tokens.next;
    tokens.next = token.wrapping_add(1);
    token
}

proof fn lemma_nth_token_value(first: u64, count: nat)
    ensures
        nth_token(first, count) as int == (first + count) % (u64::MAX + 1),
    decreases count,
{
    if count > 0 {
        lemma_nth_token_value(first, (count - 1) as nat);
    }
}

/// A new source counts up from 1: its first token is 1, its second 2, and so on
/// until the counter wraps around.
pub proof fn law_tokens_count_up(count: nat)
    requires
        1 <= count <= u64::MAX,
    ensures
        nth_token(1, (count - 1) as nat) == count,
{
    lemma_nth_token_value(1, (count - 1) as nat);
}

/// No token is handed out twice before the counter has wrapped around.
pub proof fn law_tokens_are_distinct(first: u64, earlier: nat, later: nat)
    requires
        earlier < later <= earlier + u64::MAX,
    ensures
        nth_token(first, earlier) != nth_token(first, later),
{
    lemma_nth_token_value(first, earlier);
    lemma_nth_token_value(first, later);
}

/// How long ago `stashed_at` was at `now`.
pub open spec fn age_nanos(stashed_at: u128, now: u128) -> int {
    if now >= stashed_at {
        now - stashed_at
    } else {
        0
    }
}

/// Whether an entry is still young enough at `now` to be kept.
pub open spec fn is_fresh(entry: PendingOutputStream, now: u128) -> bool {
    age_nanos(entry.stashed_at, now) < STASH_MAX_AGE_NANOS
}

/// The entries that are still fresh at `now`.
pub open spec fn fresh_entries(
    entries: Map<u64, PendingOutputStream>,
    now: u128,
) -> Map<u64, PendingOutputStream> {
    Map::new(
        |token: u64| entries.contains_key(token) && is_fresh(entries[token], now),
        |token: u64| entries[token],
    )
}

/// What [`PendingStreams::stash`] makes of the waiting entries.
pub open spec fn stashed(
    entries: Map<u64, PendingOutputStream>,
    token: u64,
    entry: PendingOutputStream,
    now: u128,
) -> Map<u64, PendingOutputStream> {
    fresh_entries(entries, now).insert(token, entry)
}

/// The subscriptions that wait to be claimed, by token.
pub struct PendingStreams {
    entries: HashMap<u64, PendingOutputStream>,
}

impl View for PendingStreams {
    type V = Map<u64, PendingOutputStream>;

    closed spec fn view(&self) -> Map<u64, PendingOutputStream> {
        self.entries@
    }
}

impl PendingStreams {
    /// No subscription waits.
    pub fn new() -> (pending: PendingStreams)
        ensures
            pending@ == Map::<u64, PendingOutputStream>::empty(),
    {
        PendingStreams { entries: HashMap::new() }
    }

    /// Drops the entries that are too old at `now`.
    fn evict(&mut self, now: u128)
        ensures
            final(self)@ == fresh_entries(old(self)@, now),
    {
        let mut stale: Vec<u64> = Vec::new();
        for (token, entry) in walk: self.entries.iter()
            invariant
                self.entries@ == old(self)@,
                walk.seq() == vstd::std_specs::iter::IteratorSpec::remaining(&self.entries.iter()),
                forall|k: int|
                    0 <= k < stale.len() ==> self.entries@.contains_key(#[trigger] stale[k])
                        && !is_fresh(self.entries@[stale[k]], now),
                forall|k: int|
                    0 <= k < walk.index() && !is_fresh(*walk.seq()[k].1, now) ==> stale@.contains(
                        *#[trigger] walk.seq()[k].0,
                    ),
        {
            let ghost gathered = stale@;
            if now.saturating_sub(entry.stashed_at) >= STASH_MAX_AGE_NANOS {
                stale.push(*token);
                assert(stale@.last() == *token);
            }
            assert forall|t: u64| gathered.contains(t) implies stale@.contains(t) by {
                let k = gathered.index_of(t);
                assert(stale@[k] == t);
            }
        }
        assert forall|t: u64| #[trigger] self.entries@.contains_key(t) implies stale@.contains(t)
            == !is_fresh(self.entries@[t], now) by {
            let seen = vstd::std_specs::iter::IteratorSpec::remaining(&self.entries.iter());
            assert(seen.contains((&t, &self.entries@[t])));
            let k = seen.index_of((&t, &self.entries@[t]));
            assert(seen[k].0 == &t);
        }
        let mut i: usize = 0;
        while i < stale.len()
            invariant
                0 <= i <= stale.len(),
                self.entries@ == old(self)@.remove_keys(stale@.take(i as int).to_set()),
            decreases stale.len() - i,
        {
            let ghost removed = stale@.take(i as int);
            self.entries.remove(&stale[i]);
            proof {
                assert(stale@.take(i + 1) =~= removed.push(stale@[i as int]));
                removed.lemma_push_to_set_commute(stale@[i as int]);
                assert(self.entries@ =~= old(self)@.remove_keys(stale@.take(i + 1).to_set()));
            }
            i = i + 1;
        }
        assert(stale@.take(stale.len() as int) =~= stale@);
        assert(self.entries@ =~= fresh_entries(old(self)@, now));
    }

    /// Leaves a subscription under `token` and drops the other entries that are
    /// too old at `now`. `stashed_at` is when the subscription was handed over;
    /// the new entry is kept however old it is.
    pub fn stash(
        &mut self,
        token: u64,
        subscription: PaneOutputSubscription,
        runtime: tokio::runtime::Handle,
        stashed_at: u128,
        now: u128,
    )
        ensures
            final(self)@ == stashed(
                old(self)@,
                token,
                (PendingOutputStream { subscription, runtime, stashed_at }),
                now,
            ),
            final(self)@.contains_key(token),
            final(self)@[token] == (PendingOutputStream { subscription, runtime, stashed_at }),
            forall|other: u64|
                other != token ==> (#[trigger] final(self)@.contains_key(other)
                    <==> old(self)@.contains_key(other)
                    && now < old(self)@[other].stashed_at + 60_000_000_000),
            forall|other: u64|
                other != token && #[trigger] final(self)@.contains_key(other)
                    ==> final(self)@[other] == old(self)@[other],
    {
        let entry = PendingOutputStream { subscription, runtime, stashed_at };
        self.evict(now);
        self.entries.insert(token, entry);
    }

    /// Claims the subscription under `token`, if there is one.
    pub fn take(&mut self, token: u64) -> (entry: Option<PendingOutputStream>)
        ensures
            entry == (if old(self)@.contains_key(token) {
                Some(old(self)@[token])
            } else {
                None
            }),
            final(self)@ == old(self)@.remove(token),
    {
        self.entries.remove(&token)
    }
}

/// Something that is done to the waiting entries.
pub enum PendingOp {
    Stash { token: u64, entry: PendingOutputStream, now: u128 },
    Take { token: u64 },
}

/// The waiting entries after `ops`, in order.
pub open spec fn after_ops(
    entries: Map<u64, PendingOutputStream>,
    ops: Seq<PendingOp>,
) -> Map<u64, PendingOutputStream>
    decreases ops.len(),
{
    if ops.len() == 0 {
        entries
    } else {
        let before = after_ops(entries, ops.drop_last());
        match ops.last() {
            PendingOp::Stash { token, entry, now } => stashed(before, token, entry, now),
            PendingOp::Take { token } => before.remove(token),
        }
    }
}

/// Whether `op` leaves an entry under `token` alone: it is about another token,
/// and comes while the entry is fresh.
pub open spec fn leaves_alone(op: PendingOp, token: u64, entry: PendingOutputStream) -> bool {
    match op {
        PendingOp::Stash { token: other, now, .. } => other != token && is_fresh(entry, now),
        PendingOp::Take { token: other } => other != token,
    }
}

/// What is done to the waiting entries is done in order: each stash to what the
/// operations before it have left, and each claim takes the entry of its token and
/// no other.
pub proof fn law_ops_apply_in_order(
    entries: Map<u64, PendingOutputStream>,
    ops: Seq<PendingOp>,
    op: PendingOp,
)
    ensures
        after_ops(entries, Seq::empty()) == entries,
        match op {
            PendingOp::Stash { token, entry, now } => after_ops(entries, ops.push(op)) == stashed(
                after_ops(entries, ops),
                token,
                entry,
                now,
            ),
            PendingOp::Take { token } => after_ops(entries, ops.push(op)) == after_ops(
                entries,
                ops,
            ).remove(token),
        },
{
    assert(ops.push(op).drop_last() =~= ops);
}

/// A stash keeps another entry exactly while it is younger than a minute: one that
/// was stashed at some time is there until 60 seconds after it and gone from then
/// on. What is kept is kept as it was, nothing comes up but the new entry, and the
/// new entry is there.
pub proof fn law_entries_are_kept_for_a_minute(
    entries: Map<u64, PendingOutputStream>,
    token: u64,
    entry: PendingOutputStream,
    now: u128,
    other: u64,
)
    ensures
        stashed(entries, token, entry, now).contains_key(token),
        stashed(entries, token, entry, now)[token] == entry,
        other != token ==> (stashed(entries, token, entry, now).contains_key(other)
            <==> entries.contains_key(other) && now < entries[other].stashed_at + 60_000_000_000),
        other != token && stashed(entries, token, entry, now).contains_key(other) ==> stashed(
            entries,
            token,
            entry,
            now,
        )[other] == entries[other],
{
}

/// A claim gives back what was stashed under the token, whatever is done to other
/// entries in between while it is fresh; and a second claim finds nothing.
pub proof fn law_claim_gives_back_stash(
    entries: Map<u64, PendingOutputStream>,
    token: u64,
    entry: PendingOutputStream,
    now: u128,
    ops: Seq<PendingOp>,
)
    requires
        forall|i: int| 0 <= i < ops.len() ==> leaves_alone(#[trigger] ops[i], token, entry),
    ensures
        after_ops(stashed(entries, token, entry, now), ops).contains_key(token),
        after_ops(stashed(entries, token, entry, now), ops)[token] == entry,
        !after_ops(stashed(entries, token, entry, now), ops).remove(token).contains_key(token),
    decreases ops.len(),
{
    if ops.len() > 0 {
        assert(leaves_alone(ops.last(), token, entry));
        assert forall|i: int| 0 <= i < ops.drop_last().len() implies leaves_alone(
            #[trigger] ops.drop_last()[i],
            token,
            entry,
        ) by {
            assert(ops.drop_last()[i] == ops[i]);
        }
        law_claim_gives_back_stash(entries, token, entry, now, ops.drop_last());
    }
}

/// A subscription can be claimed for a minute: it is given back as it was stashed if
/// nothing was done to its token since, and no stash came 60 seconds or more after
/// it was handed over.
pub proof fn law_claim_within_a_minute(
    entries: Map<u64, PendingOutputStream>,
    token: u64,
    entry: PendingOutputStream,
    now: u128,
    ops: Seq<PendingOp>,
)
    requires
        forall|i: int|
            0 <= i < ops.len() ==> match #[trigger] ops[i] {
                PendingOp::Stash { token: other, now: later, .. } => other != token && later
                    < entry.stashed_at + 60_000_000_000,
                PendingOp::Take { token: other } => other != token,
            },
    ensures
        after_ops(stashed(entries, token, entry, now), ops).contains_key(token),
        after_ops(stashed(entries, token, entry, now), ops)[token] == entry,
{
    law_claim_gives_back_stash(entries, token, entry, now, ops);
}

/// No subscription leaks: one that nobody claims is gone after the first stash
/// under another token that comes when it is too old.
pub proof fn law_unclaimed_entry_is_evicted(
    entries: Map<u64, PendingOutputStream>,
    token: u64,
    other_token: u64,
    other_entry: PendingOutputStream,
    now: u128,
)
    requires
        entries.contains_key(token),
        age_nanos(entries[token].stashed_at, now) >= STASH_MAX_AGE_NANOS,
        other_token != token,
    ensures
        !stashed(entries, other_token, other_entry, now).contains_key(token),
{
}

/// A stash keeps every other entry that is still fresh as it was, and brings in
/// nothing but the new entry.
pub proof fn law_stash_keeps_fresh_entries(
    entries: Map<u64, PendingOutputStream>,
    token: u64,
    entry: PendingOutputStream,
    now: u128,
    other: u64,
)
    requires
        other != token,
    ensures
        stashed(entries, token, entry, now).contains_key(other) <==> entries.contains_key(other)
            && is_fresh(entries[other], now),
        stashed(entries, token, entry, now).contains_key(other) ==> stashed(
            entries,
            token,
            entry,
            now,
        )[other] == entries[other],
{
}

} // verus!
