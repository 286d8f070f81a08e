//! Ephemeral, path-scoped authorization tokens.

use crate::text::str_eq;
use std::collections::HashMap;
use vstd::prelude::*;
use vstd::std_specs::iter::IteratorSpec;

verus! {

/// How long a token stays valid after it was issued, in nanoseconds (one hour).
pub const TOKEN_DURATION: u64 = 3_600_000_000_000;

/// What the store remembers of one issued token.
#[derive(Debug, Clone, PartialEq, Eq)]
pub struct Token {
    /// The resource the token authorizes actions against.
    pub path: String,
    /// The reading of the monotonic clock, in nanoseconds, at which it was issued.
    pub issued_at: u64,
}

/// The time that has passed at `now` since `issued_at`; zero if `now` lies before it,
/// as with the difference of two readings of a monotonic clock.
pub open spec fn age(issued_at: u64, now: u64) -> int {
    if now >= issued_at {
        now - issued_at
    } else {
        0
    }
}

/// A token issued at `issued_at` is still valid at `now` when its age is below `ttl`.
pub open spec fn fresh(issued_at: u64, now: u64, ttl: u64) -> bool {
    age(issued_at, now) < ttl
}

/// Whether `token` has not yet reached the age `older_than` at `now`.
pub fn is_up_to_date(token: &Token, now: u64, older_than: u64) -> (ok: bool)
    ensures
        ok == fresh(token.issued_at, now, older_than),
{
    let elapsed: u64 = if now >= token.issued_at {
        now - token.issued_at
    } else {
        0
    };
    elapsed < older_than
}

/// What a token stands for: the path it was issued for and when.
pub struct Grant {
    pub path: Seq<char>,
    pub issued_at: u64,
}

impl View for Token {
    type V = Grant;

    open spec fn view(&self) -> Grant {
        Grant { path: self.path@, issued_at: self.issued_at }
    }
}

/// The grants that a table of tokens holds, by token id.
pub open spec fn grants(tokens: Map<u64, Token>) -> Map<u64, Grant> {
    Map::new(|id: u64| tokens.contains_key(id), |id: u64| tokens[id]@)
}

/// The grants of `m` that are still valid at `now`.
pub open spec fn pruned(m: Map<u64, Grant>, now: u64, ttl: u64) -> Map<u64, Grant> {
    Map::new(
        |id: u64| m.contains_key(id) && fresh(m[id].issued_at, now, ttl),
        |id: u64| m[id],
    )
}

/// Whether `ids` lists `id`.
spec fn lists(ids: Seq<u64>, id: u64) -> bool {
    exists|j: int| 0 <= j < ids.len() && ids[j] == id
}

/// Removes every token whose age at `now` has reached `older_than`.
pub fn prune(tokens: &mut HashMap<u64, Token>, now: u64, older_than: u64)
    ensures
        grants(final(tokens)@) == pruned(grants(old(tokens)@), now, older_than),
{
    let ghost before = tokens@;
    let mut expired: Vec<u64> = Vec::new();
    let keys = tokens.keys();
    let ghost start = keys;
    for id in it: keys
        invariant
            tokens@ == before,
            it.seq() == start.remaining(),
            start.remaining().unref().to_set() == before.dom(),
            forall|j: int|
                0 <= j < expired@.len() ==> before.contains_key(#[trigger] expired@[j]) && !fresh(
                    before[expired@[j]].issued_at,
                    now,
                    older_than,
                ),
            forall|i: int|
                0 <= i < it.index() && !fresh(
                    before[*#[trigger] start.remaining()[i]].issued_at,
                    now,
                    older_than,
                ) ==> lists(expired@, *start.remaining()[i]),
    {
        let ghost listed = expired@;
        let ghost at = it.index();
        proof {
            assert(start.remaining().unref()[at] == *id);
            assert(start.remaining().unref().to_set().contains(*id));
        }
        match tokens.get(id) {
            Some(token) => {
                if !is_up_to_date(token, now, older_than) {
                    expired.push(*id);
                    assert(expired@[listed.len() as int] == *id);
                }
            },
            None => {},
        }
        proof {
            assert forall|i: int|
                0 <= i < at + 1 && !fresh(
                    before[*#[trigger] start.remaining()[i]].issued_at,
                    now,
                    older_than,
                ) implies lists(expired@, *start.remaining()[i]) by {
                if i < at {
                    let j = choose|j: int|
                        0 <= j < listed.len() && listed[j] == *start.remaining()[i];
                    assert(expired@[j] == *start.remaining()[i]);
                }
            }
        }
    }
    proof {
        assert forall|k: u64|
            before.contains_key(k) && !fresh(before[k].issued_at, now, older_than) implies lists(
            expired@,
            k,
        ) by {
            let keys_seen = start.remaining().unref();
            assert(keys_seen.to_set().contains(k));
            let i = choose|i: int| 0 <= i < keys_seen.len() && keys_seen[i] == k;
            assert(*start.remaining()[i] == k);
        }
    }
    let mut i: usize = 0;
    while i < expired.len()
        invariant
            i <= expired.len(),
            forall|k: u64|
                tokens@.contains_key(k) <==> before.contains_key(k) && !lists(
                    expired@.take(i as int),
                    k,
                ),
            forall|k: u64| tokens@.contains_key(k) ==> tokens@[k] == before[k],
        decreases expired.len() - i,
    {
        let ghost done = expired@.take(i as int);
        let ghost held = tokens@;
        tokens.remove(&expired[i]);
        i += 1;
        proof {
            let next = expired@.take(i as int);
            assert(next == done.push(expired@[i - 1]));
            assert(tokens@ == held.remove(expired@[i - 1]));
            assert forall|k: u64|
                tokens@.contains_key(k) <==> before.contains_key(k) && !lists(next, k) by {
                let e = expired@[i - 1];
                assert(held.contains_key(k) <==> before.contains_key(k) && !lists(done, k));
                assert(tokens@.contains_key(k) <==> held.contains_key(k) && k != e);
                assert(lists(next, k) <==> lists(done, k) || k == e) by {
                    if lists(done, k) {
                        let j = choose|j: int| 0 <= j < done.len() && done[j] == k;
                        assert(next[j] == k);
                    }
                    if k == e {
                        assert(next[i - 1] == k);
                    }
                    if lists(next, k) {
                        let j = choose|j: int| 0 <= j < next.len() && next[j] == k;
                        if j < i - 1 {
                            assert(done[j] == k);
                        }
                    }
                }
            }
        }
    }
    proof {
        assert(expired@.take(i as int) == expired@);
        assert(grants(tokens@) =~= pruned(grants(before), now, older_than));
    }
}

/// How many random identifiers `authorize` draws before it gives up.
pub const ISSUE_ATTEMPTS: u32 = 64;

/// The tokens that are currently known, by identifier. Zero, the identifier that stands for
/// "no token", is never among them.
pub struct TokenStore {
    tokens: HashMap<u64, Token>,
}

impl View for TokenStore {
    type V = Map<u64, Grant>;

    closed spec fn view(&self) -> Map<u64, Grant> {
        grants(self.tokens@)
    }
}

/// Whether a store holding `m` accepts the token `id` for `path` at `now`.
pub open spec fn accepts(m: Map<u64, Grant>, path: Seq<char>, id: u64, now: u64) -> bool {
    &&& id != 0
    &&& m.contains_key(id)
    &&& fresh(m[id].issued_at, now, TOKEN_DURATION)
    &&& m[id].path == path
}

/// What a store holding `m` holds after the token `id` was issued for `path` at `now`.
pub open spec fn issued(m: Map<u64, Grant>, id: u64, path: Seq<char>, now: u64) -> Map<u64, Grant> {
    pruned(m, now, TOKEN_DURATION).insert(id, Grant { path, issued_at: now })
}

/// Whether `id` can be handed out by a store holding `m` at `now`: it is not zero, and no
/// token that is still valid carries it.
pub open spec fn available(m: Map<u64, Grant>, id: u64, now: u64) -> bool {
    id != 0 && !pruned(m, now, TOKEN_DURATION).contains_key(id)
}

/// What a store holding `m` holds after the token `id` was presented at `now`.
pub open spec fn validated(m: Map<u64, Grant>, id: u64, now: u64) -> Map<u64, Grant> {
    if id == 0 {
        m
    } else {
        pruned(m, now, TOKEN_DURATION)
    }
}

impl TokenStore {
    /// The store's invariant: zero is not the identifier of any token.
    pub closed spec fn wf(&self) -> bool {
        !self.tokens@.contains_key(0)
    }

    /// A well-formed store holds no grant under zero, and finitely many in all.
    pub proof fn lemma_zero_is_reserved(&self)
        requires
            self.wf(),
        ensures
            !self@.contains_key(0),
            self@.dom().finite(),
    {
        assert(self@.dom() =~= self.tokens@.dom());
    }

    /// A store without tokens.
    pub fn new() -> (store: TokenStore)
        ensures
            store.wf(),
            store@ == Map::<u64, Grant>::empty(),
    {
        let store = TokenStore { tokens: HashMap::new() };
        assert(store@ =~= Map::<u64, Grant>::empty());
        store
    }

    /// The number of tokens the store keeps track of.
    pub fn len(&self) -> (n: usize)
        ensures
            n == self@.len(),
    {
        proof {
            assert(self@.dom() =~= self.tokens@.dom());
        }
        self.tokens.len()
    }

    /// Drops the tokens that have expired at `now`.
    fn drop_expired(&mut self, now: u64)
        requires
            old(self).wf(),
        ensures
            final(self).wf(),
            final(self)@ == pruned(old(self)@, now, TOKEN_DURATION),
    {
        let ghost before = self.tokens@;
        prune(&mut self.tokens, now, TOKEN_DURATION);
        assert(!self.tokens@.contains_key(0)) by {
            assert(grants(self.tokens@).contains_key(0) == self.tokens@.contains_key(0));
            assert(grants(before).contains_key(0) == before.contains_key(0));
        }
    }

    /// Records `candidate` as a token for `path`, issued at `now`, unless it is zero or
    /// already taken.
    pub fn try_issue(&mut self, candidate: u64, path: &str, now: u64) -> (done: bool)
        requires
            old(self).wf(),
        ensures
            final(self).wf(),
            done == (candidate != 0 && !old(self)@.contains_key(candidate)),
            done ==> final(self)@ == old(self)@.insert(
                candidate,
                Grant { path: path@, issued_at: now },
            ),
            !done ==> final(self)@ == old(self)@,
    {
        if candidate == 0 || self.tokens.contains_key(&candidate) {
            return false;
        }
        let ghost before = self.tokens@;
        let token = Token { path: path.to_owned(), issued_at: now };
        self.tokens.insert(candidate, token);
        assert(grants(self.tokens@) =~= grants(before).insert(
            candidate,
            Grant { path: path@, issued_at: now },
        ));
        true
    }
}

/// Issues a token for `path` at `now`: drops the expired tokens, then draws random
/// identifiers until one is neither zero nor taken. `None` if none of `ISSUE_ATTEMPTS`
/// draws was usable.
pub fn authorize(store: &mut TokenStore, path: &str, now: u64) -> (token: Option<u64>)
    requires
        old(store).wf(),
    ensures
        final(store).wf(),
        match token {
            Some(id) => {
                &&& available(old(store)@, id, now)
                &&& final(store)@ == issued(old(store)@, id, path@, now)
            },
            None => final(store)@ == pruned(old(store)@, now, TOKEN_DURATION),
        },
{
    store.drop_expired(now);
    let mut attempts: u32 = 0;
    while attempts < ISSUE_ATTEMPTS
        invariant
            store.wf(),
            store@ == pruned(old(store)@, now, TOKEN_DURATION),
        decreases ISSUE_ATTEMPTS - attempts,
    {
        let candidate = random_id();
        if store.try_issue(candidate, path, now) {
            return Some(candidate);
        }
        attempts += 1;
    }
    None
}

/// Whether `token` authorizes actions against `path` at `now`. Zero is refused at once;
/// for any other identifier the expired tokens are dropped first.
pub fn is_authorized(store: &mut TokenStore, path: &str, token: u64, now: u64) -> (ok: bool)
    requires
        old(store).wf(),
    ensures
        final(store).wf(),
        ok == accepts(old(store)@, path@, token, now),
        final(store)@ == validated(old(store)@, token, now),
{
    if token == 0 {
        return false;
    }
    store.drop_expired(now);
    proof {
        assert(store@.contains_key(token) == store.tokens@.contains_key(token));
        if store.tokens@.contains_key(token) {
            assert(store@[token] == store.tokens@[token]@);
        }
    }
    match store.tokens.get(&token) {
        Some(entry) => is_up_to_date(entry, now, TOKEN_DURATION) && str_eq(
            entry.path.as_str(),
            path,
        ),
        None => false,
    }
}

/// One draw of `rand::random`, the thread-local generator of the `rand` crate. Nothing is
/// claimed of the value drawn.
#[verifier::external_body]
fn random_id() -> u64 {
    rand::random()
}

} // verus!
