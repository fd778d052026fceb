//! The session/token broker: assigns server ids, verifies principals
//! through an ordered provider chain, mints, checks and refreshes access
//! tokens, and evicts expired records on sweep.

use vstd::prelude::*;
use crate::idmap::IdMap;
use crate::ids::fresh_uuid;

verus! {

/// What one verification attempt by a provider yields.
#[derive(Debug)]
pub enum AuthOutcome {
    /// The provider vouches for the principal; carries the opaque user id.
    Verified(u128),
    /// The provider finds that the principal does not hold the claimed
    /// identity.
    Declined,
    /// A transport or infrastructure failure, with its cause; the broker
    /// treats it as a decline.
    Error(String),
}

/// The verification capability a backend plugs into the broker.
///
/// `decision` is the implementation's declared behaviour on each input;
/// `authenticate` promises to return exactly that.  Implementations
/// outside this crate are trusted to keep the promise; every broker
/// contract below holds of those that do.
pub trait Auth: Sized {
    /// The outcome the implementation yields for a principal and server id.
    /// An implementation that does not declare its behaviour is taken to
    /// decline everyone.
    open spec fn decision(&self, username: Seq<char>, server_id: u128) -> AuthOutcome {
        AuthOutcome::Declined
    }

    /// Attempts to verify that the named principal is the rightful holder
    /// of the server id.
    fn authenticate(&self, username: &str, server_id: u128) -> (r: AuthOutcome)
        ensures
            r == self.decision(username@, server_id),
    ;
}

/// The first provider at or after position `from`, in registration order,
/// whose decision verifies the principal, with the user id it vouches for.
pub open spec fn first_win_from<P: Auth>(
    ps: Seq<P>,
    username: Seq<char>,
    server_id: u128,
    from: int,
) -> Option<(int, u128)>
    decreases ps.len() - from,
{
    if from < 0 || from >= ps.len() {
        None
    } else {
        match ps[from].decision(username, server_id) {
            AuthOutcome::Verified(u) => Some((from, u)),
            _ => first_win_from(ps, username, server_id, from + 1),
        }
    }
}

/// The winning provider over the whole chain: the first, in registration
/// order, whose decision is `Verified`.
pub open spec fn first_win<P: Auth>(ps: Seq<P>, username: Seq<char>, server_id: u128) -> Option<
    (int, u128),
> {
    first_win_from(ps, username, server_id, 0)
}

/// A pending server-id assignment.
pub struct ServerIdRecord {
    /// The claimed username bound to the id.
    pub principal_name: String,
    /// When the id was assigned.
    pub issued_at: u64,
}

/// A live access token.
pub struct AccessTokenRecord {
    /// The server id the token was minted from; a historical link only.
    pub server_id: u128,
    /// The identity the winning provider vouched for.
    pub user_id: u128,
    /// The verified username.
    pub principal_name: String,
    /// Position of the provider that verified, consulted again on refresh.
    pub provider_ref: usize,
    /// Time of the mint or of the last successful refresh.
    pub last_touched: u64,
}

/// True when a record stamped at `stamp` has outlived `timeout` at `now`.
pub open spec fn expired(stamp: u64, timeout: u64, now: u64) -> bool {
    stamp + timeout <= now
}

/// The server-id cache after one sweep pass at `now`.
pub open spec fn swept_server_ids(
    m: Map<u128, ServerIdRecord>,
    timeout: u64,
    now: u64,
) -> Map<u128, ServerIdRecord> {
    Map::new(
        |k: u128| m.dom().contains(k) && !expired(m[k].issued_at, timeout, now),
        |k: u128| m[k],
    )
}

/// The access-token cache after one sweep pass at `now`.
pub open spec fn swept_tokens(
    m: Map<u128, AccessTokenRecord>,
    timeout: u64,
    now: u64,
) -> Map<u128, AccessTokenRecord> {
    Map::new(
        |k: u128| m.dom().contains(k) && !expired(m[k].last_touched, timeout, now),
        |k: u128| m[k],
    )
}

/// Decides expiry without overflow; a stamp in the future never counts as
/// expired.
fn stamp_expired(stamp: u64, timeout: u64, now: u64) -> (r: bool)
    ensures
        r == expired(stamp, timeout, now),
{
    stamp <= now && now - stamp >= timeout
}

/// The broker.  Time enters through the `now` argument of each operation,
/// so the caller owns the clock.
pub struct AuthService<P> {
    auths: Vec<P>,
    server_ids: IdMap<ServerIdRecord>,
    access_tokens: IdMap<AccessTokenRecord>,
    server_id_timeout: u64,
    access_timeout: u64,
}

impl<P: Auth> AuthService<P> {
    /// The registered providers, in registration order.
    pub closed spec fn providers(&self) -> Seq<P> {
        self.auths@
    }

    /// The live server-id records.
    pub closed spec fn server_ids_view(&self) -> Map<u128, ServerIdRecord> {
        self.server_ids@
    }

    /// The live access-token records.
    pub closed spec fn tokens_view(&self) -> Map<u128, AccessTokenRecord> {
        self.access_tokens@
    }

    /// The configured lifetime of an unconsumed server id.
    pub closed spec fn spec_server_id_timeout(&self) -> u64 {
        self.server_id_timeout
    }

    /// The configured lifetime of an untouched access token.
    pub closed spec fn spec_access_timeout(&self) -> u64 {
        self.access_timeout
    }

    /// Well-formedness: the caches are sound and every token's provider
    /// reference points into the provider chain.
    pub closed spec fn wf(&self) -> bool {
        &&& self.server_ids.wf()
        &&& self.access_tokens.wf()
        &&& forall|t: u128|
            self.access_tokens@.contains_key(t) ==> (#[trigger] self.access_tokens@[t]).provider_ref
                < self.auths@.len()
    }

    /// True when everything but the two caches is the same in both states.
    pub open spec fn same_config(&self, other: &Self) -> bool {
        &&& self.providers() == other.providers()
        &&& self.spec_server_id_timeout() == other.spec_server_id_timeout()
        &&& self.spec_access_timeout() == other.spec_access_timeout()
    }

    /// The outcome the provider chain reaches for the pending record of
    /// `server_id`, were it consulted now.
    pub open spec fn pending_win(&self, server_id: u128) -> Option<(int, u128)> {
        first_win(
            self.providers(),
            self.server_ids_view()[server_id].principal_name@,
            server_id,
        )
    }

    /// True when the provider that minted the token would still verify
    /// its principal.
    pub open spec fn refresh_verifies(&self, token: u128) -> bool {
        let rec = self.tokens_view()[token];
        self.providers()[rec.provider_ref as int].decision(
            rec.principal_name@,
            rec.server_id,
        ) is Verified
    }

    /// Creates a broker with no providers and empty caches.
    pub fn new(server_id_timeout: u64, access_timeout: u64) -> (r: Self)
        ensures
            r.wf(),
            r.providers() == Seq::<P>::empty(),
            r.server_ids_view() == Map::<u128, ServerIdRecord>::empty(),
            r.tokens_view() == Map::<u128, AccessTokenRecord>::empty(),
            r.spec_server_id_timeout() == server_id_timeout,
            r.spec_access_timeout() == access_timeout,
    {
        let r = AuthService {
            auths: Vec::new(),
            server_ids: IdMap::new(),
            access_tokens: IdMap::new(),
            server_id_timeout,
            access_timeout,
        };
        proof {
            assert(r.auths@ =~= Seq::<P>::empty());
        }
        r
    }

    /// Appends a provider to the chain; configuration-time only.
    pub fn add(&mut self, auth: P)
        requires
            old(self).wf(),
        ensures
            final(self).wf(),
            final(self).providers() == old(self).providers().push(auth),
            final(self).server_ids_view() == old(self).server_ids_view(),
            final(self).tokens_view() == old(self).tokens_view(),
            final(self).spec_server_id_timeout() == old(self).spec_server_id_timeout(),
            final(self).spec_access_timeout() == old(self).spec_access_timeout(),
    {
        self.auths.push(auth);
    }

    /// `add` in builder form.
    pub fn with(self, auth: P) -> (r: Self)
        requires
            self.wf(),
        ensures
            r.wf(),
            r.providers() == self.providers().push(auth),
            r.server_ids_view() == self.server_ids_view(),
            r.tokens_view() == self.tokens_view(),
            r.spec_server_id_timeout() == self.spec_server_id_timeout(),
            r.spec_access_timeout() == self.spec_access_timeout(),
    {
        let mut this = self;
        this.add(auth);
        this
    }

    /// Assigns a fresh server id to the claimed username, stamped `now`.
    /// The id is not live in the cache beforehand and its record is the
    /// only change.
    pub fn assign_server_id(&mut self, username: &str, now: u64) -> (r: u128)
        requires
            old(self).wf(),
        ensures
            final(self).wf(),
            old(self).same_config(final(self)),
            final(self).tokens_view() == old(self).tokens_view(),
            !old(self).server_ids_view().contains_key(r),
            final(self).server_ids_view().contains_key(r),
            final(self).server_ids_view() == old(self).server_ids_view().insert(
                r,
                final(self).server_ids_view()[r],
            ),
            final(self).server_ids_view()[r].principal_name@ == username@,
            final(self).server_ids_view()[r].issued_at == now,
    {
        let id = fresh_uuid(&self.server_ids);
        let rec = ServerIdRecord { principal_name: username.to_owned(), issued_at: now };
        self.server_ids.insert(id, rec);
        id
    }

    /// Consumes the pending record of `server_id` — whether or not
    /// verification then succeeds — and asks each provider in
    /// registration order.  The first `Verified` outcome wins and mints a
    /// fresh token; declines and errors fall through to the next
    /// provider.  An unknown or expired id, or a chain with no winner
    /// (in particular an empty chain), yields `None`.
    pub fn obtain_access_token(&mut self, server_id: u128, now: u64) -> (r: Option<u128>)
        requires
            old(self).wf(),
        ensures
            final(self).wf(),
            old(self).same_config(final(self)),
            final(self).server_ids_view() == old(self).server_ids_view().remove(server_id),
            !old(self).server_ids_view().contains_key(server_id) ==> r is None && final(self).tokens_view() == old(self).tokens_view(),
            old(self).server_ids_view().contains_key(server_id) && old(self).pending_win(
                server_id,
            ) is None ==> r is None && final(self).tokens_view() == old(self).tokens_view(),
            old(self).server_ids_view().contains_key(server_id) ==> (match old(self).pending_win(
                server_id,
            ) {
                Some((i, u)) => {
                    &&& r matches Some(t)
                    &&& !old(self).tokens_view().contains_key(t)
                    &&& final(self).tokens_view() == old(self).tokens_view().insert(
                        t,
                        final(self).tokens_view()[t],
                    )
                    &&& final(self).tokens_view()[t].server_id == server_id
                    &&& final(self).tokens_view()[t].user_id == u
                    &&& final(self).tokens_view()[t].principal_name@ == old(self).server_ids_view()[server_id].principal_name@
                    &&& final(self).tokens_view()[t].provider_ref == i
                    &&& final(self).tokens_view()[t].last_touched == now
                },
                None => true,
            }),
    {
        let rec = match self.server_ids.remove(server_id) {
            Some(rec) => rec,
            None => {
                return None;
            },
        };
        let name = rec.principal_name;
        let ghost uname = name@;
        let n = self.auths.len();
        for i in 0..n
            invariant
                old(self).wf(),
                n == self.auths@.len(),
                self.auths@ == old(self).auths@,
                self.server_ids@ == old(self).server_ids@.remove(server_id),
                self.server_ids.wf(),
                self.access_tokens@ == old(self).access_tokens@,
                self.access_tokens.wf(),
                self.server_id_timeout == old(self).server_id_timeout,
                self.access_timeout == old(self).access_timeout,
                name@ == uname,
                uname == old(self).server_ids_view()[server_id].principal_name@,
                old(self).server_ids_view().contains_key(server_id),
                first_win(self.auths@, uname, server_id) == first_win_from(
                    self.auths@,
                    uname,
                    server_id,
                    i as int,
                ),
        {
            let outcome = self.auths[i].authenticate(name.as_str(), server_id);
            match outcome {
                AuthOutcome::Verified(user_id) => {
                    let token = fresh_uuid(&self.access_tokens);
                    let rec = AccessTokenRecord {
                        server_id,
                        user_id,
                        principal_name: name,
                        provider_ref: i,
                        last_touched: now,
                    };
                    self.access_tokens.insert(token, rec);
                    return Some(token);
                },
                _ => {},
            }
        }
        None
    }

    /// A pure existence check on the token cache; touches nothing and
    /// consults no provider.
    pub fn check_access_token(&self, access_token: u128) -> (r: bool)
        requires
            self.wf(),
        ensures
            r == self.tokens_view().contains_key(access_token),
    {
        self.access_tokens.contains_key(access_token)
    }

    /// Asks the provider that minted the token to verify its principal
    /// again.  On success the record's `last_touched` moves to `now`; on
    /// decline, error or an unknown token nothing changes — eviction of a
    /// stale record is left to the sweep.
    pub fn refresh_access_token(&mut self, access_token: u128, now: u64) -> (r: bool)
        requires
            old(self).wf(),
        ensures
            final(self).wf(),
            old(self).same_config(final(self)),
            final(self).server_ids_view() == old(self).server_ids_view(),
            !old(self).tokens_view().contains_key(access_token) ==> r == false && final(self).tokens_view() == old(self).tokens_view(),
            old(self).tokens_view().contains_key(access_token) && !old(self).refresh_verifies(
                access_token,
            ) ==> r == false && final(self).tokens_view() == old(self).tokens_view(),
            old(self).tokens_view().contains_key(access_token) && old(self).refresh_verifies(
                access_token,
            ) ==> {
                &&& r == true
                &&& final(self).tokens_view() == old(self).tokens_view().insert(
                    access_token,
                    final(self).tokens_view()[access_token],
                )
                &&& final(self).tokens_view()[access_token].server_id == old(self).tokens_view()[access_token].server_id
                &&& final(self).tokens_view()[access_token].user_id == old(self).tokens_view()[access_token].user_id
                &&& final(self).tokens_view()[access_token].principal_name@ == old(self).tokens_view()[access_token].principal_name@
                &&& final(self).tokens_view()[access_token].provider_ref == old(self).tokens_view()[access_token].provider_ref
                &&& final(self).tokens_view()[access_token].last_touched == now
            },
    {
        let rec = match self.access_tokens.remove(access_token) {
            Some(rec) => rec,
            None => {
                proof {
                    assert(self.access_tokens@ =~= old(self).access_tokens@);
                }
                return false;
            },
        };
        let outcome = self.auths[rec.provider_ref].authenticate(
            rec.principal_name.as_str(),
            rec.server_id,
        );
        match outcome {
            AuthOutcome::Verified(_) => {
                let touched = AccessTokenRecord {
                    server_id: rec.server_id,
                    user_id: rec.user_id,
                    principal_name: rec.principal_name,
                    provider_ref: rec.provider_ref,
                    last_touched: now,
                };
                self.access_tokens.insert(access_token, touched);
                true
            },
            _ => {
                self.access_tokens.insert(access_token, rec);
                proof {
                    assert(self.access_tokens@ =~= old(self).access_tokens@);
                }
                false
            },
        }
    }

    /// One eviction pass at `now`: drops every server id past
    /// `server_id_timeout` and every token untouched for `access_timeout`.
    pub fn sweep(&mut self, now: u64)
        requires
            old(self).wf(),
        ensures
            final(self).wf(),
            old(self).same_config(final(self)),
            final(self).server_ids_view() == swept_server_ids(
                old(self).server_ids_view(),
                old(self).spec_server_id_timeout(),
                now,
            ),
            final(self).tokens_view() == swept_tokens(
                old(self).tokens_view(),
                old(self).spec_access_timeout(),
                now,
            ),
    {
        let ghost orig_ids = self.server_ids@;
        let ks = self.server_ids.keys();
        let m = ks.len();
        proof {
            assert forall|j: int| 0 <= j < m implies self.server_ids@.contains_key(
                #[trigger] ks@[j],
            ) by {
                assert(ks@.contains(ks@[j]));
            }
        }
        for idx in 0..m
            invariant
                m == ks@.len(),
                ks@.no_duplicates(),
                self.auths@ == old(self).auths@,
                self.access_tokens@ == old(self).access_tokens@,
                self.access_tokens.wf(),
                old(self).wf(),
                self.server_id_timeout == old(self).server_id_timeout,
                self.access_timeout == old(self).access_timeout,
                orig_ids == old(self).server_ids@,
                self.server_ids.wf(),
                forall|k: u128| #[trigger] ks@.contains(k) <==> orig_ids.contains_key(k),
                forall|k: u128| #[trigger]
                    self.server_ids@.contains_key(k) ==> orig_ids.contains_key(k)
                        && self.server_ids@[k] == orig_ids[k],
                forall|j: int|
                    0 <= j < idx ==> (self.server_ids@.contains_key(#[trigger] ks@[j]) <==> !expired(
                        orig_ids[ks@[j]].issued_at,
                        old(self).server_id_timeout,
                        now,
                    )),
                forall|j: int|
                    idx <= j < m ==> self.server_ids@.contains_key(#[trigger] ks@[j]),
        {
            let k = ks[idx];
            let expired_now = match self.server_ids.get(k) {
                Some(rec) => stamp_expired(rec.issued_at, self.server_id_timeout, now),
                None => false,
            };
            if expired_now {
                self.server_ids.remove(k);
                proof {
                    assert forall|j: int|
                        idx + 1 <= j < m implies self.server_ids@.contains_key(
                        #[trigger] ks@[j],
                    ) by {
                        assert(ks@[j] != ks@[idx as int]);
                    }
                }
            }
        }
        proof {
            let swept = swept_server_ids(orig_ids, old(self).server_id_timeout, now);
            assert forall|k: u128| #[trigger]
                swept.dom().contains(k) implies self.server_ids@.contains_key(k)
                && self.server_ids@[k] == swept[k] by {
                assert(ks@.contains(k));
                let j = choose|j: int| 0 <= j < ks@.len() && ks@[j] == k;
                assert(self.server_ids@.contains_key(ks@[j]));
            }
            assert forall|k: u128| #[trigger]
                self.server_ids@.contains_key(k) implies swept.dom().contains(k) by {
                assert(ks@.contains(k));
                let j = choose|j: int| 0 <= j < ks@.len() && ks@[j] == k;
                assert(self.server_ids@.contains_key(ks@[j]) <==> !expired(
                    orig_ids[ks@[j]].issued_at,
                    old(self).server_id_timeout,
                    now,
                ));
            }
            assert(self.server_ids@ =~= swept);
        }
        let ghost orig_toks = self.access_tokens@;
        let tks = self.access_tokens.keys();
        let tm = tks.len();
        proof {
            assert forall|j: int| 0 <= j < tm implies self.access_tokens@.contains_key(
                #[trigger] tks@[j],
            ) by {
                assert(tks@.contains(tks@[j]));
            }
        }
        for idx in 0..tm
            invariant
                tm == tks@.len(),
                tks@.no_duplicates(),
                self.auths@ == old(self).auths@,
                self.server_ids@ == swept_server_ids(
                    old(self).server_ids@,
                    old(self).server_id_timeout,
                    now,
                ),
                self.server_ids.wf(),
                old(self).wf(),
                self.server_id_timeout == old(self).server_id_timeout,
                self.access_timeout == old(self).access_timeout,
                orig_toks == old(self).access_tokens@,
                self.access_tokens.wf(),
                forall|k: u128| #[trigger] tks@.contains(k) <==> orig_toks.contains_key(k),
                forall|k: u128| #[trigger]
                    self.access_tokens@.contains_key(k) ==> orig_toks.contains_key(k)
                        && self.access_tokens@[k] == orig_toks[k],
                forall|j: int|
                    0 <= j < idx ==> (self.access_tokens@.contains_key(#[trigger] tks@[j]) <==> !expired(
                        orig_toks[tks@[j]].last_touched,
                        old(self).access_timeout,
                        now,
                    )),
                forall|j: int|
                    idx <= j < tm ==> self.access_tokens@.contains_key(#[trigger] tks@[j]),
        {
            let k = tks[idx];
            let expired_now = match self.access_tokens.get(k) {
                Some(rec) => stamp_expired(rec.last_touched, self.access_timeout, now),
                None => false,
            };
            if expired_now {
                self.access_tokens.remove(k);
                proof {
                    assert forall|j: int|
                        idx + 1 <= j < tm implies self.access_tokens@.contains_key(
                        #[trigger] tks@[j],
                    ) by {
                        assert(tks@[j] != tks@[idx as int]);
                    }
                }
            }
        }
        proof {
            let swept = swept_tokens(orig_toks, old(self).access_timeout, now);
            assert forall|k: u128| #[trigger]
                swept.dom().contains(k) implies self.access_tokens@.contains_key(k)
                && self.access_tokens@[k] == swept[k] by {
                assert(tks@.contains(k));
                let j = choose|j: int| 0 <= j < tks@.len() && tks@[j] == k;
                assert(self.access_tokens@.contains_key(tks@[j]));
            }
            assert forall|k: u128| #[trigger]
                self.access_tokens@.contains_key(k) implies swept.dom().contains(k) by {
                assert(tks@.contains(k));
                let j = choose|j: int| 0 <= j < tks@.len() && tks@[j] == k;
                assert(self.access_tokens@.contains_key(tks@[j]) <==> !expired(
                    orig_toks[tks@[j]].last_touched,
                    old(self).access_timeout,
                    now,
                ));
            }
            assert(self.access_tokens@ =~= swept);
        }
    }
}

/// A provider that verifies from a fixed roster: the first entry whose
/// username matches gives the user id; names off the roster are declined.
pub struct RosterAuth {
    entries: Vec<(String, u128)>,
}

/// The user id of the first roster entry at or after `from` whose name
/// matches.
pub open spec fn roster_lookup(
    entries: Seq<(String, u128)>,
    username: Seq<char>,
    from: int,
) -> Option<u128>
    decreases entries.len() - from,
{
    if from < 0 || from >= entries.len() {
        None
    } else if entries[from].0@ == username {
        Some(entries[from].1)
    } else {
        roster_lookup(entries, username, from + 1)
    }
}

impl RosterAuth {
    /// The roster, in insertion order.
    pub closed spec fn roster(&self) -> Seq<(String, u128)> {
        self.entries@
    }

    /// An empty roster, which declines everyone.
    pub fn new() -> (r: RosterAuth)
        ensures
            r.roster() == Seq::<(String, u128)>::empty(),
    {
        let r = RosterAuth { entries: Vec::new() };
        proof {
            assert(r.entries@ =~= Seq::<(String, u128)>::empty());
        }
        r
    }

    /// Appends a principal to the roster.
    pub fn insert(&mut self, username: String, user_id: u128)
        ensures
            final(self).roster() == old(self).roster().push((username, user_id)),
    {
        self.entries.push((username, user_id));
    }
}

impl Auth for RosterAuth {
    open spec fn decision(&self, username: Seq<char>, server_id: u128) -> AuthOutcome {
        match roster_lookup(self.roster(), username, 0) {
            Some(u) => AuthOutcome::Verified(u),
            None => AuthOutcome::Declined,
        }
    }

    fn authenticate(&self, username: &str, server_id: u128) -> (r: AuthOutcome) {
        let owned = username.to_owned();
        let n = self.entries.len();
        for i in 0..n
            invariant
                owned@ == username@,
                n == self.entries@.len(),
                roster_lookup(self.entries@, username@, 0) == roster_lookup(
                    self.entries@,
                    username@,
                    i as int,
                ),
        {
            if self.entries[i].0 == owned {
                return AuthOutcome::Verified(self.entries[i].1);
            }
        }
        AuthOutcome::Declined
    }
}

/// A server id is single-use: once an obtain attempt has consumed it, a
/// second attempt with the same id finds nothing, whether or not the
/// first attempt won.
pub proof fn lemma_server_id_single_use(m: Map<u128, ServerIdRecord>, server_id: u128)
    ensures
        !m.remove(server_id).contains_key(server_id),
{
}

/// With no provider registered, no verification attempt can win.
pub proof fn lemma_no_provider_no_win<P: Auth>(ps: Seq<P>, username: Seq<char>, server_id: u128)
    requires
        ps.len() == 0,
    ensures
        first_win(ps, username, server_id) is None,
{
}

/// Registration order decides ties: a verifying head provider wins at
/// once with its own user id, and when the head of a two-provider chain
/// does not verify, its verifying second provider wins.
pub proof fn lemma_first_wins<P: Auth>(ps: Seq<P>, username: Seq<char>, server_id: u128)
    requires
        ps.len() > 0,
    ensures
        ps[0].decision(username, server_id) matches AuthOutcome::Verified(u) ==> first_win(
            ps,
            username,
            server_id,
        ) == Some((0int, u)),
        ps.len() == 2 && !(ps[0].decision(username, server_id) is Verified) ==> (ps[1].decision(
            username,
            server_id,
        ) matches AuthOutcome::Verified(u) ==> first_win(ps, username, server_id) == Some(
            (1int, u),
        )),
{
    if ps.len() == 2 && !(ps[0].decision(username, server_id) is Verified) {
        assert(first_win_from(ps, username, server_id, 0) == first_win_from(
            ps,
            username,
            server_id,
            1,
        ));
    }
}

/// A freshly minted token is found by the existence check, and minting
/// finds no token that was never minted.
pub proof fn lemma_check_after_mint(
    m: Map<u128, AccessTokenRecord>,
    t: u128,
    rec: AccessTokenRecord,
    other: u128,
)
    ensures
        m.insert(t, rec).contains_key(t),
        !m.contains_key(other) && other != t ==> !m.insert(t, rec).contains_key(other),
{
}

/// A token untouched for the access timeout is gone after the sweep.
pub proof fn lemma_sweep_evicts_expired_token(
    m: Map<u128, AccessTokenRecord>,
    timeout: u64,
    now: u64,
    t: u128,
)
    requires
        m.contains_key(t),
        expired(m[t].last_touched, timeout, now),
    ensures
        !swept_tokens(m, timeout, now).contains_key(t),
{
}

/// A token touched within the access timeout survives the sweep
/// unchanged; in particular a successful refresh, which moves
/// `last_touched` forward, defers eviction past the refresh time.
pub proof fn lemma_sweep_keeps_fresh_token(
    m: Map<u128, AccessTokenRecord>,
    timeout: u64,
    now: u64,
    t: u128,
)
    requires
        m.contains_key(t),
        !expired(m[t].last_touched, timeout, now),
    ensures
        swept_tokens(m, timeout, now).contains_key(t),
        swept_tokens(m, timeout, now)[t] == m[t],
{
}

/// An unconsumed server id past its timeout is gone after the sweep, so
/// a later obtain attempt finds nothing.
pub proof fn lemma_sweep_evicts_expired_server_id(
    m: Map<u128, ServerIdRecord>,
    timeout: u64,
    now: u64,
    id: u128,
)
    requires
        m.contains_key(id),
        expired(m[id].issued_at, timeout, now),
    ensures
        !swept_server_ids(m, timeout, now).contains_key(id),
{
}

/// A server id within its timeout survives the sweep unchanged.
pub proof fn lemma_sweep_keeps_fresh_server_id(
    m: Map<u128, ServerIdRecord>,
    timeout: u64,
    now: u64,
    id: u128,
)
    requires
        m.contains_key(id),
        !expired(m[id].issued_at, timeout, now),
    ensures
        swept_server_ids(m, timeout, now).contains_key(id),
        swept_server_ids(m, timeout, now)[id] == m[id],
{
}

} // verus!
