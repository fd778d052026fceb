//! Broker lifecycle: assignment, single-use consumption, provider
//! fallback, token checks, refresh, and timeout-driven eviction.

use std::cell::Cell;
use std::rc::Rc;

use figura_backend::auth::{Auth, AuthOutcome, AuthService, RosterAuth};

const VERIFY: u128 = 0;
const DECLINE: u128 = 1;
const FAIL: u128 = 2;

/// A scripted provider whose behaviour and call count stay observable
/// through shared handles after the provider moves into the broker.
struct Scripted {
    mode: Rc<Cell<u128>>,
    user: u128,
    calls: Rc<Cell<u32>>,
}

impl Scripted {
    fn new(mode: u128, user: u128) -> (Scripted, Rc<Cell<u128>>, Rc<Cell<u32>>) {
        let mode = Rc::new(Cell::new(mode));
        let calls = Rc::new(Cell::new(0));
        (Scripted { mode: mode.clone(), user, calls: calls.clone() }, mode, calls)
    }
}

impl Auth for Scripted {
    fn authenticate(&self, _username: &str, _server_id: u128) -> AuthOutcome {
        self.calls.set(self.calls.get() + 1);
        match self.mode.get() {
            VERIFY => AuthOutcome::Verified(self.user),
            DECLINE => AuthOutcome::Declined,
            _ => AuthOutcome::Error(String::from("backend unreachable")),
        }
    }
}

fn roster_service(name: &str, user: u128) -> AuthService<RosterAuth> {
    let mut svc: AuthService<RosterAuth> = AuthService::new(10, 600);
    let mut roster = RosterAuth::new();
    roster.insert(String::from(name), user);
    svc.add(roster);
    svc
}

#[test]
fn assigned_ids_are_fresh_and_distinct() {
    let mut svc: AuthService<RosterAuth> = AuthService::new(10, 600);
    let a = svc.assign_server_id("alice", 0);
    let b = svc.assign_server_id("alice", 0);
    let c = svc.assign_server_id("bob", 1);
    assert_ne!(a, b);
    assert_ne!(a, c);
    assert_ne!(b, c);
}

#[test]
fn server_id_is_single_use() {
    let mut svc = roster_service("alice", 7);
    let id = svc.assign_server_id("alice", 0);
    let first = svc.obtain_access_token(id, 0);
    assert!(first.is_some());
    let second = svc.obtain_access_token(id, 0);
    assert!(second.is_none());
}

#[test]
fn no_provider_means_no_token_and_id_is_still_consumed() {
    let mut svc: AuthService<RosterAuth> = AuthService::new(10, 600);
    let id = svc.assign_server_id("alice", 0);
    assert!(svc.obtain_access_token(id, 0).is_none());
    // The id was consumed by the failed attempt: registering a provider
    // that would verify does not revive it.
    let mut roster = RosterAuth::new();
    roster.insert(String::from("alice"), 7);
    svc.add(roster);
    assert!(svc.obtain_access_token(id, 0).is_none());
}

#[test]
fn declined_first_provider_falls_through_to_second() {
    let mut svc: AuthService<Scripted> = AuthService::new(10, 600);
    let (first, _, first_calls) = Scripted::new(DECLINE, 0);
    let (second, _, second_calls) = Scripted::new(VERIFY, 42);
    svc.add(first);
    svc.add(second);
    let id = svc.assign_server_id("alice", 0);
    let token = svc.obtain_access_token(id, 0);
    assert!(token.is_some());
    assert_eq!(first_calls.get(), 1);
    assert_eq!(second_calls.get(), 1);
}

#[test]
fn verifying_first_provider_stops_the_chain() {
    let mut svc: AuthService<Scripted> = AuthService::new(10, 600);
    let (first, _, first_calls) = Scripted::new(VERIFY, 41);
    let (second, _, second_calls) = Scripted::new(VERIFY, 42);
    svc.add(first);
    svc.add(second);
    let id = svc.assign_server_id("alice", 0);
    let token = svc.obtain_access_token(id, 0);
    assert!(token.is_some());
    assert_eq!(first_calls.get(), 1);
    assert_eq!(second_calls.get(), 0);
}

#[test]
fn provider_error_counts_as_decline() {
    let mut svc: AuthService<Scripted> = AuthService::new(10, 600);
    let (first, _, _) = Scripted::new(FAIL, 0);
    let (second, _, _) = Scripted::new(VERIFY, 42);
    svc.add(first);
    svc.add(second);
    let id = svc.assign_server_id("alice", 0);
    assert!(svc.obtain_access_token(id, 0).is_some());
}

#[test]
fn all_providers_decline_means_no_token() {
    let mut svc: AuthService<Scripted> = AuthService::new(10, 600);
    let (first, _, _) = Scripted::new(DECLINE, 0);
    let (second, _, _) = Scripted::new(FAIL, 0);
    svc.add(first);
    svc.add(second);
    let id = svc.assign_server_id("alice", 0);
    assert!(svc.obtain_access_token(id, 0).is_none());
}

#[test]
fn check_finds_minted_tokens_and_nothing_else() {
    let mut svc = roster_service("alice", 7);
    let id = svc.assign_server_id("alice", 0);
    let token = svc.obtain_access_token(id, 0).unwrap();
    assert!(svc.check_access_token(token));
    assert!(!svc.check_access_token(token.wrapping_add(1)));
}

#[test]
fn token_expires_without_refresh() {
    let mut svc = roster_service("alice", 7);
    let id = svc.assign_server_id("alice", 0);
    let token = svc.obtain_access_token(id, 0).unwrap();
    svc.sweep(599);
    assert!(svc.check_access_token(token));
    svc.sweep(600);
    assert!(!svc.check_access_token(token));
}

#[test]
fn refresh_keeps_a_token_alive() {
    let mut svc = roster_service("alice", 7);
    let id = svc.assign_server_id("alice", 0);
    let token = svc.obtain_access_token(id, 0).unwrap();
    assert!(svc.refresh_access_token(token, 500));
    svc.sweep(600);
    assert!(svc.check_access_token(token));
    svc.sweep(1099);
    assert!(svc.check_access_token(token));
    svc.sweep(1100);
    assert!(!svc.check_access_token(token));
}

#[test]
fn failed_refresh_does_not_revoke() {
    let mut svc: AuthService<Scripted> = AuthService::new(10, 600);
    let (provider, mode, _) = Scripted::new(VERIFY, 7);
    svc.add(provider);
    let id = svc.assign_server_id("alice", 0);
    let token = svc.obtain_access_token(id, 0).unwrap();
    // The backend stops vouching for the principal: refresh reports the
    // staleness but leaves the record for the sweep.
    mode.set(DECLINE);
    assert!(!svc.refresh_access_token(token, 100));
    assert!(svc.check_access_token(token));
    // An erroring backend is no different.
    mode.set(FAIL);
    assert!(!svc.refresh_access_token(token, 200));
    assert!(svc.check_access_token(token));
    // And `last_touched` did not move: the token still dies at its
    // original deadline.
    svc.sweep(600);
    assert!(!svc.check_access_token(token));
}

#[test]
fn unknown_token_does_not_refresh() {
    let mut svc = roster_service("alice", 7);
    assert!(!svc.refresh_access_token(12345, 0));
}

#[test]
fn server_id_expires_unconsumed() {
    let mut svc = roster_service("alice", 7);
    let id = svc.assign_server_id("alice", 0);
    svc.sweep(10);
    assert!(svc.obtain_access_token(id, 10).is_none());
}

#[test]
fn server_id_survives_until_its_timeout() {
    let mut svc = roster_service("alice", 7);
    let id = svc.assign_server_id("alice", 0);
    svc.sweep(9);
    assert!(svc.obtain_access_token(id, 9).is_some());
}

#[test]
fn same_username_can_hold_several_pending_ids() {
    let mut svc = roster_service("alice", 7);
    let id1 = svc.assign_server_id("alice", 0);
    let id2 = svc.assign_server_id("alice", 0);
    assert!(svc.obtain_access_token(id1, 0).is_some());
    assert!(svc.obtain_access_token(id2, 0).is_some());
}

#[test]
fn principal_names_are_arbitrary_text() {
    let mut svc = roster_service("ålice ♚", 7);
    let id = svc.assign_server_id("ålice ♚", 0);
    assert!(svc.obtain_access_token(id, 0).is_some());
    let id = svc.assign_server_id("", 0);
    assert!(svc.obtain_access_token(id, 0).is_none());
}

#[test]
fn builder_form_registers_like_add() {
    let mut roster = RosterAuth::new();
    roster.insert(String::from("alice"), 7);
    let mut svc: AuthService<RosterAuth> = AuthService::new(10, 600).with(roster);
    let id = svc.assign_server_id("alice", 0);
    assert!(svc.obtain_access_token(id, 0).is_some());
}

#[test]
fn roster_declines_unknown_names() {
    let mut svc = roster_service("alice", 7);
    let id = svc.assign_server_id("mallory", 0);
    assert!(svc.obtain_access_token(id, 0).is_none());
}
