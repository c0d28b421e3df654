//! Per-daemon activity and stops for inactivity.
use pitchfork_proxy::activity::{ActivityTracker, DaemonId};
use std::time::Duration;

fn tracker() -> ActivityTracker {
    ActivityTracker::new()
}

fn id(name: &str) -> DaemonId {
    DaemonId::new("proj", name)
}

#[test]
fn in_flight_work_blocks_an_idle_claim() {
    let mut t = tracker();
    let guard = t.begin(&id("api")).unwrap();
    assert!(!t.claim_idle_stop(&id("api"), Duration::ZERO));
    // The work ends.
    t.end(&guard.id);
    assert!(t.claim_idle_stop(&id("api"), Duration::ZERO));
}

#[test]
fn recent_activity_blocks_an_idle_claim_until_the_grace_passes() {
    let mut t = tracker();
    let guard = t.begin(&id("api")).unwrap();
    t.end(&guard.id);
    assert!(!t.claim_idle_stop(&id("api"), Duration::from_secs(60)));
    assert!(t.claim_idle_stop(&id("api"), Duration::ZERO));
}

#[test]
fn a_claimed_stop_refuses_new_work_until_released() {
    let mut t = tracker();
    assert!(t.claim_idle_stop(&id("api"), Duration::ZERO));
    assert!(t.is_idle_stopping(&id("api")));
    assert!(t.begin(&id("api")).is_none());
    assert!(!t.claim_idle_stop(&id("api"), Duration::ZERO));
    t.release_idle_stop(&id("api"));
    assert!(!t.is_idle_stopping(&id("api")));
    assert!(t.begin(&id("api")).is_some());
}

#[test]
fn begin_all_takes_nothing_when_one_daemon_is_stopping() {
    let mut t = tracker();
    assert!(t.claim_idle_stop(&id("db"), Duration::ZERO));
    assert!(t.begin_all(&[id("api"), id("db")]).is_none());
    assert_eq!(t.snapshot(&id("api")).in_flight, 0);
}

#[test]
fn a_daemon_first_seen_by_a_snapshot_starts_a_fresh_idle_clock() {
    let mut t = tracker();
    let snap = t.snapshot(&id("adopted"));
    assert_eq!(snap.in_flight, 0);
    assert!(Duration::from_nanos(snap.idle_for) < Duration::from_secs(1));
    assert!(!t.claim_idle_stop(&id("adopted"), Duration::from_secs(60)));
}

#[test]
fn releasing_a_claim_restarts_the_idle_clock() {
    let mut t = tracker();
    assert!(t.claim_idle_stop(&id("api"), Duration::ZERO));
    t.release_idle_stop(&id("api"));
    assert!(!t.claim_idle_stop(&id("api"), Duration::from_secs(60)));
}

// ─── beyond the original's cases: the clock given explicitly ────────────────

#[test]
fn the_idle_clock_counts_from_the_last_begin_or_end() {
    let mut t = tracker();
    let api = id("api");
    let g = t.begin_at(&api, 100).unwrap();
    assert_eq!(g.id.name, "api");
    assert_eq!(t.snapshot_at(&api, 150).in_flight, 1);
    t.end_at(&api, 200);
    let s = t.snapshot_at(&api, 260);
    assert_eq!((s.in_flight, s.idle_for, s.idle_stopping), (0, 60, false));
    assert!(!t.claim_idle_stop_at(&api, 61, 260));
    assert!(t.claim_idle_stop_at(&api, 60, 260));
    assert!(t.snapshot_at(&api, 300).idle_stopping);
    assert!(t.begin_at(&api, 300).is_none());
    t.release_idle_stop_at(&api, 400);
    assert_eq!(t.snapshot_at(&api, 450).idle_for, 50);
}

#[test]
fn work_is_counted_per_daemon() {
    let mut t = tracker();
    t.begin_at(&id("api"), 10).unwrap();
    t.begin_at(&id("api"), 11).unwrap();
    t.begin_at(&id("web"), 12).unwrap();
    assert_eq!(t.snapshot_at(&id("api"), 20).in_flight, 2);
    assert_eq!(t.snapshot_at(&id("web"), 20).in_flight, 1);
    assert_eq!(t.snapshot_at(&DaemonId::new("other", "api"), 20).in_flight, 0);
    // Ending work that was never begun leaves a count at zero.
    t.end_at(&id("db"), 30);
    t.end_at(&id("web"), 30);
    t.end_at(&id("web"), 31);
    assert_eq!(t.snapshot_at(&id("web"), 40).in_flight, 0);
    // A clock that appears to run backwards counts as no time passed.
    assert_eq!(t.snapshot_at(&id("web"), 5).idle_for, 0);
}

#[test]
fn begin_all_begins_every_daemon_when_none_is_stopping() {
    let mut t = tracker();
    let guards = t.begin_all_at(&[id("api"), id("db")], 5).unwrap();
    assert_eq!(guards.len(), 2);
    assert_eq!(guards[1].id.name, "db");
    assert_eq!(t.snapshot_at(&id("db"), 6).in_flight, 1);
}

#[test]
fn a_refused_begin_all_ends_the_work_it_began_on_earlier_daemons() {
    let mut t = tracker();
    assert!(t.begin_at(&id("api"), 10).is_some());
    assert!(t.claim_idle_stop_at(&id("db"), 0, 20));
    assert!(t.begin_all_at(&[id("api"), id("web"), id("api"), id("db"), id("cache")], 30).is_none());
    // `api` keeps the one unit it had, `web` none; both were active at 30.
    let api = t.snapshot_at(&id("api"), 40);
    assert_eq!((api.in_flight, api.idle_for, api.idle_stopping), (1, 10, false));
    let web = t.snapshot_at(&id("web"), 40);
    assert_eq!((web.in_flight, web.idle_for, web.idle_stopping), (0, 10, false));
    // `db` is still being stopped, and `cache`, after it, was never touched.
    assert!(t.is_idle_stopping(&id("db")));
    assert_eq!(t.snapshot_at(&id("cache"), 40).idle_for, 0);
}

#[test]
fn begin_all_counts_a_daemon_named_twice_twice() {
    let mut t = tracker();
    let guards = t.begin_all_at(&[id("api"), id("api"), id("db")], 5).unwrap();
    assert_eq!(guards.len(), 3);
    assert_eq!(t.snapshot_at(&id("api"), 5).in_flight, 2);
    assert_eq!(t.snapshot_at(&id("db"), 5).in_flight, 1);
}

#[test]
fn releasing_at_a_time_restarts_the_idle_clock_there() {
    let mut t = tracker();
    assert!(t.claim_idle_stop_at(&id("api"), 0, 100));
    t.release_idle_stop_at(&id("api"), 200);
    assert_eq!(t.snapshot_at(&id("api"), 250).idle_for, 50);
    assert!(!t.claim_idle_stop_at(&id("api"), 60, 250));
    assert!(t.claim_idle_stop_at(&id("api"), 50, 250));
}
