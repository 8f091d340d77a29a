use agent_kit::lease::{MemoryPostLease, PostLease, MAX_POSTED_LEASES};

#[test]
fn positive_first_acquire_wins_repeat_is_already_posted() {
    let mut lease = MemoryPostLease::new();
    assert_eq!(lease.acquire("rev-1"), PostLease::Acquired);
    lease.commit("rev-1");
    assert_eq!(lease.acquire("rev-1"), PostLease::AlreadyPosted);
}

#[test]
fn negative_second_acquire_before_commit_is_held() {
    let mut lease = MemoryPostLease::new();
    assert_eq!(lease.acquire("rev-2"), PostLease::Acquired);
    assert_eq!(lease.acquire("rev-2"), PostLease::Held);
}

#[test]
fn corner_release_allows_retry_after_failed_post() {
    let mut lease = MemoryPostLease::new();
    assert_eq!(lease.acquire("rev-3"), PostLease::Acquired);
    lease.release("rev-3");
    assert_eq!(lease.acquire("rev-3"), PostLease::Acquired);
}

#[test]
fn corner_release_never_undoes_a_committed_post() {
    let mut lease = MemoryPostLease::new();
    lease.acquire("rev-4");
    lease.commit("rev-4");
    lease.release("rev-4");
    assert_eq!(lease.acquire("rev-4"), PostLease::AlreadyPosted);
}

#[test]
fn adversarial_hostile_review_id_is_inert_and_still_dedups() {
    for id in ["6f3d2a1e-0000-4b2c-9f1a-abcdef012345", "rev'; DROP TABLE post_lease;--", "../../etc/passwd"] {
        let mut lease = MemoryPostLease::new();
        assert_eq!(lease.acquire(id), PostLease::Acquired);
        lease.commit(id);
        assert_eq!(lease.acquire(id), PostLease::AlreadyPosted);
    }
}

#[test]
fn boundary_memory_eviction_bounds_the_map_but_keeps_recent() {
    let mut lease = MemoryPostLease::with_cap(2);
    for i in 0..5 {
        let id = format!("rev-{i}");
        lease.acquire(&id);
        lease.commit(&id);
    }
    assert_eq!(lease.acquire("rev-4"), PostLease::AlreadyPosted);
    assert_eq!(lease.acquire("rev-3"), PostLease::AlreadyPosted);
    assert_eq!(lease.acquire("rev-0"), PostLease::Acquired);
}

#[test]
fn commit_eviction_spares_a_held_lease_and_status_reads_back() {
    let mut lease = MemoryPostLease::with_cap(1);
    assert_eq!(lease.acquire("held"), PostLease::Acquired);
    lease.commit("a");
    lease.commit("b");
    assert_eq!(lease.status("held"), Some(false));
    assert_eq!(lease.status("a"), None);
    assert_eq!(lease.status("b"), Some(true));
    lease.commit("b");
    assert_eq!(lease.status("b"), Some(true));
    let _ = MAX_POSTED_LEASES;
    let mut zero = MemoryPostLease::with_cap(0);
    zero.commit("x");
    zero.commit("y");
    assert_eq!(zero.status("x"), Some(true));
}
