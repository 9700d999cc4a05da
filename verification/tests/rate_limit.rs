use localstream_core::net::{normalize_ip, IpAddress};
use localstream_core::rate_limit::{
    duration_seconds_ceil, PairingAttemptKind, PairingRateLimiter, Policy, RateLimitDecision,
};

const SECOND: u64 = 1_000_000_000;
const MILLISECOND: u64 = 1_000_000;
// An arbitrary monotonic clock reading.
const NOW: u64 = 5_000 * SECOND;

fn limiter(per_source: u32, global: u32, max_sources: usize) -> PairingRateLimiter {
    let policy = Policy {
        per_source,
        global,
        window_nanos: 60 * SECOND,
    };
    PairingRateLimiter::new(policy, policy, max_sources)
}

fn ip(last: u8) -> IpAddress {
    IpAddress::V4(0xc000_0200 | u32::from(last))
}

#[test]
fn enforces_the_per_source_boundary_and_resets_after_the_window() {
    let mut limiter = limiter(2, 10, 10);
    let now = NOW;
    assert_eq!(
        limiter.check_at(PairingAttemptKind::Begin, ip(1), now),
        RateLimitDecision::Allowed
    );
    assert_eq!(
        limiter.check_at(PairingAttemptKind::Begin, ip(1), now),
        RateLimitDecision::Allowed
    );
    assert_eq!(
        limiter.check_at(PairingAttemptKind::Begin, ip(1), now + MILLISECOND),
        RateLimitDecision::Limited {
            retry_after_seconds: 60
        }
    );
    assert_eq!(
        limiter.check_at(PairingAttemptKind::Begin, ip(1), now + 60 * SECOND),
        RateLimitDecision::Allowed
    );
}

#[test]
fn isolates_sources_but_enforces_the_global_boundary() {
    let mut limiter = limiter(3, 3, 10);
    let now = NOW;
    assert_eq!(
        limiter.check_at(PairingAttemptKind::Begin, ip(1), now),
        RateLimitDecision::Allowed
    );
    assert_eq!(
        limiter.check_at(PairingAttemptKind::Begin, ip(2), now),
        RateLimitDecision::Allowed
    );
    assert_eq!(
        limiter.check_at(PairingAttemptKind::Begin, ip(3), now),
        RateLimitDecision::Allowed
    );
    assert_eq!(
        limiter.check_at(PairingAttemptKind::Begin, ip(4), now),
        RateLimitDecision::Limited {
            retry_after_seconds: 60
        }
    );
}

#[test]
fn begin_and_claim_policies_have_independent_counters() {
    let mut limiter = PairingRateLimiter::new(
        Policy {
            per_source: 1,
            global: 1,
            window_nanos: 60 * SECOND,
        },
        Policy {
            per_source: 2,
            global: 2,
            window_nanos: 60 * SECOND,
        },
        10,
    );
    let now = NOW;
    assert_eq!(
        limiter.check_at(PairingAttemptKind::Begin, ip(1), now),
        RateLimitDecision::Allowed
    );
    assert!(matches!(
        limiter.check_at(PairingAttemptKind::Begin, ip(1), now),
        RateLimitDecision::Limited { .. }
    ));
    assert_eq!(
        limiter.check_at(PairingAttemptKind::Claim, ip(1), now),
        RateLimitDecision::Allowed
    );
    assert_eq!(
        limiter.check_at(PairingAttemptKind::Claim, ip(1), now),
        RateLimitDecision::Allowed
    );
    assert!(matches!(
        limiter.check_at(PairingAttemptKind::Claim, ip(1), now),
        RateLimitDecision::Limited { .. }
    ));
}

#[test]
fn bounds_sources_and_reclaims_stale_entries() {
    let mut limiter = limiter(5, 20, 2);
    let now = NOW;
    assert_eq!(
        limiter.check_at(PairingAttemptKind::Begin, ip(1), now),
        RateLimitDecision::Allowed
    );
    assert_eq!(
        limiter.check_at(PairingAttemptKind::Begin, ip(2), now),
        RateLimitDecision::Allowed
    );
    assert!(matches!(
        limiter.check_at(PairingAttemptKind::Begin, ip(3), now),
        RateLimitDecision::Limited { .. }
    ));
    assert_eq!(limiter.tracked_sources(), 2);

    assert_eq!(
        limiter.check_at(PairingAttemptKind::Begin, ip(3), now + 60 * SECOND),
        RateLimitDecision::Allowed
    );
    assert_eq!(limiter.tracked_sources(), 1);
}

#[test]
fn normalizes_ipv4_mapped_sources() {
    let ipv4: u32 = 0xc000_0201;
    let mapped = IpAddress::V6(0xffff_0000_0000 | u128::from(ipv4));
    assert_eq!(normalize_ip(mapped), IpAddress::V4(ipv4));
    let loopback = IpAddress::V6(1);
    assert_eq!(normalize_ip(loopback), loopback);
}

#[test]
fn a_full_table_refuses_new_sources_with_the_stale_window() {
    let mut limiter = limiter(5, 20, 1);
    assert_eq!(
        limiter.check_at(PairingAttemptKind::Claim, ip(1), NOW),
        RateLimitDecision::Allowed
    );
    assert_eq!(
        limiter.check_at(PairingAttemptKind::Claim, ip(2), NOW + SECOND),
        RateLimitDecision::Limited {
            retry_after_seconds: 60
        }
    );
    assert_eq!(
        limiter.check_at(PairingAttemptKind::Claim, ip(1), NOW + 2 * SECOND),
        RateLimitDecision::Allowed
    );
}

#[test]
fn retry_metadata_rounds_up_to_whole_seconds() {
    assert_eq!(duration_seconds_ceil(0), 1);
    assert_eq!(duration_seconds_ceil(SECOND), 1);
    assert_eq!(duration_seconds_ceil(SECOND + 1), 2);
    assert_eq!(duration_seconds_ceil(59 * SECOND + 999 * MILLISECOND), 60);
    let mut limiter = limiter(1, 10, 10);
    limiter.check_at(PairingAttemptKind::Begin, ip(9), NOW);
    assert_eq!(
        limiter.check_at(PairingAttemptKind::Begin, ip(9), NOW + 30 * SECOND + 1),
        RateLimitDecision::Limited {
            retry_after_seconds: 30
        }
    );
}

#[test]
fn normalizes_source_ip_and_ignores_socket_ports() {
    let mut limiter = limiter(1, 10, 10);
    let ipv4: u32 = 0xc000_0201;
    let mapped = IpAddress::V6(0xffff_0000_0000 | u128::from(ipv4));
    assert_eq!(normalize_ip(mapped), IpAddress::V4(ipv4));
    assert_eq!(
        limiter.check(PairingAttemptKind::Begin, IpAddress::V4(ipv4), NOW),
        RateLimitDecision::Allowed
    );
    assert!(matches!(
        limiter.check(PairingAttemptKind::Begin, mapped, NOW),
        RateLimitDecision::Limited { .. }
    ));
    assert_eq!(normalize_ip(IpAddress::V6(1)), IpAddress::V6(1));
}

#[test]
fn an_unreadable_limiter_refuses_for_one_window() {
    let limiter = limiter(2, 10, 10);
    assert_eq!(
        limiter.refusal(PairingAttemptKind::Begin),
        RateLimitDecision::Limited { retry_after_seconds: 60 }
    );
}
