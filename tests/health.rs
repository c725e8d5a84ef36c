use relay_metrics::{Healthcheck, IsHealthy};

#[test]
fn test_readiness_depends_on_state() {
    let mut check = Healthcheck::new(true);
    assert!(check.is_healthy(IsHealthy::Liveness, false, false));
    assert!(check.is_healthy(IsHealthy::Readiness, true, true));
    assert!(!check.is_healthy(IsHealthy::Readiness, false, true));
    assert!(!check.is_healthy(IsHealthy::Readiness, true, false));
    let open = Healthcheck::new(false);
    assert!(open.is_healthy(IsHealthy::Readiness, true, false));
    check.shutdown();
    assert!(!check.is_healthy(IsHealthy::Readiness, true, true));
    assert!(check.is_healthy(IsHealthy::Liveness, true, true));
}
