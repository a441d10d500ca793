use load_balancer::balancer::BalancerRequest;
use load_balancer::health::{health_request_for, report_for_status, HealthAction, HealthCheckRequest, HealthReport, HealthWorkers};
use load_balancer::server::Server;

#[test]
fn status_range_decides_health() {
    for (status, healthy) in [(199, false), (200, true), (302, true), (399, true), (400, false), (503, false)] {
        match report_for_status("http://a:1".to_string(), status) {
            HealthReport::Healthy(u) => {
                assert!(healthy);
                assert_eq!(u, "http://a:1");
            }
            HealthReport::Unhealthy(u) => {
                assert!(!healthy);
                assert_eq!(u, "http://a:1");
            }
        }
    }
}

#[test]
fn workers_start_restart_and_stop() {
    let mut w = HealthWorkers::new();
    let a = "http://a:1".to_string();
    assert!(matches!(w.handle(HealthCheckRequest::Start(a.clone(), 5)), HealthAction::Spawn(u, 5) if u == a));
    assert!(w.is_watched(&a));
    assert!(matches!(w.handle(HealthCheckRequest::Start(a.clone(), 9)), HealthAction::Respawn(u, 9) if u == a));
    assert!(matches!(w.handle(HealthCheckRequest::Stop(a.clone())), HealthAction::Stop(u) if u == a));
    assert!(!w.is_watched(&a));
    assert!(matches!(w.handle(HealthCheckRequest::Stop(a.clone())), HealthAction::Unknown(u) if u == a));
}

#[test]
fn table_changes_drive_health_checks() {
    let s = Server::new("http://a:1".to_string(), "a".to_string(), 1, 15);
    assert!(matches!(health_request_for(&BalancerRequest::AddServer(s)),
        Some(HealthCheckRequest::Start(u, 15)) if u == "http://a:1"));
    let s = Server::new("http://a:1".to_string(), "a".to_string(), 1, 20);
    assert!(matches!(health_request_for(&BalancerRequest::UpdateServer(s)),
        Some(HealthCheckRequest::Start(u, 20)) if u == "http://a:1"));
    assert!(matches!(health_request_for(&BalancerRequest::DeleteServer("http://a:1".to_string())),
        Some(HealthCheckRequest::Stop(u)) if u == "http://a:1"));
    assert!(health_request_for(&BalancerRequest::DecrementServerConnections("http://a:1".to_string())).is_none());
}
