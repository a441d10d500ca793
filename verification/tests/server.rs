use load_balancer::server::Server;
use std::cmp::Ordering;

fn server(connections: u32, weight: u32, healthy: bool) -> Server {
    let mut s = Server::new("http://s:1".to_string(), "s".to_string(), weight, 10);
    s.connections = connections;
    s.healthy = healthy;
    s
}

#[test]
fn new_server_starts_idle() {
    let s = Server::new("http://s:1".to_string(), "s".to_string(), 4, 12);
    assert_eq!(s.connections, 0);
    assert!(!s.healthy);
    assert!(!s.disabled);
    assert_eq!(s.weight, 4);
    assert_eq!(s.health_check_period, 12);
}

#[test]
fn cmp_healthy_first() {
    assert_eq!(server(5, 1, true).cmp(&server(0, 9, false)), Ordering::Less);
    assert_eq!(server(0, 9, false).cmp(&server(5, 1, true)), Ordering::Greater);
}

#[test]
fn cmp_fewer_connections_then_weight() {
    assert_eq!(server(1, 1, true).cmp(&server(2, 9, true)), Ordering::Less);
    assert_eq!(server(2, 1, false).cmp(&server(1, 9, false)), Ordering::Greater);
    assert_eq!(server(2, 5, true).cmp(&server(2, 4, true)), Ordering::Less);
    assert_eq!(server(2, 4, true).cmp(&server(2, 5, true)), Ordering::Greater);
    assert_eq!(server(2, 4, false).cmp(&server(2, 4, false)), Ordering::Equal);
}

#[test]
fn cmp_is_antisymmetric_and_partial_cmp_agrees() {
    let all = [server(0, 1, true), server(0, 2, true), server(3, 1, false), server(3, 1, true), server(1, 1, false)];
    for a in &all {
        assert_eq!(a.cmp(a), Ordering::Equal);
        for b in &all {
            assert_eq!(a.cmp(b), b.cmp(a).reverse());
            assert_eq!(a.partial_cmp(b), Some(a.cmp(b)));
            for c in &all {
                if a.cmp(b) != Ordering::Greater && b.cmp(c) != Ordering::Greater {
                    assert_ne!(a.cmp(c), Ordering::Greater);
                }
            }
        }
    }
}
