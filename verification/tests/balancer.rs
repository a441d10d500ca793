use load_balancer::balancer::{new, Balancer, BalancerError, BalancerRequest};
use load_balancer::health::HealthReport;
use load_balancer::server::Server;
use std::collections::HashMap;

fn server(url: &str, name: &str, weight: u32, period: u64) -> Server {
    Server::new(url.to_string(), name.to_string(), weight, period)
}

fn servers_from_yaml(text: &str) -> Vec<Server> {
    let doc: serde_yaml::Value = serde_yaml::from_str(text).unwrap();
    let mut out = Vec::new();
    for entry in doc.as_sequence().unwrap() {
        out.push(Server {
            url: entry["url"].as_str().unwrap().to_string(),
            name: entry["name"].as_str().unwrap().to_string(),
            weight: entry["weight"].as_u64().unwrap() as u32,
            health_check_period: entry["health_check_period"].as_u64().unwrap(),
            connections: 0,
            healthy: false,
            disabled: entry["disabled"].as_bool().unwrap_or(false),
        });
    }
    out
}

fn message(e: BalancerError) -> String {
    match e {
        BalancerError::MyError(m) => m,
        other => panic!("unexpected error {:?}", other),
    }
}

fn balancer_with(list: Vec<Server>) -> Balancer {
    new(Some(list), 3000, 8000).unwrap()
}

#[test]
fn deserialize_servers() {
    let text = "
- name: server1
  url: http://127.0.0.1:3001
  disabled: false
  weight: 1
  health_check_period: 5

- name: server2
  url: http://127.0.0.1:3002
  disabled: TRUE
  weight: 2
  health_check_period: 7
        ";
    let got: HashMap<String, Server> = Balancer::get_servers(servers_from_yaml(text))
        .unwrap()
        .into_iter()
        .map(|s| (s.url.clone(), s))
        .collect();
    let want = HashMap::from([
        (
            "http://127.0.0.1:3001".to_string(),
            Server {
                url: "http://127.0.0.1:3001".to_string(),
                connections: 0,
                disabled: false,
                name: "server1".to_string(),
                weight: 1,
                health_check_period: 5,
                healthy: false,
            },
        ),
        (
            "http://127.0.0.1:3002".to_string(),
            Server {
                url: "http://127.0.0.1:3002".to_string(),
                connections: 0,
                disabled: true,
                name: "server2".to_string(),
                weight: 2,
                health_check_period: 7,
                healthy: false,
            },
        ),
    ]);

    assert_eq!(got, want)
}

#[test]
fn get_servers_rejects_relative_url() {
    let list = vec![server("http://127.0.0.1:3001", "a", 1, 5), server("not a url", "b", 1, 5)];
    match Balancer::get_servers(list) {
        Err(BalancerError::ParseError(e)) => assert_eq!(e, url::ParseError::RelativeUrlWithoutBase),
        other => panic!("unexpected {:?}", other),
    }
}

#[test]
fn get_servers_reports_first_bad_url() {
    let list = vec![
        server("http://127.0.0.1:3001", "a", 1, 5),
        server("http://127.0.0.1:99999", "b", 1, 5),
        server("relative", "c", 1, 5),
    ];
    match Balancer::get_servers(list) {
        Err(BalancerError::ParseError(e)) => assert_eq!(e, url::ParseError::InvalidPort),
        other => panic!("unexpected {:?}", other),
    }
}

#[test]
fn get_servers_later_entry_replaces_earlier() {
    let list = vec![
        server("http://a:1", "first", 1, 5),
        server("http://b:1", "other", 1, 5),
        server("http://a:1", "second", 3, 9),
    ];
    let table = Balancer::get_servers(list).unwrap();
    assert_eq!(table.len(), 2);
    assert_eq!(table[0].name, "second");
    assert_eq!(table[0].weight, 3);
    assert_eq!(table[1].name, "other");
}

#[test]
fn collect_servers_uses_given_checks() {
    let list = vec![server("x", "a", 1, 5), server("y", "b", 1, 5), server("z", "c", 1, 5)];
    let checks = vec![Ok(()), Err(url::ParseError::EmptyHost), Err(url::ParseError::Overflow)];
    match Balancer::collect_servers(list, checks) {
        Err(BalancerError::ParseError(e)) => assert_eq!(e, url::ParseError::EmptyHost),
        other => panic!("unexpected {:?}", other),
    }
    let list = vec![server("x", "a", 1, 5), server("y", "b", 1, 5)];
    let table = Balancer::collect_servers(list, vec![Ok(()), Ok(())]).unwrap();
    assert_eq!(table.len(), 2);
}

#[test]
fn new_without_config_is_empty() {
    let b = new(None, 3000, 8000).unwrap();
    assert_eq!(b.len(), 0);
    assert_eq!(b.port(), 3000);
    assert_eq!(b.api_port(), 8000);
    assert!(matches!(b.choose_next_server(), Err(BalancerError::MyError(m)) if m == "balancer has 0 working servers"));
}

#[test]
fn new_with_bad_config_fails() {
    assert!(matches!(new(Some(vec![server("::", "a", 1, 1)]), 1, 2), Err(BalancerError::ParseError(_))));
}

#[test]
fn add_server_refuses_duplicate_url() {
    let mut b = new(None, 1, 2).unwrap();
    b.add_server(server("http://a:1", "a", 1, 5)).unwrap();
    let e = b.add_server(server("http://a:1", "again", 2, 5)).unwrap_err();
    assert_eq!(message(e), "a server with url http://a:1 already exists");
    assert_eq!(b.len(), 1);
    assert_eq!(b.get_server(&"http://a:1".to_string()).unwrap().name, "a");
}

#[test]
fn delete_server_refusals() {
    let mut b = balancer_with(vec![server("http://a:1", "a", 1, 5)]);
    let e = b.delete_server("http://b:1".to_string()).unwrap_err();
    assert_eq!(message(e), "server with url http://b:1 not found");
    let e = b.delete_server("http://a:1".to_string()).unwrap_err();
    assert_eq!(message(e), "balancer cannot delete the only active server");
    assert_eq!(b.len(), 1);
}

#[test]
fn add_then_delete_restores_table() {
    let mut b = balancer_with(vec![server("http://a:1", "a", 1, 5)]);
    b.add_server(server("http://b:1", "b", 1, 5)).unwrap();
    assert_eq!(b.len(), 2);
    b.delete_server("http://b:1".to_string()).unwrap();
    assert_eq!(b.len(), 1);
    assert!(b.get_server(&"http://b:1".to_string()).is_none());
    assert_eq!(b.get_server(&"http://a:1".to_string()).unwrap(), &server("http://a:1", "a", 1, 5));
}

#[test]
fn modify_server_keeps_live_state() {
    let mut b = balancer_with(vec![server("http://a:1", "a", 1, 5), server("http://b:1", "b", 1, 5)]);
    b.increment_server_connections("http://a:1".to_string()).unwrap();
    b.apply_health_report(HealthReport::Healthy("http://a:1".to_string())).unwrap();
    let mut update = server("http://a:1", "renamed", 7, 30);
    update.connections = 99;
    b.modify_server(update).unwrap();
    let s = b.get_server(&"http://a:1".to_string()).unwrap();
    assert_eq!(s.name, "renamed");
    assert_eq!(s.weight, 7);
    assert_eq!(s.health_check_period, 30);
    assert_eq!(s.connections, 1);
    assert!(s.healthy);
}

#[test]
fn modify_server_refusals() {
    let mut b = balancer_with(vec![server("http://a:1", "a", 1, 5), server("http://b:1", "b", 1, 5)]);
    let e = b.modify_server(server("http://c:1", "c", 1, 5)).unwrap_err();
    assert_eq!(message(e), "server with url http://c:1 not found");
    let mut off = server("http://a:1", "a", 1, 5);
    off.disabled = true;
    b.modify_server(off).unwrap();
    let mut off = server("http://b:1", "b", 1, 5);
    off.disabled = true;
    let e = b.modify_server(off).unwrap_err();
    assert_eq!(message(e), "balancer cannot disable all servers");
    assert!(!b.get_server(&"http://b:1".to_string()).unwrap().disabled);
}

#[test]
fn choose_prefers_least_connections() {
    let mut b = balancer_with(vec![server("http://a:1", "a", 1, 5), server("http://b:1", "b", 1, 5)]);
    assert_eq!(b.choose_next_server().unwrap(), "http://a:1");
    b.increment_server_connections("http://a:1".to_string()).unwrap();
    assert_eq!(b.choose_next_server().unwrap(), "http://b:1");
    b.increment_server_connections("http://b:1".to_string()).unwrap();
    assert_eq!(b.choose_next_server().unwrap(), "http://a:1");
}

#[test]
fn choose_prefers_weight_on_tie() {
    let b = balancer_with(vec![server("http://a:1", "a", 1, 5), server("http://b:1", "b", 3, 5)]);
    assert_eq!(b.choose_next_server().unwrap(), "http://b:1");
}

#[test]
fn choose_prefers_healthy_servers() {
    let mut b = balancer_with(vec![server("http://a:1", "a", 1, 5), server("http://b:1", "b", 1, 5)]);
    b.increment_server_connections("http://b:1".to_string()).unwrap();
    b.increment_server_connections("http://b:1".to_string()).unwrap();
    b.apply_health_report(HealthReport::Healthy("http://b:1".to_string())).unwrap();
    assert_eq!(b.choose_next_server().unwrap(), "http://b:1");
    b.apply_health_report(HealthReport::Unhealthy("http://b:1".to_string())).unwrap();
    assert_eq!(b.choose_next_server().unwrap(), "http://a:1");
}

#[test]
fn choose_skips_disabled_servers() {
    let mut off = server("http://a:1", "a", 9, 5);
    off.disabled = true;
    let b = balancer_with(vec![off, server("http://b:1", "b", 1, 5)]);
    assert_eq!(b.choose_next_server().unwrap(), "http://b:1");
    let mut off = server("http://a:1", "a", 9, 5);
    off.disabled = true;
    let b = balancer_with(vec![off]);
    assert_eq!(message(b.choose_next_server().unwrap_err()), "balancer has 0 working servers");
}

#[test]
fn connections_count_up_and_down() {
    let mut b = balancer_with(vec![server("http://a:1", "a", 1, 5)]);
    b.increment_server_connections("http://a:1".to_string()).unwrap();
    b.increment_server_connections("http://a:1".to_string()).unwrap();
    assert_eq!(b.get_server(&"http://a:1".to_string()).unwrap().connections, 2);
    b.decrement_server_connections("http://a:1".to_string()).unwrap();
    b.decrement_server_connections("http://a:1".to_string()).unwrap();
    assert_eq!(b.get_server(&"http://a:1".to_string()).unwrap(), &server("http://a:1", "a", 1, 5));
    let e = b.increment_server_connections("http://z:1".to_string()).unwrap_err();
    assert_eq!(message(e), "server with url http://z:1 not found");
    let e = b.decrement_server_connections("http://z:1".to_string()).unwrap_err();
    assert_eq!(message(e), "failed to find server with url http://z:1");
}

#[test]
fn handle_request_dispatches() {
    let mut b = balancer_with(vec![server("http://a:1", "a", 1, 5)]);
    b.handle_request(BalancerRequest::AddServer(server("http://b:1", "b", 1, 5))).unwrap();
    assert_eq!(b.len(), 2);
    b.handle_request(BalancerRequest::UpdateServer(server("http://b:1", "bb", 2, 5))).unwrap();
    assert_eq!(b.get_server(&"http://b:1".to_string()).unwrap().name, "bb");
    b.increment_server_connections("http://b:1".to_string()).unwrap();
    b.handle_request(BalancerRequest::DecrementServerConnections("http://b:1".to_string())).unwrap();
    assert_eq!(b.get_server(&"http://b:1".to_string()).unwrap().connections, 0);
    b.handle_request(BalancerRequest::DeleteServer("http://a:1".to_string())).unwrap();
    assert_eq!(b.len(), 1);
    assert!(b.handle_request(BalancerRequest::DeleteServer("http://b:1".to_string())).is_err());
}

#[test]
fn health_report_for_unknown_server_is_refused() {
    let mut b = balancer_with(vec![server("http://a:1", "a", 1, 5)]);
    let e = b.apply_health_report(HealthReport::Healthy("http://q:1".to_string())).unwrap_err();
    assert_eq!(message(e), "server with url http://q:1 not found");
}

#[test]
fn health_check_targets_list_every_server() {
    let b = balancer_with(vec![server("http://a:1", "a", 1, 5), server("http://b:1", "b", 1, 7)]);
    assert_eq!(
        b.health_check_targets(),
        vec![("http://a:1".to_string(), 5), ("http://b:1".to_string(), 7)]
    );
}
