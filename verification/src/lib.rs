//! A least-connections load balancer: the server table, the choice of the next
//! server, the health-check bookkeeping and the decisions of the HTTP API.
pub mod balancer;
pub mod server;
pub mod url_check;
pub mod health;
pub mod api;
