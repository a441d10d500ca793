//! A backend server and the order in which the balancer prefers servers.
use std::cmp::Ordering;
use vstd::prelude::*;

verus! {

/// A backend server as the balancer knows it.
#[derive(Debug, PartialEq, Eq)]
pub struct Server {
    pub url: String,
    pub name: String,
    pub weight: u32,
    /// In seconds.
    pub health_check_period: u64,
    pub connections: u32,
    pub healthy: bool,
    pub disabled: bool,
}

/// The mathematical value of a [`Server`].
pub struct ServerView {
    pub url: Seq<char>,
    pub name: Seq<char>,
    pub weight: u32,
    pub health_check_period: u64,
    pub connections: u32,
    pub healthy: bool,
    pub disabled: bool,
}

impl View for Server {
    type V = ServerView;

    open spec fn view(&self) -> ServerView {
        ServerView {
            url: self.url@,
            name: self.name@,
            weight: self.weight,
            health_check_period: self.health_check_period,
            connections: self.connections,
            healthy: self.healthy,
            disabled: self.disabled,
        }
    }
}

/// `a` is strictly preferred to `b`: healthy before unhealthy, then fewer open
/// connections, then a higher weight.
pub open spec fn preferred(a: ServerView, b: ServerView) -> bool {
    ||| (a.healthy && !b.healthy)
    ||| (a.healthy == b.healthy && a.connections < b.connections)
    ||| (a.healthy == b.healthy && a.connections == b.connections && a.weight > b.weight)
}

/// Neither of `a` and `b` is preferred to the other.
pub open spec fn same_rank(a: ServerView, b: ServerView) -> bool {
    a.healthy == b.healthy && a.connections == b.connections && a.weight == b.weight
}

/// The three-way comparison of two servers: `Less` means that `a` comes first.
pub open spec fn server_order(a: ServerView, b: ServerView) -> Ordering {
    if preferred(a, b) {
        Ordering::Less
    } else if same_rank(a, b) {
        Ordering::Equal
    } else {
        Ordering::Greater
    }
}

impl Server {
    /// A server as it is registered: no open connection, not yet found healthy,
    /// not disabled.
    pub fn new(url: String, name: String, weight: u32, health_check_period: u64) -> (s: Server)
        ensures
            s@ == (ServerView {
                url: url@,
                name: name@,
                weight,
                health_check_period,
                connections: 0,
                healthy: false,
                disabled: false,
            }),
    {
        Server { url, name, weight, health_check_period, connections: 0, healthy: false, disabled: false }
    }

    /// Compares two servers: the one that should take the next request is `Less`.
    pub fn cmp(&self, other: &Server) -> (r: Ordering)
        ensures
            r == server_order(self@, other@),
    {
        if self.healthy != other.healthy {
            if self.healthy {
                Ordering::Less
            } else {
                Ordering::Greater
            }
        } else if self.connections < other.connections {
            Ordering::Less
        } else if self.connections > other.connections {
            Ordering::Greater
        } else if self.weight > other.weight {
            Ordering::Less
        } else if self.weight < other.weight {
            Ordering::Greater
        } else {
            Ordering::Equal
        }
    }

    /// The same comparison, always defined.
    pub fn partial_cmp(&self, other: &Server) -> (r: Option<Ordering>)
        ensures
            r == Some(server_order(self@, other@)),
    {
        Some(self.cmp(other))
    }
}

/// Every server ranks equal to itself.
pub proof fn lemma_order_reflexive(a: ServerView)
    ensures
        server_order(a, a) == Ordering::Equal,
{
}

/// Swapping the two servers reverses the comparison.
pub proof fn lemma_order_antisymmetric(a: ServerView, b: ServerView)
    ensures
        server_order(a, b) == Ordering::Less <==> server_order(b, a) == Ordering::Greater,
        server_order(a, b) == Ordering::Equal <==> server_order(b, a) == Ordering::Equal,
{
}

/// The comparison is transitive, both for `Less` and for "not `Greater`".
pub proof fn lemma_order_transitive(a: ServerView, b: ServerView, c: ServerView)
    ensures
        server_order(a, b) == Ordering::Less && server_order(b, c) == Ordering::Less
            ==> server_order(a, c) == Ordering::Less,
        server_order(a, b) != Ordering::Greater && server_order(b, c) != Ordering::Greater
            ==> server_order(a, c) != Ordering::Greater,
        server_order(a, b) == Ordering::Equal && server_order(b, c) == Ordering::Equal
            ==> server_order(a, c) == Ordering::Equal,
{
}

/// Among servers of equal health, the one with strictly fewer open connections
/// comes first, whatever the weights.
pub proof fn lemma_fewer_connections_first(a: ServerView, b: ServerView)
    requires
        a.healthy == b.healthy,
        a.connections < b.connections,
    ensures
        preferred(a, b),
        server_order(a, b) == Ordering::Less,
        server_order(b, a) == Ordering::Greater,
{
}

/// A healthy server comes before an unhealthy one, whatever their connections
/// and weights.
pub proof fn lemma_healthy_first(a: ServerView, b: ServerView)
    requires
        a.healthy,
        !b.healthy,
    ensures
        preferred(a, b),
        server_order(a, b) == Ordering::Less,
{
}

/// Of two servers of equal health and equal open connections, the heavier one
/// comes first.
pub proof fn lemma_heavier_first_on_tie(a: ServerView, b: ServerView)
    requires
        a.healthy == b.healthy,
        a.connections == b.connections,
        a.weight > b.weight,
    ensures
        preferred(a, b),
        server_order(a, b) == Ordering::Less,
{
}

/// What it means, field by field, that `b` is not preferred to `a`: `a` is
/// healthy where `b` is, has no more open connections than `b` where their
/// health is equal, and no less weight where health and connections are equal.
pub proof fn lemma_not_preferred_fields(a: ServerView, b: ServerView)
    requires
        !preferred(b, a),
    ensures
        b.healthy ==> a.healthy,
        b.healthy == a.healthy ==> a.connections <= b.connections,
        b.healthy == a.healthy && b.connections == a.connections ==> a.weight >= b.weight,
{
}

/// A server strictly preferred to `b` is strictly preferred to every server
/// that `b` is not worse than.
pub proof fn lemma_preferred_chain(a: ServerView, b: ServerView, c: ServerView)
    requires
        preferred(a, b),
        !preferred(c, b),
    ensures
        preferred(a, c),
{
}

/// No server is preferred to a server that is preferred to it, nor to itself.
pub proof fn lemma_preferred_asymmetric(a: ServerView, b: ServerView)
    ensures
        preferred(a, b) ==> !preferred(b, a),
        !preferred(a, a),
{
}

} // verus!
