//! The balancer's server table and the operations on it.
use crate::health::HealthReport;
use crate::server::{preferred, Server, ServerView};
use crate::url_check::{check_url, url_parse_outcome};
use std::cmp::Ordering;
use vstd::prelude::*;
use vstd::string::*;

verus! {

#[verifier::external_type_specification]
#[verifier::external_body]
pub struct ExIoError(std::io::Error);

#[verifier::external_type_specification]
#[verifier::external_body]
pub struct ExYamlError(serde_yaml::Error);

/// Why an operation of the balancer failed.
#[derive(Debug)]
pub enum BalancerError {
    IO(std::io::Error),
    MyError(String),
    ConfigError(serde_yaml::Error),
    ParseError(url::ParseError),
}

/// A change that the balancer's loop is asked to make to its table.
#[derive(Debug)]
pub enum BalancerRequest {
    DecrementServerConnections(String),
    AddServer(Server),
    DeleteServer(String),
    UpdateServer(Server),
}

/// The answer to a request that came in through the API: `Error` carries the
/// HTTP status code and the message.
#[derive(Debug)]
pub enum BalancerResponse {
    Success,
    Error(u16, String),
}

/// The load balancer: its servers, each under a distinct url, in the order in
/// which they were registered, and the two ports it listens on.
pub struct Balancer {
    servers: Vec<Server>,
    port: u16,
    api_port: u16,
}

/// The mathematical value of a [`Balancer`].
pub struct BalancerView {
    pub servers: Seq<ServerView>,
    pub port: u16,
    pub api_port: u16,
}

pub open spec fn views(v: Seq<Server>) -> Seq<ServerView> {
    v.map_values(|s: Server| s@)
}

impl View for Balancer {
    type V = BalancerView;

    closed spec fn view(&self) -> BalancerView {
        BalancerView { servers: views(self.servers@), port: self.port, api_port: self.api_port }
    }
}

// ---------------------------------------------------------------------------
// The table as a sequence of server values

pub open spec fn has_url(s: Seq<ServerView>, url: Seq<char>) -> bool {
    exists|i: int| 0 <= i < s.len() && #[trigger] s[i].url == url
}

/// The position of the server registered under `url` (meaningful where there is one).
pub open spec fn url_index(s: Seq<ServerView>, url: Seq<char>) -> int {
    choose|i: int| 0 <= i < s.len() && #[trigger] s[i].url == url
}

pub open spec fn distinct_urls(s: Seq<ServerView>) -> bool {
    forall|i: int, j: int|
        0 <= i < s.len() && 0 <= j < s.len() && i != j ==> #[trigger] s[i].url != #[trigger] s[j].url
}

pub open spec fn all_disabled(s: Seq<ServerView>) -> bool {
    forall|i: int| 0 <= i < s.len() ==> #[trigger] s[i].disabled
}

pub open spec fn not_found(url: Seq<char>) -> Seq<char> {
    "server with url "@ + url + " not found"@
}

/// The table after `srv` has been registered, or the message of the refusal.
pub open spec fn add_outcome(s: Seq<ServerView>, srv: ServerView) -> Result<Seq<ServerView>, Seq<char>> {
    if has_url(s, srv.url) {
        Err("a server with url "@ + srv.url + " already exists"@)
    } else {
        Ok(s.push(srv))
    }
}

/// The table after the server under `url` has been removed, or the refusal.
pub open spec fn delete_outcome(s: Seq<ServerView>, url: Seq<char>) -> Result<Seq<ServerView>, Seq<char>> {
    if !has_url(s, url) {
        Err(not_found(url))
    } else if s.len() == 1 {
        Err("balancer cannot delete the only active server"@)
    } else {
        Ok(s.remove(url_index(s, url)))
    }
}

/// A registered server with the configuration of `new`; its open connections and
/// its health stay.
pub open spec fn reconfigured(old: ServerView, new: ServerView) -> ServerView {
    ServerView {
        url: old.url,
        name: new.name,
        weight: new.weight,
        health_check_period: new.health_check_period,
        connections: old.connections,
        healthy: old.healthy,
        disabled: new.disabled,
    }
}

/// The table after the server under `srv.url` has taken the configuration of
/// `srv`, or the refusal: the url is unknown, or no server would stay enabled.
pub open spec fn modify_outcome(s: Seq<ServerView>, srv: ServerView) -> Result<Seq<ServerView>, Seq<char>> {
    if !has_url(s, srv.url) {
        Err(not_found(srv.url))
    } else {
        let i = url_index(s, srv.url);
        let t = s.update(i, reconfigured(s[i], srv));
        if all_disabled(t) {
            Err("balancer cannot disable all servers"@)
        } else {
            Ok(t)
        }
    }
}

pub open spec fn with_connections(srv: ServerView, n: int) -> ServerView {
    ServerView { connections: n as u32, ..srv }
}

pub open spec fn increment_outcome(s: Seq<ServerView>, url: Seq<char>) -> Result<Seq<ServerView>, Seq<char>> {
    if !has_url(s, url) {
        Err(not_found(url))
    } else {
        let i = url_index(s, url);
        Ok(s.update(i, with_connections(s[i], s[i].connections + 1)))
    }
}

pub open spec fn decrement_outcome(s: Seq<ServerView>, url: Seq<char>) -> Result<Seq<ServerView>, Seq<char>> {
    if !has_url(s, url) {
        Err("failed to find server with url "@ + url)
    } else {
        let i = url_index(s, url);
        Ok(s.update(i, with_connections(s[i], s[i].connections - 1)))
    }
}

/// The table after a probe of the server under `url` found it healthy or not.
pub open spec fn health_outcome(s: Seq<ServerView>, url: Seq<char>, healthy: bool) -> Result<Seq<ServerView>, Seq<char>> {
    if !has_url(s, url) {
        Err(not_found(url))
    } else {
        let i = url_index(s, url);
        Ok(s.update(i, ServerView { healthy, ..s[i] }))
    }
}

/// The outcome of the change that `req` asks for.
pub open spec fn request_outcome(s: Seq<ServerView>, req: BalancerRequest) -> Result<Seq<ServerView>, Seq<char>> {
    match req {
        BalancerRequest::DecrementServerConnections(url) => decrement_outcome(s, url@),
        BalancerRequest::AddServer(srv) => add_outcome(s, srv@),
        BalancerRequest::DeleteServer(url) => delete_outcome(s, url@),
        BalancerRequest::UpdateServer(srv) => modify_outcome(s, srv@),
    }
}

/// An operation that was asked to produce `expected` has left the balancer in
/// `new` and answered `r`: on success the table is the expected one and the ports
/// are kept; on a refusal nothing changed and the error carries the message.
pub open spec fn applied(
    old: BalancerView,
    new: BalancerView,
    r: Result<(), BalancerError>,
    expected: Result<Seq<ServerView>, Seq<char>>,
) -> bool {
    match expected {
        Ok(t) => r is Ok && new == (BalancerView { servers: t, ..old }),
        Err(m) => (r matches Err(BalancerError::MyError(e)) && e@ == m) && new == old,
    }
}

/// The server that `min_by` with [`Server::cmp`] settles on when it walks the
/// enabled servers in table order: a later server replaces the one held so far
/// only where it is strictly preferred, so among equals the first one stays.
pub open spec fn pick(s: Seq<ServerView>) -> Option<int>
    decreases s.len(),
{
    if s.len() == 0 {
        None
    } else {
        let rest = pick(s.drop_last());
        let i = s.len() - 1;
        if s[i].disabled {
            rest
        } else {
            match rest {
                None => Some(i),
                Some(b) => if preferred(s[i], s[b]) {
                    Some(i)
                } else {
                    Some(b)
                },
            }
        }
    }
}

/// The table with `srv` under its url: it replaces a server registered there,
/// or comes last.
pub open spec fn upsert(t: Seq<ServerView>, srv: ServerView) -> Seq<ServerView> {
    if has_url(t, srv.url) {
        t.update(url_index(t, srv.url), srv)
    } else {
        t.push(srv)
    }
}

/// The table made from a configured list: each server under its url, a later
/// entry for a url replacing an earlier one.
pub open spec fn table_of(list: Seq<ServerView>) -> Seq<ServerView>
    decreases list.len(),
{
    if list.len() == 0 {
        Seq::empty()
    } else {
        upsert(table_of(list.drop_last()), list.last())
    }
}

/// The first failed url check at or after position `from`.
pub open spec fn first_failure(checks: Seq<Result<(), url::ParseError>>, from: int) -> Option<url::ParseError>
    decreases checks.len() - from,
{
    if from < 0 || from >= checks.len() {
        None
    } else {
        match checks[from] {
            Err(e) => Some(e),
            Ok(_) => first_failure(checks, from + 1),
        }
    }
}

/// The outcome of reading a configured list whose urls were checked with
/// `checks`: the first failed check, or the table.
pub open spec fn config_outcome(list: Seq<ServerView>, checks: Seq<Result<(), url::ParseError>>) -> Result<Seq<ServerView>, url::ParseError> {
    match first_failure(checks, 0) {
        Some(e) => Err(e),
        None => Ok(table_of(list)),
    }
}

/// What the url parser answers for each configured server.
pub open spec fn url_checks(list: Seq<ServerView>) -> Seq<Result<(), url::ParseError>> {
    Seq::new(list.len(), |k: int| url_parse_outcome(list[k].url))
}

// ---------------------------------------------------------------------------
// Lemmas on the sequence model

pub proof fn lemma_url_index(s: Seq<ServerView>, i: int)
    requires
        distinct_urls(s),
        0 <= i < s.len(),
    ensures
        has_url(s, s[i].url),
        url_index(s, s[i].url) == i,
{
    assert(s[i].url == s[i].url);
    let k = url_index(s, s[i].url);
    assert(0 <= k < s.len() && s[k].url == s[i].url);
}

/// Registering a server and then deleting its url gives back the table it was
/// registered in (which must hold another server, as the last one is never
/// deleted).
pub proof fn lemma_add_then_delete(s: Seq<ServerView>, srv: ServerView)
    requires
        distinct_urls(s),
        s.len() > 0,
        add_outcome(s, srv) is Ok,
    ensures
        add_outcome(s, srv) == Ok::<Seq<ServerView>, Seq<char>>(s.push(srv)),
        delete_outcome(s.push(srv), srv.url) == Ok::<Seq<ServerView>, Seq<char>>(s),
{
    let t = s.push(srv);
    assert(distinct_urls(t)) by {
        assert forall|i: int, j: int| 0 <= i < t.len() && 0 <= j < t.len() && i != j implies #[trigger] t[i].url != #[trigger] t[j].url by {
            if i == s.len() {
                assert(s[j].url == t[j].url);
            } else if j == s.len() {
                assert(s[i].url == t[i].url);
            }
        }
    }
    lemma_url_index(t, s.len() as int);
    assert(t.remove(s.len() as int) =~= s);
}

/// A registered server is found under its url afterwards, as it was given.
pub proof fn lemma_added_server_is_found(s: Seq<ServerView>, srv: ServerView)
    requires
        distinct_urls(s),
        add_outcome(s, srv) is Ok,
    ensures
        add_outcome(s, srv) matches Ok(t) && has_url(t, srv.url) && t[url_index(t, srv.url)] == srv
            && distinct_urls(t),
{
    lemma_upsert_distinct(s, srv);
    assert(upsert(s, srv) == s.push(srv));
}

/// Registering a server under a url that is free always succeeds, whatever the
/// size of the table, and appends the server.
pub proof fn lemma_add_free_url_succeeds(s: Seq<ServerView>, srv: ServerView)
    requires
        forall|i: int| 0 <= i < s.len() ==> (#[trigger] s[i]).url != srv.url,
    ensures
        add_outcome(s, srv) == Ok::<Seq<ServerView>, Seq<char>>(s.push(srv)),
{
}

/// A health report sets the reported server's health to the report's verdict,
/// whatever it was, and touches nothing else; so a report applied twice leaves
/// the table as applying it once does.
pub proof fn lemma_health_report_sets_verdict(s: Seq<ServerView>, url: Seq<char>, healthy: bool)
    requires
        distinct_urls(s),
        has_url(s, url),
    ensures
        health_outcome(s, url, healthy) matches Ok(t) && {
            &&& t.len() == s.len()
            &&& t[url_index(s, url)].healthy == healthy
            &&& t[url_index(s, url)].url == url
            &&& t[url_index(s, url)].connections == s[url_index(s, url)].connections
            &&& forall|k: int| 0 <= k < s.len() && k != url_index(s, url) ==> #[trigger] t[k] == s[k]
            &&& health_outcome(t, url, healthy) == Ok::<Seq<ServerView>, Seq<char>>(t)
        },
{
    let i = url_index(s, url);
    let t = s.update(i, ServerView { healthy, ..s[i] });
    assert(distinct_urls(t)) by {
        assert forall|a: int, b: int| 0 <= a < t.len() && 0 <= b < t.len() && a != b implies #[trigger] t[a].url != #[trigger] t[b].url by {
            assert(t[a].url == s[a].url && t[b].url == s[b].url);
        }
    }
    lemma_url_index(t, i);
    assert(t.update(i, ServerView { healthy, ..t[i] }) =~= t);
}

/// A url cannot be registered twice.
pub proof fn lemma_add_twice_refused(s: Seq<ServerView>, first: ServerView, second: ServerView)
    requires
        add_outcome(s, first) is Ok,
        first.url == second.url,
    ensures
        add_outcome(s.push(first), second) is Err,
{
    assert(s.push(first)[s.len() as int].url == second.url);
}

/// A deletion never leaves the balancer without servers, and the url is gone
/// afterwards.
pub proof fn lemma_delete_keeps_a_server(s: Seq<ServerView>, url: Seq<char>)
    requires
        distinct_urls(s),
        delete_outcome(s, url) is Ok,
    ensures
        delete_outcome(s, url) matches Ok(t) && t.len() == s.len() - 1 && t.len() >= 1 && !has_url(t, url),
{
    let k = url_index(s, url);
    let t = s.remove(k);
    if has_url(t, url) {
        let j = choose|j: int| 0 <= j < t.len() && #[trigger] t[j].url == url;
        if j < k {
            assert(s[j].url == url);
        } else {
            assert(s[j + 1].url == url);
        }
    }
}

/// A change of configuration never leaves every server disabled, keeps every
/// url where it was, and keeps the open connections and the health of every
/// server.
pub proof fn lemma_modify_keeps_an_enabled_server(s: Seq<ServerView>, srv: ServerView)
    requires
        modify_outcome(s, srv) is Ok,
    ensures
        modify_outcome(s, srv) matches Ok(t) && {
            &&& !all_disabled(t)
            &&& t.len() == s.len()
            &&& forall|i: int| 0 <= i < s.len() ==> {
                &&& (#[trigger] t[i]).url == s[i].url
                &&& t[i].connections == s[i].connections
                &&& t[i].healthy == s[i].healthy
            }
        },
{
}

/// Opening and then closing a connection on a server gives back the table.
pub proof fn lemma_increment_then_decrement(s: Seq<ServerView>, url: Seq<char>)
    requires
        distinct_urls(s),
        has_url(s, url),
        s[url_index(s, url)].connections < u32::MAX,
    ensures
        increment_outcome(s, url) matches Ok(t) && decrement_outcome(t, url) == Ok::<Seq<ServerView>, Seq<char>>(s),
{
    let i = url_index(s, url);
    let t = s.update(i, with_connections(s[i], s[i].connections + 1));
    assert(t[i].url == url);
    assert(distinct_urls(t)) by {
        assert forall|a: int, b: int| 0 <= a < t.len() && 0 <= b < t.len() && a != b implies #[trigger] t[a].url != #[trigger] t[b].url by {
            assert(t[a].url == s[a].url && t[b].url == s[b].url);
        }
    }
    lemma_url_index(t, i);
    assert(t.update(i, with_connections(t[i], t[i].connections - 1)) =~= s);
}

proof fn lemma_views_push(v: Seq<Server>, x: Server)
    ensures
        views(v.push(x)) == views(v).push(x@),
{
    assert(views(v.push(x)) =~= views(v).push(x@));
}

proof fn lemma_views_remove(v: Seq<Server>, i: int)
    requires
        0 <= i < v.len(),
    ensures
        views(v.remove(i)) == views(v).remove(i),
{
    assert(views(v.remove(i)) =~= views(v).remove(i));
}

/// Registering a server under a url keeps the urls distinct.
pub proof fn lemma_upsert_distinct(t: Seq<ServerView>, srv: ServerView)
    requires
        distinct_urls(t),
    ensures
        distinct_urls(upsert(t, srv)),
        has_url(upsert(t, srv), srv.url),
        upsert(t, srv)[url_index(upsert(t, srv), srv.url)] == srv,
        forall|u: Seq<char>| has_url(t, u) ==> has_url(upsert(t, srv), u),
{
    let n = upsert(t, srv);
    if has_url(t, srv.url) {
        let k = url_index(t, srv.url);
        assert(n[k].url == srv.url);
        assert forall|u: Seq<char>| has_url(t, u) implies has_url(n, u) by {
            let j = choose|j: int| 0 <= j < t.len() && #[trigger] t[j].url == u;
            assert(n[j].url == u);
        }
    } else {
        assert(n[t.len() as int].url == srv.url);
        assert forall|u: Seq<char>| has_url(t, u) implies has_url(n, u) by {
            let j = choose|j: int| 0 <= j < t.len() && #[trigger] t[j].url == u;
            assert(n[j].url == u);
        }
    }
    assert forall|i: int, j: int| 0 <= i < n.len() && 0 <= j < n.len() && i != j implies #[trigger] n[i].url != #[trigger] n[j].url by {
        if has_url(t, srv.url) {
            let k = url_index(t, srv.url);
            if i != k && j != k {
                assert(n[i] == t[i] && n[j] == t[j]);
            } else if i == k {
                assert(n[j] == t[j]);
                assert(t[k].url == srv.url);
            } else {
                assert(n[i] == t[i]);
                assert(t[k].url == srv.url);
            }
        } else {
            if i < t.len() && j < t.len() {
                assert(n[i] == t[i] && n[j] == t[j]);
            } else if i < t.len() {
                assert(n[i] == t[i]);
            } else {
                assert(n[j] == t[j]);
            }
        }
    }
    if has_url(t, srv.url) {
        lemma_url_index(n, url_index(t, srv.url));
    } else {
        lemma_url_index(n, t.len() as int);
    }
}

/// The table made from a configured list has no url twice, and holds the url of
/// every entry of the list.
pub proof fn lemma_table_of(list: Seq<ServerView>)
    ensures
        distinct_urls(table_of(list)),
        forall|k: int| 0 <= k < list.len() ==> has_url(table_of(list), #[trigger] list[k].url),
        list.len() > 0 ==> table_of(list)[url_index(table_of(list), list.last().url)] == list.last(),
    decreases list.len(),
{
    if list.len() > 0 {
        let rest = list.drop_last();
        lemma_table_of(rest);
        lemma_upsert_distinct(table_of(rest), list.last());
        assert forall|k: int| 0 <= k < list.len() implies has_url(table_of(list), #[trigger] list[k].url) by {
            if k < list.len() - 1 {
                assert(rest[k] == list[k]);
            }
        }
    }
}

/// `pick` settles on the first enabled server that no enabled server is
/// preferred to, and on none exactly where every server is disabled.
pub proof fn lemma_pick(s: Seq<ServerView>)
    ensures
        pick(s) is None <==> all_disabled(s),
        pick(s) matches Some(i) ==> {
            &&& 0 <= i < s.len()
            &&& !s[i].disabled
            &&& forall|j: int| 0 <= j < s.len() && !s[j].disabled ==> !preferred(#[trigger] s[j], s[i])
            &&& forall|j: int| 0 <= j < i && !s[j].disabled ==> preferred(s[i], #[trigger] s[j])
        },
    decreases s.len(),
{
    if s.len() > 0 {
        let rest = s.drop_last();
        lemma_pick(rest);
        let i = s.len() - 1;
        assert(forall|j: int| 0 <= j < rest.len() ==> #[trigger] rest[j] == s[j]);
        if all_disabled(rest) && s[i].disabled {
            assert forall|k: int| 0 <= k < s.len() implies #[trigger] s[k].disabled by {
                if k < i {
                    assert(rest[k].disabled);
                }
            }
        }
        if !all_disabled(rest) {
            let w = choose|w: int| 0 <= w < rest.len() && !(#[trigger] rest[w]).disabled;
            assert(!s[w].disabled);
        }
        if s[i].disabled {
            if let Some(b) = pick(rest) {
                assert forall|j: int| 0 <= j < s.len() && !s[j].disabled implies !preferred(#[trigger] s[j], s[b]) by {
                    assert(!rest[j].disabled);
                    assert(!preferred(rest[j], rest[b]));
                }
                assert forall|j: int| 0 <= j < b && !s[j].disabled implies preferred(s[b], #[trigger] s[j]) by {
                    assert(!rest[j].disabled);
                    assert(preferred(rest[b], rest[j]));
                }
            }
        } else {
            assert(!all_disabled(s));
            match pick(rest) {
                None => {
                    assert forall|j: int| 0 <= j < s.len() && !s[j].disabled implies !preferred(#[trigger] s[j], s[i]) by {
                        if j < i {
                            assert(rest[j].disabled);
                        }
                    }
                    assert forall|j: int| 0 <= j < i && !s[j].disabled implies preferred(s[i], #[trigger] s[j]) by {
                        assert(rest[j].disabled);
                    }
                },
                Some(b) => {
                    if preferred(s[i], s[b]) {
                        assert forall|j: int| 0 <= j < i && !s[j].disabled implies preferred(s[i], #[trigger] s[j]) by {
                            assert(!rest[j].disabled);
                            assert(!preferred(rest[j], rest[b]));
                            crate::server::lemma_preferred_chain(s[i], s[b], s[j]);
                        }
                        assert forall|j: int| 0 <= j < s.len() && !s[j].disabled implies !preferred(#[trigger] s[j], s[i]) by {
                            if j < i {
                                assert(preferred(s[i], s[j]));
                                crate::server::lemma_preferred_asymmetric(s[i], s[j]);
                            } else {
                                crate::server::lemma_preferred_asymmetric(s[i], s[i]);
                            }
                        }
                    } else {
                        assert forall|j: int| 0 <= j < s.len() && !s[j].disabled implies !preferred(#[trigger] s[j], s[b]) by {
                            if j < i {
                                assert(!rest[j].disabled);
                                assert(!preferred(rest[j], rest[b]));
                            }
                        }
                        assert forall|j: int| 0 <= j < b && !s[j].disabled implies preferred(s[b], #[trigger] s[j]) by {
                            assert(!rest[j].disabled);
                            assert(preferred(rest[b], rest[j]));
                        }
                    }
                },
            }
        }
    }
}

proof fn lemma_views_update(v: Seq<Server>, i: int, x: Server)
    requires
        0 <= i < v.len(),
    ensures
        views(v.update(i, x)) == views(v).update(i, x@),
{
    assert(views(v.update(i, x)) =~= views(v).update(i, x@));
}

// ---------------------------------------------------------------------------
// Executable helpers

/// Finds the position of the server registered under `url`.
fn position(servers: &Vec<Server>, url: &String) -> (r: Option<usize>)
    ensures
        match r {
            Some(i) => i < servers.len() && views(servers@)[i as int].url == url@,
            None => !has_url(views(servers@), url@),
        },
{
    let mut i: usize = 0;
    while i < servers.len()
        invariant
            i <= servers.len(),
            forall|j: int| 0 <= j < i ==> #[trigger] views(servers@)[j].url != url@,
        decreases servers.len() - i,
    {
        if servers[i].url == *url {
            return Some(i);
        }
        i += 1;
    }
    None
}

/// `prefix`, then `url`, then `suffix`.
fn message(prefix: &str, url: &str, suffix: &str) -> (m: String)
    ensures
        m@ == prefix@ + url@ + suffix@,
{
    let mut m = String::from_str(prefix);
    m.append(url);
    m.append(suffix);
    m
}

/// Registers `server` under its url in `table`, replacing a server there.
fn upsert_server(table: &mut Vec<Server>, server: Server)
    requires
        distinct_urls(views(old(table)@)),
    ensures
        views(final(table)@) == upsert(views(old(table)@), server@),
        distinct_urls(views(final(table)@)),
{
    proof {
        lemma_upsert_distinct(views(table@), server@);
    }
    match position(table, &server.url) {
        Some(i) => {
            proof {
                lemma_url_index(views(table@), i as int);
                lemma_views_update(table@, i as int, server);
            }
            table.set(i, server);
        },
        None => {
            proof {
                lemma_views_push(table@, server);
            }
            table.push(server);
        },
    }
}

/// `candidate` takes the place of `held` in the walk of `min_by`: `held`
/// compares `Greater` to it.
fn outranks(candidate: &Server, held: &Server) -> (r: bool)
    ensures
        r == preferred(candidate@, held@),
{
    match held.cmp(candidate) {
        Ordering::Greater => true,
        _ => false,
    }
}

/// A balancer over the configured servers, or over none; the configured list is
/// read as [`Balancer::get_servers`] reads it.
pub fn new(config: Option<Vec<Server>>, port: u16, api_port: u16) -> (r: Result<Balancer, BalancerError>)
    ensures
        match config {
            None => r matches Ok(b) && b.wf() && b@ == (BalancerView { servers: Seq::empty(), port, api_port }),
            Some(list) => match config_outcome(views(list@), url_checks(views(list@))) {
                Ok(t) => r matches Ok(b) && b.wf() && b@ == (BalancerView { servers: t, port, api_port }),
                Err(e) => r matches Err(BalancerError::ParseError(x)) && x == e,
            },
        },
{
    if let Some(list) = config {
        let servers = Balancer::get_servers(list)?;
        return Ok(Balancer { servers, port, api_port });
    }
    let b = Balancer { servers: Vec::new(), port, api_port };
    assert(b@.servers =~= Seq::empty());
    Ok(b)
}

impl Balancer {
    /// The table has no url twice.
    pub open spec fn wf(&self) -> bool {
        distinct_urls(self@.servers)
    }

    /// Registers a new server; refused where its url is taken.
    pub fn add_server(&mut self, server: Server) -> (r: Result<(), BalancerError>)
        requires
            old(self).wf(),
        ensures
            final(self).wf(),
            applied(old(self)@, final(self)@, r, add_outcome(old(self)@.servers, server@)),
            !has_url(old(self)@.servers, server@.url) ==> r is Ok && final(self)@.servers
                == old(self)@.servers.push(server@),
            has_url(old(self)@.servers, server@.url) ==> r is Err && final(self)@ == old(self)@,
    {
        match position(&self.servers, &server.url) {
            Some(_) => Err(BalancerError::MyError(message("a server with url ", server.url.as_str(), " already exists"))),
            None => {
                proof {
                    lemma_views_push(self.servers@, server);
                }
                self.servers.push(server);
                Ok(())
            },
        }
    }

    /// Removes the server under `url`; refused where there is none, and where it
    /// is the only server left.
    pub fn delete_server(&mut self, url: String) -> (r: Result<(), BalancerError>)
        requires
            old(self).wf(),
        ensures
            final(self).wf(),
            applied(old(self)@, final(self)@, r, delete_outcome(old(self)@.servers, url@)),
    {
        match position(&self.servers, &url) {
            None => Err(BalancerError::MyError(message("server with url ", url.as_str(), " not found"))),
            Some(i) => {
                if self.servers.len() == 1 {
                    return Err(BalancerError::MyError(String::from_str("balancer cannot delete the only active server")));
                }
                proof {
                    lemma_url_index(views(self.servers@), i as int);
                    lemma_views_remove(self.servers@, i as int);
                }
                self.servers.remove(i);
                Ok(())
            },
        }
    }

    /// Gives the server registered under `server.url` the name, weight,
    /// health-check period and disabled flag of `server`, keeping its open
    /// connections and its health; refused where the url is unknown, and where
    /// every server would then be disabled.
    pub fn modify_server(&mut self, server: Server) -> (r: Result<(), BalancerError>)
        requires
            old(self).wf(),
        ensures
            final(self).wf(),
            applied(old(self)@, final(self)@, r, modify_outcome(old(self)@.servers, server@)),
    {
        let i = match position(&self.servers, &server.url) {
            None => {
                return Err(BalancerError::MyError(message("server with url ", server.url.as_str(), " not found")));
            },
            Some(i) => i,
        };
        let ghost s = views(self.servers@);
        proof {
            lemma_url_index(s, i as int);
        }
        let ghost t = s.update(i as int, reconfigured(s[i as int], server@));
        if server.disabled {
            let mut other_enabled = false;
            let mut j: usize = 0;
            while j < self.servers.len()
                invariant
                    i < self.servers.len(),
                    j <= self.servers.len(),
                    s == views(self.servers@),
                    t == s.update(i as int, reconfigured(s[i as int], server@)),
                    server.disabled,
                    other_enabled <==> exists|k: int| 0 <= k < j && !(#[trigger] t[k]).disabled,
                decreases self.servers.len() - j,
            {
                if j != i && !self.servers[j].disabled {
                    other_enabled = true;
                }
                assert(t[j as int].disabled == (j == i || self.servers[j as int].disabled));
                j += 1;
            }
            if !other_enabled {
                proof {
                    assert forall|k: int| 0 <= k < t.len() implies #[trigger] t[k].disabled by {
                        assert(!(0 <= k < j && !t[k].disabled));
                    }
                }
                return Err(BalancerError::MyError(String::from_str("balancer cannot disable all servers")));
            }
        } else {
            assert(!t[i as int].disabled);
        }
        let Server { url: _, name, weight, health_check_period, connections: _, healthy: _, disabled } = server;
        self.servers[i].name = name;
        self.servers[i].weight = weight;
        self.servers[i].health_check_period = health_check_period;
        self.servers[i].disabled = disabled;
        proof {
            assert(views(self.servers@) =~= t);
        }
        Ok(())
    }

    /// Counts one more open connection on the server under `url`; refused where
    /// there is none.
    pub fn increment_server_connections(&mut self, url: String) -> (r: Result<(), BalancerError>)
        requires
            old(self).wf(),
            has_url(old(self)@.servers, url@)
                ==> old(self)@.servers[url_index(old(self)@.servers, url@)].connections < u32::MAX,
        ensures
            final(self).wf(),
            applied(old(self)@, final(self)@, r, increment_outcome(old(self)@.servers, url@)),
    {
        match position(&self.servers, &url) {
            None => Err(BalancerError::MyError(message("server with url ", url.as_str(), " not found"))),
            Some(i) => {
                let ghost s = views(self.servers@);
                proof {
                    lemma_url_index(s, i as int);
                }
                self.servers[i].connections = self.servers[i].connections + 1;
                proof {
                    assert(views(self.servers@) =~= s.update(
                        i as int,
                        with_connections(s[i as int], s[i as int].connections + 1),
                    ));
                }
                Ok(())
            },
        }
    }

    /// Counts one open connection less on the server under `url`; refused where
    /// there is none.
    pub fn decrement_server_connections(&mut self, url: String) -> (r: Result<(), BalancerError>)
        requires
            old(self).wf(),
            has_url(old(self)@.servers, url@)
                ==> old(self)@.servers[url_index(old(self)@.servers, url@)].connections > 0,
        ensures
            final(self).wf(),
            applied(old(self)@, final(self)@, r, decrement_outcome(old(self)@.servers, url@)),
    {
        match position(&self.servers, &url) {
            None => {
                let mut m = String::from_str("failed to find server with url ");
                m.append(url.as_str());
                Err(BalancerError::MyError(m))
            },
            Some(i) => {
                let ghost s = views(self.servers@);
                proof {
                    lemma_url_index(s, i as int);
                }
                self.servers[i].connections = self.servers[i].connections - 1;
                proof {
                    assert(views(self.servers@) =~= s.update(
                        i as int,
                        with_connections(s[i as int], s[i as int].connections - 1),
                    ));
                }
                Ok(())
            },
        }
    }

    /// Reads a configured list of servers: refused with the first address that
    /// is not an absolute URL; otherwise each server under its url, a later
    /// entry for a url replacing an earlier one.
    pub fn get_servers(servers: Vec<Server>) -> (r: Result<Vec<Server>, BalancerError>)
        ensures
            match config_outcome(views(servers@), url_checks(views(servers@))) {
                Ok(t) => r matches Ok(v) && views(v@) == t && distinct_urls(t),
                Err(e) => r matches Err(BalancerError::ParseError(x)) && x == e,
            },
    {
        let mut checks: Vec<Result<(), url::ParseError>> = Vec::new();
        let mut i: usize = 0;
        while i < servers.len()
            invariant
                i <= servers.len(),
                checks.len() == i,
                forall|k: int| 0 <= k < i ==> #[trigger] checks@[k] == url_parse_outcome(servers@[k].url@),
            decreases servers.len() - i,
        {
            checks.push(check_url(servers[i].url.as_str()));
            i += 1;
        }
        proof {
            assert(checks@ =~= url_checks(views(servers@)));
        }
        Balancer::collect_servers(servers, checks)
    }

    /// The table made from a configured list whose addresses were checked, one
    /// check for each server in the same order: the first failed check refuses
    /// the list; otherwise each server under its url, a later entry for a url
    /// replacing an earlier one.
    pub fn collect_servers(servers: Vec<Server>, checks: Vec<Result<(), url::ParseError>>) -> (r: Result<Vec<Server>, BalancerError>)
        requires
            checks.len() == servers.len(),
        ensures
            match config_outcome(views(servers@), checks@) {
                Ok(t) => r matches Ok(v) && views(v@) == t && distinct_urls(t),
                Err(e) => r matches Err(BalancerError::ParseError(x)) && x == e,
            },
    {
        let mut i: usize = 0;
        while i < checks.len()
            invariant
                i <= checks.len(),
                first_failure(checks@, 0) == first_failure(checks@, i as int),
            decreases checks.len() - i,
        {
            match &checks[i] {
                Err(e) => {
                    return Err(BalancerError::ParseError(*e));
                },
                Ok(_) => {},
            }
            i += 1;
        }
        let ghost list = views(servers@);
        let mut table: Vec<Server> = Vec::new();
        for server in it: servers
            invariant
                it.seq() == servers@,
                list == views(servers@),
                views(table@) == table_of(list.take(it.index() as int)),
                distinct_urls(views(table@)),
        {
            proof {
                let k = it.index() as int;
                assert(list.take(k + 1).drop_last() =~= list.take(k));
            }
            upsert_server(&mut table, server);
        }
        proof {
            assert(list.take(list.len() as int) =~= list);
            lemma_table_of(list);
        }
        Ok(table)
    }

    /// The url of the server that should take the next request: among the
    /// enabled servers, the first one that no enabled server is preferred to
    /// (see [`Server::cmp`]); refused where every server is disabled.
    pub fn choose_next_server(&self) -> (r: Result<String, BalancerError>)
        ensures
            match pick(self@.servers) {
                Some(i) => r matches Ok(u) && u@ == self@.servers[i].url,
                None => r matches Err(BalancerError::MyError(m)) && m@ == "balancer has 0 working servers"@,
            },
            r is Err <==> all_disabled(self@.servers),
            r matches Ok(u) ==> exists|i: int|
                #![trigger self@.servers[i]]
                0 <= i < self@.servers.len() && self@.servers[i].url == u@ && !self@.servers[i].disabled
                    && forall|j: int|
                    0 <= j < self@.servers.len() && !(#[trigger] self@.servers[j]).disabled ==> {
                        let c = self@.servers[i];
                        let o = self@.servers[j];
                        &&& (o.healthy ==> c.healthy)
                        &&& (o.healthy == c.healthy ==> c.connections <= o.connections)
                        &&& (o.healthy == c.healthy && o.connections == c.connections ==> c.weight
                            >= o.weight)
                    },
    {
        proof {
            lemma_pick(self@.servers);
            if let Some(i) = pick(self@.servers) {
                let sv = self@.servers;
                assert forall|j: int| 0 <= j < sv.len() && !(#[trigger] sv[j]).disabled implies {
                    let c = sv[i];
                    let o = sv[j];
                    &&& (o.healthy ==> c.healthy)
                    &&& (o.healthy == c.healthy ==> c.connections <= o.connections)
                    &&& (o.healthy == c.healthy && o.connections == c.connections ==> c.weight >= o.weight)
                } by {
                    crate::server::lemma_not_preferred_fields(sv[i], sv[j]);
                }
            }
        }
        let ghost s = views(self.servers@);
        let mut best: Option<usize> = None;
        let mut i: usize = 0;
        while i < self.servers.len()
            invariant
                i <= self.servers.len(),
                s == views(self.servers@),
                match best {
                    None => pick(s.take(i as int)) is None,
                    Some(b) => pick(s.take(i as int)) == Some(b as int) && b < i,
                },
            decreases self.servers.len() - i,
        {
            proof {
                assert(s.take(i + 1).drop_last() =~= s.take(i as int));
                assert(s.take(i + 1)[i as int] == s[i as int]);
            }
            if !self.servers[i].disabled {
                match best {
                    None => {
                        best = Some(i);
                    },
                    Some(b) => {
                        assert(s.take(i + 1)[b as int] == s[b as int]);
                        if outranks(&self.servers[i], &self.servers[b]) {
                            best = Some(i);
                        }
                    },
                }
            }
            i += 1;
        }
        proof {
            assert(s.take(s.len() as int) =~= s);
        }
        match best {
            Some(b) => Ok(self.servers[b].url.clone()),
            None => Err(BalancerError::MyError(String::from_str("balancer has 0 working servers"))),
        }
    }

    /// Makes the change that `req` asks for, as the operation of that name does.
    pub fn handle_request(&mut self, req: BalancerRequest) -> (r: Result<(), BalancerError>)
        requires
            old(self).wf(),
            req matches BalancerRequest::DecrementServerConnections(url) ==> (has_url(old(self)@.servers, url@)
                ==> old(self)@.servers[url_index(old(self)@.servers, url@)].connections > 0),
        ensures
            final(self).wf(),
            applied(old(self)@, final(self)@, r, request_outcome(old(self)@.servers, req)),
    {
        match req {
            BalancerRequest::DecrementServerConnections(url) => self.decrement_server_connections(url),
            BalancerRequest::AddServer(server) => self.add_server(server),
            BalancerRequest::DeleteServer(url) => self.delete_server(url),
            BalancerRequest::UpdateServer(server) => self.modify_server(server),
        }
    }

    /// The port on which requests are balanced.
    pub fn port(&self) -> (p: u16)
        ensures
            p == self@.port,
    {
        self.port
    }

    /// The port on which the API accepts changes to the table.
    pub fn api_port(&self) -> (p: u16)
        ensures
            p == self@.api_port,
    {
        self.api_port
    }

    /// The server registered under `url`.
    pub fn get_server(&self, url: &String) -> (r: Option<&Server>)
        requires
            self.wf(),
        ensures
            match r {
                Some(srv) => has_url(self@.servers, url@) && srv@ == self@.servers[url_index(self@.servers, url@)],
                None => !has_url(self@.servers, url@),
            },
    {
        match position(&self.servers, url) {
            Some(i) => {
                proof {
                    lemma_url_index(views(self.servers@), i as int);
                }
                Some(&self.servers[i])
            },
            None => None,
        }
    }

    /// The number of registered servers.
    pub fn len(&self) -> (n: usize)
        ensures
            n == self@.servers.len(),
    {
        self.servers.len()
    }

    /// Records what a probe found about a server; refused where its url is not
    /// registered (any more).
    pub fn apply_health_report(&mut self, report: HealthReport) -> (r: Result<(), BalancerError>)
        requires
            old(self).wf(),
        ensures
            final(self).wf(),
            applied(
                old(self)@,
                final(self)@,
                r,
                match report {
                    HealthReport::Healthy(url) => health_outcome(old(self)@.servers, url@, true),
                    HealthReport::Unhealthy(url) => health_outcome(old(self)@.servers, url@, false),
                },
            ),
            ({
                let url = match report {
                    HealthReport::Healthy(u) => u@,
                    HealthReport::Unhealthy(u) => u@,
                };
                let old_s = old(self)@.servers;
                let new_s = final(self)@.servers;
                has_url(old_s, url) ==> {
                    &&& r is Ok
                    &&& new_s.len() == old_s.len()
                    &&& new_s[url_index(old_s, url)].healthy == (report is Healthy)
                    &&& forall|k: int|
                        0 <= k < old_s.len() ==> (#[trigger] new_s[k]) == (if k == url_index(old_s, url) {
                            ServerView { healthy: new_s[k].healthy, ..old_s[k] }
                        } else {
                            old_s[k]
                        })
                }
            }),
    {
        let (url, healthy) = match report {
            HealthReport::Healthy(url) => (url, true),
            HealthReport::Unhealthy(url) => (url, false),
        };
        match position(&self.servers, &url) {
            None => Err(BalancerError::MyError(message("server with url ", url.as_str(), " not found"))),
            Some(i) => {
                let ghost s = views(self.servers@);
                proof {
                    lemma_url_index(s, i as int);
                }
                self.servers[i].healthy = healthy;
                proof {
                    assert(views(self.servers@) =~= s.update(i as int, ServerView { healthy, ..s[i as int] }));
                }
                Ok(())
            },
        }
    }

    /// The url and health-check period of every server, in table order: what
    /// the health-check service starts with.
    pub fn health_check_targets(&self) -> (r: Vec<(String, u64)>)
        ensures
            r.len() == self@.servers.len(),
            forall|k: int| 0 <= k < r.len() ==> (#[trigger] r@[k]).0@ == self@.servers[k].url
                && r@[k].1 == self@.servers[k].health_check_period,
    {
        let mut r: Vec<(String, u64)> = Vec::new();
        let mut i: usize = 0;
        while i < self.servers.len()
            invariant
                i <= self.servers.len(),
                r.len() == i,
                forall|k: int| 0 <= k < i ==> (#[trigger] r@[k]).0@ == views(self.servers@)[k].url
                    && r@[k].1 == views(self.servers@)[k].health_check_period,
            decreases self.servers.len() - i,
        {
            r.push((self.servers[i].url.clone(), self.servers[i].health_check_period));
            i += 1;
        }
        r
    }
}

} // verus!
