//! Health checks: what a probe's status code reports, and the bookkeeping of
//! which servers have a health-check worker.
use crate::balancer::BalancerRequest;
use vstd::prelude::*;

verus! {

/// Asks the health-check service to start or stop watching a server.
#[derive(Debug)]
pub enum HealthCheckRequest {
    Stop(String),
    /// The url and the period between two probes, in seconds.
    Start(String, u64),
}

/// The result of one probe of a server.
#[derive(Debug)]
pub enum HealthReport {
    Healthy(String),
    Unhealthy(String),
}

/// What the health-check service has to do for a request.
#[derive(Debug)]
pub enum HealthAction {
    /// Start a worker for a server that had none.
    Spawn(String, u64),
    /// Stop the worker of the server and start a new one with the given period.
    Respawn(String, u64),
    /// Stop the worker of the server.
    Stop(String),
    /// The server to stop had no worker.
    Unknown(String),
}

/// A probe succeeds when the server answers with a status from 200 to 399.
pub open spec fn is_healthy_status(status: u16) -> bool {
    200 <= status < 400
}

/// The report for a probe of `url` answered with `status`.
pub fn report_for_status(url: String, status: u16) -> (r: HealthReport)
    ensures
        if is_healthy_status(status) {
            r matches HealthReport::Healthy(u) && u@ == url@
        } else {
            r matches HealthReport::Unhealthy(u) && u@ == url@
        },
        200 <= status && status <= 399 ==> (r matches HealthReport::Healthy(u) && u@ == url@),
        status < 200 ==> (r matches HealthReport::Unhealthy(u) && u@ == url@),
        status >= 400 ==> (r matches HealthReport::Unhealthy(u) && u@ == url@),
{
    if 200 <= status && status < 400 {
        HealthReport::Healthy(url)
    } else {
        HealthReport::Unhealthy(url)
    }
}

/// The health-check request that follows a change of the balancer's table once
/// it has been made: a new server is watched, a deleted one no longer, and an
/// updated one is watched again with its new period.
pub fn health_request_for(req: &BalancerRequest) -> (r: Option<HealthCheckRequest>)
    ensures
        match req {
            BalancerRequest::AddServer(s) | BalancerRequest::UpdateServer(s) => r matches Some(
                HealthCheckRequest::Start(u, p),
            ) && u@ == s.url@ && p == s.health_check_period,
            BalancerRequest::DeleteServer(url) => r matches Some(HealthCheckRequest::Stop(u)) && u@
                == url@,
            BalancerRequest::DecrementServerConnections(_) => r is None,
        },
{
    match req {
        BalancerRequest::AddServer(s) => Some(HealthCheckRequest::Start(s.url.clone(), s.health_check_period)),
        BalancerRequest::UpdateServer(s) => Some(HealthCheckRequest::Start(s.url.clone(), s.health_check_period)),
        BalancerRequest::DeleteServer(url) => Some(HealthCheckRequest::Stop(url.clone())),
        BalancerRequest::DecrementServerConnections(_) => None,
    }
}

/// The urls that have a running health-check worker, each once.
pub struct HealthWorkers {
    urls: Vec<String>,
}

pub open spec fn texts(v: Seq<String>) -> Seq<Seq<char>> {
    v.map_values(|u: String| u@)
}

/// The watched urls after `req`.
pub open spec fn watched_after(s: Seq<Seq<char>>, req: HealthCheckRequest) -> Seq<Seq<char>> {
    match req {
        HealthCheckRequest::Start(url, _) => if s.contains(url@) {
            s
        } else {
            s.push(url@)
        },
        HealthCheckRequest::Stop(url) => if s.contains(url@) {
            s.remove(s.index_of(url@))
        } else {
            s
        },
    }
}

/// What the service does for `req` while it watches `s`.
pub open spec fn action_for(s: Seq<Seq<char>>, req: HealthCheckRequest, a: HealthAction) -> bool {
    match req {
        HealthCheckRequest::Start(url, p) => if s.contains(url@) {
            a matches HealthAction::Respawn(u, q) && u@ == url@ && q == p
        } else {
            a matches HealthAction::Spawn(u, q) && u@ == url@ && q == p
        },
        HealthCheckRequest::Stop(url) => if s.contains(url@) {
            a matches HealthAction::Stop(u) && u@ == url@
        } else {
            a matches HealthAction::Unknown(u) && u@ == url@
        },
    }
}

/// Starting to watch a url and then stopping gives back the watched urls, and
/// the two requests ask for a new worker and then for its stop.
pub proof fn lemma_start_then_stop(s: Seq<Seq<char>>, start: HealthCheckRequest, stop: HealthCheckRequest)
    requires
        s.no_duplicates(),
        start matches HealthCheckRequest::Start(u, _) && !s.contains(u@),
        stop matches HealthCheckRequest::Stop(v) && start->Start_0@ == v@,
    ensures
        watched_after(watched_after(s, start), stop) == s,
        watched_after(s, start).contains(start->Start_0@),
        watched_after(s, start).no_duplicates(),
{
    let url = start->Start_0@;
    let t = s.push(url);
    assert(t[s.len() as int] == url);
    let k = t.index_of(url);
    assert(0 <= k < t.len() && t[k] == url);
    if k < s.len() {
        assert(s[k] == url);
    }
    assert(t.remove(s.len() as int) =~= s);
}

/// Starting a url adds exactly that url to the watched ones, and stopping a url
/// removes exactly that url, wherever it stands among them; every other url
/// keeps its state.
pub proof fn lemma_watched_membership(s: Seq<Seq<char>>, req: HealthCheckRequest)
    requires
        s.no_duplicates(),
    ensures
        watched_after(s, req).no_duplicates(),
        forall|v: Seq<char>|
            #![trigger watched_after(s, req).contains(v)]
            watched_after(s, req).contains(v) <==> match req {
                HealthCheckRequest::Start(url, _) => s.contains(v) || v == url@,
                HealthCheckRequest::Stop(url) => s.contains(v) && v != url@,
            },
{
    let t = watched_after(s, req);
    match req {
        HealthCheckRequest::Start(url, _) => {
            if !s.contains(url@) {
                let n = s.push(url@);
                assert(n[s.len() as int] == url@);
                assert forall|v: Seq<char>| #![trigger n.contains(v)] n.contains(v) <==> (s.contains(v) || v == url@) by {
                    if s.contains(v) {
                        let k = choose|k: int| 0 <= k < s.len() && s[k] == v;
                        assert(n[k] == v);
                    }
                    if n.contains(v) && v != url@ {
                        let k = choose|k: int| 0 <= k < n.len() && n[k] == v;
                        assert(s[k] == v);
                    }
                }
                assert forall|i: int, j: int| 0 <= i < n.len() && 0 <= j < n.len() && i != j implies n[i] != n[j] by {
                    if i < s.len() && j < s.len() {
                    } else if i < s.len() {
                        assert(s[i] == n[i]);
                    } else {
                        assert(s[j] == n[j]);
                    }
                }
            }
        },
        HealthCheckRequest::Stop(url) => {
            if s.contains(url@) {
                let i = s.index_of(url@);
                assert(0 <= i < s.len() && s[i] == url@);
                let n = s.remove(i);
                assert forall|v: Seq<char>| #![trigger n.contains(v)] n.contains(v) <==> (s.contains(v) && v != url@) by {
                    if s.contains(v) && v != url@ {
                        let k = choose|k: int| 0 <= k < s.len() && s[k] == v;
                        if k < i {
                            assert(n[k] == v);
                        } else {
                            assert(k != i);
                            assert(n[k - 1] == v);
                        }
                    }
                    if n.contains(v) {
                        let k = choose|k: int| 0 <= k < n.len() && n[k] == v;
                        if k < i {
                            assert(s[k] == v);
                        } else {
                            assert(s[k + 1] == v);
                            assert(k + 1 != i);
                        }
                    }
                }
                assert forall|a: int, b: int| 0 <= a < n.len() && 0 <= b < n.len() && a != b implies n[a] != n[b] by {
                    let a2 = if a < i { a } else { a + 1 };
                    let b2 = if b < i { b } else { b + 1 };
                    assert(n[a] == s[a2] && n[b] == s[b2]);
                }
            }
        },
    }
}

impl View for HealthWorkers {
    type V = Seq<Seq<char>>;

    closed spec fn view(&self) -> Seq<Seq<char>> {
        texts(self.urls@)
    }
}

impl HealthWorkers {
    /// No url is watched twice.
    pub open spec fn wf(&self) -> bool {
        self@.no_duplicates()
    }

    /// Nothing watched yet.
    pub fn new() -> (w: HealthWorkers)
        ensures
            w.wf(),
            w@ == Seq::<Seq<char>>::empty(),
    {
        let w = HealthWorkers { urls: Vec::new() };
        assert(w@ =~= Seq::<Seq<char>>::empty());
        w
    }

    /// Whether `url` has a worker.
    pub fn is_watched(&self, url: &String) -> (r: bool)
        ensures
            r == self@.contains(url@),
    {
        match self.find(url) {
            Some(_) => true,
            None => false,
        }
    }

    fn find(&self, url: &String) -> (r: Option<usize>)
        ensures
            match r {
                Some(i) => i < self@.len() && self@[i as int] == url@,
                None => !self@.contains(url@),
            },
    {
        let mut i: usize = 0;
        while i < self.urls.len()
            invariant
                i <= self.urls.len(),
                forall|j: int| 0 <= j < i ==> #[trigger] texts(self.urls@)[j] != url@,
            decreases self.urls.len() - i,
        {
            if self.urls[i] == *url {
                return Some(i);
            }
            i += 1;
        }
        None
    }

    /// Records `req` and says what the service has to do for it: a start for a
    /// watched url restarts its worker, a stop for an unwatched url is reported.
    pub fn handle(&mut self, req: HealthCheckRequest) -> (a: HealthAction)
        requires
            old(self).wf(),
        ensures
            final(self).wf(),
            final(self)@ == watched_after(old(self)@, req),
            action_for(old(self)@, req, a),
            forall|v: Seq<char>|
                #![trigger final(self)@.contains(v)]
                final(self)@.contains(v) <==> match req {
                    HealthCheckRequest::Start(url, _) => old(self)@.contains(v) || v == url@,
                    HealthCheckRequest::Stop(url) => old(self)@.contains(v) && v != url@,
                },
    {
        let ghost s = self@;
        let ghost r0 = req;
        proof {
            lemma_watched_membership(s, r0);
        }
        match req {
            HealthCheckRequest::Start(url, period) => {
                match self.find(&url) {
                    Some(_) => HealthAction::Respawn(url, period),
                    None => {
                        let copy = url.clone();
                        self.urls.push(copy);
                        assert(self@ =~= s.push(url@));
                        HealthAction::Spawn(url, period)
                    },
                }
            },
            HealthCheckRequest::Stop(url) => {
                match self.find(&url) {
                    Some(i) => {
                        proof {
                            assert(s[i as int] == url@);
                            let k = s.index_of(url@);
                            assert(0 <= k < s.len() && s[k] == url@);
                        }
                        self.urls.remove(i);
                        assert(self@ =~= s.remove(i as int));
                        HealthAction::Stop(url)
                    },
                    None => HealthAction::Unknown(url),
                }
            },
        }
    }
}

} // verus!
