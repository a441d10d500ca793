# load_balancer

A least-connections HTTP load balancer whose decision logic is verified with Verus.

- `src/` is the verified library:
  - `server.rs`: a backend server and the order in which servers are preferred
    (healthy first, then fewer open connections, then a higher weight), with its
    laws (reflexive, antisymmetric, transitive).
  - `balancer.rs`: the server table (each url once, in registration order), reading
    a configured list, adding, deleting and reconfiguring servers, counting open
    connections, recording health reports, and choosing the next server.
  - `health.rs`: what a probe's status code reports, and which servers have a
    health-check worker.
  - `api.rs`: routing of API calls, the answers they get, and how the command line
    reads them.
  - `url_check.rs`: the check, made with the `url` crate, that an address is an
    absolute URL.
- `app/` is the program around it: command line, configuration file, the HTTP
  listeners, the health-check workers and the balancer's event loop.
- `tests/` runs the library on concrete values.
