# rgnix

A programmable HTTP reverse proxy and file server that is also a controller for
Kubernetes Ingress and Gateway API resources. The rules of it (what a request
goes through, what a configuration means, what becomes of a resource) are a
library that is written in Verus and proved against its contracts.

## Layout

- `src/`: the verified library. No function of it reads files, talks to the
  network or looks at the environment; what it needs from there it takes as plain
  values, and what has to be done there it gives back as plain values.
  - `text`, `json`, `table`, `net`, `header`, `path`, `uri`, `digest`: the values
    that all rules speak of.
  - `config`: configuration files, from tokens to the plan of servers, routes and
    backends, and what is taken along of one that is kept.
  - `model`, `snapshot`, `identity`, `body`, `compression`, `backend`, `maintenance`: hosts
    and paths, clients behind proxies, bodies that are inspected, codings, and the
    choice among the endpoints of a backend.
  - `proxy`: what a request goes through, from its arrival to the access log.
  - `ingress`, `gateway`: resources, from what they ask for to routes, listeners,
    statuses and checkpoints.
  - `admission`, `controls`, `diagnostics`, `fleet`, `history`: who may change or
    see what, previews, replicas that agree, and configurations that are kept.
  - `logging`, `otlp`, `certificates`, `migration`, `tenancy`, `script`.
  Where outside work and decisions take turns (a round over all Ingresses, a walk
  over all routes, a request to the interface for administrators), a machine
  takes what happened and gives back what has to be done next.
- `tests/`: the library seen from outside, on concrete values.
- `app/`: the command line, and the files around the library.

## Contracts and laws

Each public function says in `ensures` what it returns, over spec functions on
sequences of characters and bytes. Properties that span functions are public
proof functions whose names begin with `law_`.

Calls into other crates stand behind small functions marked
`#[verifier::external_body]`; the comment above each says what is claimed of the
crate. A result that takes pages to describe has a name, an `uninterp` spec
function, and the rules are stated over that name.
