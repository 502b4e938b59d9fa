# Entmoot

A node of a distributed MQTT databus. A mesh of such nodes takes the place of one broker:
each speaks MQTT 3.1.1 to its clients and shares a bus with its peers, so that a publish
on any node reaches the subscribers of every node.

The crate has two parts.

- `src/` is the library: everything a node decides. Topics and key expressions, grants,
  authentication, the way of a CONNECT into the node, sessions and their offline queues,
  retained messages, quotas, reconnect quarantine, data validation, staleness, packets,
  files, metrics. It is written in Verus: every function carries a contract, and the laws
  that span functions are proved beside them (`topic_laws`, `registry_laws`,
  `takeover_laws`, `churn_laws`, `connection_laws`, and the `law_` functions of the other
  modules).
- `app/` is the program around it: sockets, TLS, the bus session, files, the command line.
  It asks the library what to do, does it, and reports back what came of it.

Connections and forwarding tasks are known to the library by numbers, and times are
arguments. What other crates compute (digests, tokens, schemas, packets, certificates) is
called from the library through small wrappers whose contracts say what is relied on.

`tests/` runs the library on concrete values.
