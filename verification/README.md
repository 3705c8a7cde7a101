# hypergate

A multi-version HTTP gateway: clients talk to one stable gateway, which
forwards each request to the currently active version app, switches traffic
between versions after a health check, drains old versions without cutting
their open connections, and can roll back.

The crate is a Verus library with a thin executable around it.

- `src/` holds the gateway's logic, verified with Verus: the configuration
  schema and its file mapping, version runtimes and leases, the lifecycle
  control (switch, rollback, drain, stop, reload) with its rollback history,
  the persisted state, the proxy's header and body rules, the management API's
  authorization, and the console's commands, help tree, tables and colours.
- `app/` is the process: reading files, the HTTP listener and client, the
  admin API, the interactive console and the demo version app. It calls the
  library for every decision.
- `tests/` runs the library on concrete inputs.
