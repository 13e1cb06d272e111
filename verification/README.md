# Lime

The building blocks of a small backend service, written in Verus: what they decide is stated in
contracts and proved.

- `src/` is the library. `service` puts a service together from its `config`; `server` routes
  requests through `middleware` to handlers; `api` holds requests, responses, queries and health,
  with `pagination` and `metrics`; `auth` holds tokens, passwords and roles, `claims` what a token
  says, and `accounts` the endpoints that sign users in and up; `database` runs migrations and
  builds queries, and `model` the statements of a stored type; `tasks` queues background work and
  retries it. `http`, `json`, `clock`, `ids`, `text`, `text_map` and `window` are what these rest
  on.
- `app/` is a program around the library: it owns the sockets, the database, the task store, the
  files and the clock. Where an endpoint or a run needs one of them, the library says what is to be
  done next and is told how that went.
- `tests/` exercises the library from outside.

Points in time that only matter relative to each other are nanoseconds of a monotonic clock, handed
in by the caller. Identifiers are the 128 bits of a UUID.
