# mc-share

Share a running Minecraft Java world with a link: no port forwarding, no account.

```
mc-share host          # opens a room and prints its link
mc-share join <link>   # joins it; the world appears in the multiplayer list
```

Host and joiner meet at a coordination server, punch holes through their NATs and
talk over QUIC, with the host's certificate pinned by its fingerprint. Where no
direct way can be opened, a TCP relay carries the traffic.

## Layout

- `src/` is the library, verified with Verus: every rule, parser, protocol step and
  state machine, without I/O. Times are plain nanoseconds, addresses plain numbers
  or texts, and what only an outside crate can compute stands behind small wrappers
  whose contracts say what is relied on.
  - `client/` hosts and joins: STUN, LAN announcements, key agreement, hole punching,
    the relay's pool, diagnostics, telemetry, and the two sessions.
  - `server/` keeps the rooms, answers the HTTP API, limits rates, pairs relayed
    streams and takes in telemetry.
  - `gui/` is the state of the window and what it shows.
- `app/` is the program around it: sockets, HTTP, QUIC, files, the command line and
  the window. It goes by three names: `mc-share`, `mc-share-server` and
  `mc-share-gui`. The window needs the crate `eframe`.
- `tests/` runs the library, outside crates included.

Properties that span several functions stand next to them as proof functions whose
names begin with `law_`.
