# TempShare

Temporary file sharing from the sender's own computer. The sender works with a
private dashboard on this machine and creates expiring share links; recipients
download with a browser, through a tunnel that is connected to the public listener
alone.

| Listener | Default address | Purpose |
| --- | --- | --- |
| Management | `127.0.0.1:7420` | dashboard; create, list, update, revoke, delete |
| Public download | `127.0.0.1:7421` | recipient page, password unlock, downloads |

## Layout

- `src/` is the library, written in Rust and verified with Verus. It decides
  everything: which requests are let in, what is served to whom, how downloads and
  guesses are counted, what the registry holds, what the tunnel does next.
  - `shares` makes and manages shares, `download` serves them, `db` registers them.
  - `auth` hashes passwords and limits requests; `ids` makes identifiers.
  - `routes` and `guard` keep the two listeners apart; `tunnel` watches the tunnel.
  - `headers`, `names`, `page` and `text` read and write what goes over the wire.
  - `laws` states and proves what holds of all of these together.
- `app/` is the server around it: sockets, SQLite, files, archives, processes.
- `tests/` runs the library on concrete values.

Functions whose names end in `_at` take the time as an argument; the ones without
read the clock. Likewise, what is random comes in as an argument (a token, a salt)
in the functions that do the work.
