# archiinventory

An inventory viewer for Archipelago multiworlds. It asks a game server or the
web host what each slot of a world has received, and shows the items in a table
that can be searched and sorted.

* `src/` is the library: everything the program decides or computes, written in
  Verus and proved against its contracts.
* `app/` is the program around it: windows, dialogs, files, threads and network.
* `tests/` runs the library.

| module | what it is about |
| --- | --- |
| `data`, `world` | worlds and their slots |
| `istr` | interned strings |
| `text`, `order`, `slots`, `tables` | texts, sorting, lists of slots, hash tables |
| `items`, `lookup` | received items, their names, and their groups |
| `search`, `rows` | the table of items: filters, orders and what a row shows |
| `conn`, `client`, `room`, `room_job`, `sync` | connections and their workers |
| `cache` | where data packages are kept |
| `os_path` | file paths as texts |
| `ui`, `world_ui`, `windows` | the state behind the windows |

A worker is a state machine: `step` takes what came of the last action and says
what to do next, and the program in `app/` does it. What a step may do is stated
by one relation per worker (`room_step`, `client_step`, `sync_step`).

Functions of other crates are called through small wrappers whose contracts are
not proved. Each of them says in its comment what it claims.

The manifest builds `ureq` without a TLS library. To reach web hosts by https,
switch on its feature `native-tls` and set the provider in `app/room.rs`.
