# sc-rns-bridge

Play Sven Co-op over Reticulum: a bridge that shuffles GoldSrc UDP datagrams
in and out of Reticulum Links, a controller that runs a bridge server, a
bridge client and the Sven Co-op dedicated server, and a web control panel.

## Layout

- `src/` is the verified library. Every function carries a `requires` /
  `ensures` contract that Verus proves:
  - `framing` — the datagram framing over Links and its reassembly;
  - `relay` — the server- and client-side event routers, the startup
    interface plan, the path probe and Link setup decisions;
  - `controller` — the orchestrator's bookkeeping: settings, restart and
    resume plans, address and hash checks;
  - `ds`, `steamcmd` — the dedicated server's decisions: install
    candidates, map lists, soundcache files, the mapcycle rewrite, the
    steamcmd layout, command line and console parsing;
  - `game`, `server_entry`, `web`, `portable`, `config` — the launcher
    command, browser rows, panel commands and defaults, data folder, and
    the bridge's arguments;
  - `text`, `hexcodec`, `paths` — character-level helpers, hex text and
    filesystem paths.
  Laws that span several functions are public proof functions next to the
  functions they speak of.
- `tests/` runs the library on concrete values.
- `app/` is the program around it: the command line, the Reticulum node and
  its sockets, the dedicated-server process, steamcmd downloads and the web
  panel.
