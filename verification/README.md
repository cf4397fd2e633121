# csqtt

The core of the CSQTT tunnel, written in Verus: the rules by which its client and server
queue, route, admit, persist and report, each with a contract that is proved.

- `src/client` — packet queues with epochs, the dispatcher of worker channels, the framing
  and handshake of the local SOCKS5 proxy, the configuration protocol, start-up settings.
- `src/server` — striped routes of tunnel workers, the database and its write queue, the
  import of older databases, the transparent proxy with its quotas, buffers and UDP flows,
  the SOCKS5 dialogue, packet filter rules, and the reports of the console.
- `src/*.rs` — addresses, texts, ordered text maps, stream frames, rounding to doubles.
- `app` — the program around the library: sockets, files, SQLite, processes, signals.
- `tests` — the library from outside.

Contracts speak of mathematical values: sequences, maps and integers. Facts that hold of
several operations together are public proof functions whose names begin with `law_`.
What the library takes from other crates without proof stands behind small functions whose
doc comments name the call and say what is believed of it.

The carriers of the tunnel itself (the media transport and its encryption) and the web
panel are not part of this crate.
