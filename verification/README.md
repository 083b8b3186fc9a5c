# rust_proxy

The verified core of an HTTP/HTTPS proxy that stores the requests it sees
so that they can be listed, shown, sent again and scanned for command
injection from a console.

- `src/` is the library, proved with Verus:
  - `text`: finding, splitting and joining on a pattern, trimming;
  - `numbers`: decimal integers as `str::parse` reads and `to_string` writes them;
  - `request`: reading a request from its stored text and writing it, and the
    proof that a stored request reads back;
  - `scan`: the probe requests of a scan and the tally of its outcomes;
  - `cli`: console commands and the paging of the request history;
  - `proxy`: routing, the answer to `CONNECT` and the names requests are stored under;
  - `store`: requests kept as separator-joined fields.
- `app/` is the program around it: the server, the TLS tunnel, the console
  loop, file access and the table printing.
- `tests/` runs the library on concrete values.
