# grip

TLS handshake inspection and fingerprinting over raw bytes, as a library
whose behaviour is stated in `requires` / `ensures` contracts and proved
with Verus, plus a small command-line program around it.

- `src/` is the library. Every function in it is verified, except the
  small wrappers around outside calls listed at the end, whose contracts
  are trusted.
  - `tls`: records, `ClientHello` / `ServerHello` and their extensions,
    certificate chains, and the `ClientHello` builder (with the law that
    building then parsing gives back the builder's settings).
  - `fp`: JA3, JA4 and JA4S, and the table of known fingerprints.
  - `pcap`: capture records, Ethernet/IPv4/TCP packets, stream
    reassembly and `ClientHello` extraction.
  - `net`: the decisions of a live probe (what to send, when to stop
    reading, what came back).
  - `cli`: options, validation, and the pure parts of the live and capture
    pipelines.
  - `output`, `ui`: report models and their layout as lines.
  - `util`: text, hex, IP literals, sorting, dates.
- `app/` is the program: argument parsing, sockets, files, the `rustls`
  certificate fallback, JSON, and terminal colors.
- `tests/` exercises the library on concrete inputs.

Calls into outside crates (`sha2`, `md-5`, `x509-parser`, `chrono`) and
into std's string conversions (`chars`, `collect`, `from_utf8_lossy`) go
through small wrappers whose contracts are trusted; their doc comments say
what each one claims.
