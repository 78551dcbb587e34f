# beijing_bus

Client logic for the aibang real-time bus service of Beijing, verified with Verus.

- `src/cipher.rs`: the field cipher (RC4 keyed by the hex MD5 of `"aibang" + key`,
  over base64 text). MD5 comes from rust-crypto and base64 from rustc-serialize,
  behind trusted wrappers; the key schedule and keystream are proved against an
  RC4 model, together with the laws that the table is a permutation and that
  translating twice gives the input back.
- `src/text.rs`: decimal formatting, `i32` parsing and comma splitting.
- `src/bus.rs`: bus lines, stations and real-time buses, with coordinates kept as
  the service's decimal texts.
- `src/api.rs`: the XML parse of the service's documents (xml-rs, behind a trusted
  wrapper) and the state machines that read their events.
- `src/request.rs`: the request headers and the addresses of the service's documents.
- `src/poll.rs`: the recorder's decisions (followed lines, retries, pacing, storage).
- `app/`: the program around the library: HTTP (hyper), floating-point coordinates, JSON files and PostgreSQL/PostGIS storage.
