# owntier (verified core)

owntier provisions WireGuard + BGP mesh networks and deploys them to MikroTik
routers over the RouterOS API. This crate is its core, verified with Verus;
`app/` is the command-line program around it (arguments, files, the p43 key
store, TCP/TLS).

Modules of the library (`src/`):

- `wire` — the RouterOS API framing: length headers, words and sentences,
  encoding and incremental decoding, with the round-trip laws.
- `api` — a RouterOS session: the bytes of a login or a command, and what each
  reply sentence means.
- `attrs` — key/value attributes in key order: reply rows and plugin settings.
- `deploy` — the settings a deployment takes from a plugin configuration and
  the step-by-step actions that create or update the WireGuard interface, its
  address and the BGP template.
- `plugin`, `crypto` — sealing plugin configurations to the device key
  (X25519, HKDF-SHA256, AES-256-GCM) and naming/listing their files.
- `network` — network records, AS numbers, file names, listing order.
- `mikrotik_cmd`, `network_cmd`, `keys` — the command-line decisions.
- `bytes`, `sort` — byte strings, decimal numbers, ordering and sorting.

The device keys come from p43 (`p43::bus`), which `app/` uses and which is
not published as a crate.
