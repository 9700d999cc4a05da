# localstream-core

The core of LocalStream, a local-first media server: it scans an approved
video directory, decides how each client can play each file (direct play,
remux, transcode), pairs and authenticates trusted devices, and can offer
its library on the LAN behind a TLS leaf issued by the node's own root.

## Layout

- `src/` is the verified library, proved with Verus. Every public function
  carries a contract, and the properties that span several functions are
  stated as public proof functions (`lemma_*`): pairing approval and
  single-use claims, rate-limit independence, the round trips of the stored
  record formats and of IP address text, the job ledger's lifecycle, the
  schema migration plan and the ownership of HLS sessions.
- `app/` is the ordinary Rust around it: SQLite, the keyring, the TLS server
  configuration, the HTTP server, process spawning, file-system walks and the
  asynchronous job workers. It hands the library plain values and acts on
  the decisions the library returns.
- `tests/` exercises the library through its public interface.

Calls into `sha2`, `subtle`, `getrandom`, `base64`, `uuid` and `rcgen` (keys
and certificate signing) stand in `src/` behind small trusted wrappers
whose contracts say what the crates document; everything built on them is
verified.
