# work

A threaded downloader for HLS (`.m3u8`) playlists, with its own small HTTP/1.1
client and server, verified with Verus.

- `src/` is the verified library: header maps, request and status lines, URLs,
  proxies, request and response readers (state machines that ask the caller
  for one read at a time), playlist segment lists, download batches and file
  names, and the bookkeeping of the download services. `src/calls.rs` holds
  the calls into std and other crates (`regex`, `md5`, `url`) whose results
  are named rather than computed.
- `app/` is the program around it: the command line (clap), sockets, TLS
  (openssl), SOCKS5, threads, files, JSON (serde), and the asynchronous
  service (tokio, axum, reqwest), which reads the segment URIs of a playlist
  with `hls_m3u8`.
- `tests/` runs the library on concrete values.
