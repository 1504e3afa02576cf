# remux

The decision logic of a media server, verified with Verus: which streams to
offer, how to drive the transcoder, and how to keep track of playbacks and
torrents.

- `src/` is the library. Every function states what it returns in its contract.
  What a contract says of another crate's function is stated where that
  function is called, and is the only thing that is not proved.
- `tests/` runs the library on concrete values, with the other crates linked.
- `app/` is the server around it: processes, sockets, files and the torrent
  engine.

| module | what it decides |
| --- | --- |
| `playback` | command lines, playlists, probes, and the watch over a transcode |
| `playback_session` | who plays what, and how playbacks start |
| `services` | the streams of an item, and the torrent behind an automatic source |
| `stream`, `release_name`, `proxy` | how a stream is reached, what its name states, and what a client is answered |
| `torrent*` | files, metadata, storage, use and availability of torrents |
| `store` | short-lived facts |
| `tasks`, `web_patches` | housekeeping, and what is injected into the web client |
| `text`, `paths`, `urls`, `ids`, `languages`, `order`, `keyed`, `binary64`, `dash` | what the others are made of |

Times are passed in: wall time in nanoseconds, the clock of the store in
milliseconds. Identifiers are 128 bit numbers, paths are texts.
