# riptorrent

A small BitTorrent client whose decisions are proved with Verus.

- `src/` is the library. It holds the wire messages and the handshake, the
  digest of a torrent file, the announce request and its reply, the bookkeeping
  of blocks and pieces, the queue of requests, and the three tasks of a
  download (the torrent, a connection to a peer, the file writer) as state
  machines. Each machine takes in what became of its last action and says what
  to do next; its contract says exactly which step that is.
- `app/` is the program around it: sockets, files, HTTP, clock and channels.
- `tests/` runs the library on concrete values.

Calls into other crates (bit strings, the linked hash set, SHA-1, bencode,
percent and form encoding) stand behind small functions whose contracts are
believed rather than proved; each is documented where it is declared.
