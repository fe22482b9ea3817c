# sp2p

Peer-to-peer file transfer through folders. A file dropped into
`send/<inbox>/` goes to every peer on the network group that announces an inbox
of that name, and lands in that peer's `inbox/<inbox>/`.

## Layout

- `src/` is the library, verified with Verus: the routing table of announced
  inboxes, the blocks and frames of the transfer protocol, the receiving and
  sending sessions of one file, the send queue, grouping of arrival
  notifications, and the group key and sealed discovery datagrams. Calls into
  `argon2`, `chacha20poly1305`, `snow` and `blake3` go through small trusted
  wrappers whose contracts say what the crates do.
- `app/` is the program around it: sockets, files, folder watching, UPnP,
  desktop notifications, the command line and the configuration file.
- `tests/` runs the library on concrete values.

## Wire format

A transfer closes with the BLAKE3 hash of the whole file, including the part
that the receiver already had when the transfer resumed; the receiver checks it
against that part followed by the new data. Both peers must close transfers this
way: a peer that hashes only the bytes of the resumed connection cannot resume
with one that hashes the whole file.
