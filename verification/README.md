# lanshare

LanShare shares a directory on the local network. Browsers reach it over HTTP, file managers over
WebDAV, and mounting clients over a framed protocol on a WebSocket.

`src/` is the library, verified with Verus. It does no input or output: it takes what was read and
decides what is answered, stored or sent.

- `text`, `quote`, `bytes`, `encoding`, `utf16`, `clock`: texts, numbers, quotation, byte order,
  percent coding, dates.
- `frame`, `gaps`, `wsp`, `wsp_server`, `wsp_client`: the frames of the protocol, the bytes that an
  upload still lacks, and both ends of a connection.
- `db`, `token`, `config`, `client_config`: accounts, permissions, share links, tokens, settings.
- `paths`, `listing`, `mime`, `files`, `api`, `webdav`, `http`, `server`: what requests over HTTP
  and WebDAV come to.
- `content`, `fuse`, `mounted`, `winfs`, `volume`, `readonly_fs`, `dokan`, `lsp_client`: what mounted file systems
  answer.
- `discovery`, `startup`, `tray`, `icon`: the announcement of servers and the program around it.

`app/` is the program: sockets, files, the database, the command line. `tests/` runs the library on
concrete values.

Functions named `law_..` state what holds of the library as a whole: that a frame that was encoded
is decoded to itself, that no path leaves the shared directory, that an upload is kept only when
every byte of it has arrived, that what was written is read again.
