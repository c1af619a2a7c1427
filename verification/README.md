# dragonfly-gguf

Peer-to-peer distribution of GGUF model files, verified with Verus.

`src/` is the library, whose contracts Verus proves:

- `tracker`: the peer discovery tracker. `store` keeps who serves which content,
  `routes` decides what each request is answered, `ui` renders the registry page.
  `tables` holds the concurrent tables of the crate `dashmap`.
- `p2p`: the peers. `content_key` derives the key of a file, `wire` is the protocol
  between two peers, `downloader` the order in which peers are tried, `registry`
  the seeds on disk, `seeder` the seed service, `tracker` the client of the
  tracker, `seed_import` the scan of a model cache.
- `gguf`: the `gguf://` URL scheme on top of the Hugging Face one.
- `dfget`: the update notice and the `seed-import` command.
- `text`, `paths`, `clock`: strings as sequences of characters, places on disk, and
  the clocks of the machine.

The modules that end in `_laws` state what holds of the library as a whole: what
every operation of the store keeps, that an announce is found until it expires,
that a key binds the source of a file, that a request and its reply are understood,
what a pass over the seed registry leaves, what the registry page shows, and the
like.

What depends on an outside crate or on std without a specification stands behind a
function or a declaration whose doc comment says what is taken for granted.

A function whose name ends in `_at` takes the time as an argument and has an exact
contract; the one without the ending reads the clock.

`app/` is the program around the library: the HTTP routes of the tracker, its
client, the endpoints of the peer-to-peer network, files and the command line.
`tests/` runs the library on concrete values.
