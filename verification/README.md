# ferry_runtime

The runtime both Ferry apps link: it pairs devices, keeps them connected, shows
a paired device's files as a WebDAV volume, and copies files between devices.

The library under `src/` decides; the code under `app/` acts. A function of the
library takes plain values (bytes, text, numbers, its own types) and says what to
do next. What touches a disk, a socket, a thread or the clock stands in `app/`,
performs that action and hands back what happened. Every function of the library
is verified by Verus against its contract, but for two wrappers around `String` and
one around `zeroize`: their contracts, and those given to `String::push`,
`String::push_str` and `getrandom::fill`, are taken from the documentation.

## The library

- `access`: the access log. Its entries as bytes, one file per day, and how old
  days are cut or rolled up.
- `auto_copy`, `batch`, `held`, `folder`, `manifest`, `transfers`: what is copied,
  what of it is there already, and how far a copy got.
- `calendar`, `dates`: days, dates and their spelling in HTTP.
- `dav`: the WebDAV bridge. Heads and ranges (`http`), bodies (`xml`,
  `proppatch`), locks, caches, the answer to each method (`handlers`), and how an
  upload lands on the other device (`put`).
- `engine`: pairing, discovery, the state of each device, who may call in, and
  what the apps are shown.
- `peers`, `networks`: who is paired and where the engine may speak.
- `path`, `text`, `textmap`, `seqs`, `wire`: what the others are built on.
- `random`: random bytes, from `getrandom`.

Public proof functions, named `lemma_..`, state what holds of several functions
together: that a written record reads back, that a device that is switched off
serves nobody, that a file is reported as landed only after it was checked,
and that only the chunks which differ are written.

## The app

`app/` runs the loops. The calls that go over the wire, and what is hashed or
enciphered for them, come in through the traits in `app/peer.rs` and
`app/runtime.rs`.
