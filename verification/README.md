# Order book gateway

Limit order books for stocks and for option contracts, kept from a binary
multicast feed, with a broadcast of every change of the best prices.

- `src/` is the library. Verus proves every function in it against its contract.
  - `protocol`: the messages of the feed, and how packets are read; `encoding` says
    how events are written, and that reading undoes it.
  - `orderbook`: the book of one stock and the books of all stocks; `model` says
    what a book is, `laws` what holds of books whatever happens to them.
  - `options`: contracts, their books, chains of contracts and snapshots of chains.
  - `gateway`, `broadcast`, `clients`, `pipeline`: from packets to the bytes that
    clients get.
  - `generator`: made-up market data.
  - `wire`, `table`, `bounded`, `lists`: what the others build on.
- `app/` is the program: sockets, threads, the clock, logging, and the pricing
  model, which is floating point.
- `tests/` runs the library.

What the library takes from other crates (`ahash`, `arrayvec`, `byteorder`,
`crossbeam-queue`) stands behind small functions whose contracts are not proved;
each says which function it calls and what it claims of it.
