# bitassets_node

The node logic of the BitAssets sidechain, verified with Verus.

`src/` holds the logic of the node: the rules, the data structures and the
procedures. It works on plain values and asks its caller for what only a
database, a socket or a timer can tell, so that each decision of the library has
a contract and the properties that span decisions are proved.

- `hash`, `transaction`: hashes, and the Merkle commitments to the inputs and
  outputs of transactions.
- `net`: addresses and seeds, connecting and redialing, the known peers in the
  order of their keys, the table of connected peers and the messages that wait
  for them.
- `node`: relaying transactions, connecting and disconnecting blocks (`tip`, with
  laws in `tip_laws`), re-organising the chain (`reorg`, with its laws in
  `reorg_laws`), handling what peers answer (`response`, with its laws in
  `response_laws`), and the events that the net task answers to (`events`).
- `rpc`: the rules behind the RPC methods and the layout of the servers.
- `table`, `types`: small collections, and blocks, tips and transactions.

Procedures that alternate with a database, such as a re-organisation, are
written as steps: a step either asks a question, and its answer leads to the
next step, or is the end.

`app/` runs the library: QUIC endpoint, database of known peers, tasks, block
announcements and JSON-RPC servers. `tests/` runs the library on concrete
values, with the outside crates linked.
