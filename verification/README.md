# bk_rs

A blockchain-based voting node. Votes are mined into proof-of-work blocks (SHA-256,
20 leading zero bits), gossiped between peers over TCP, and tallied on the root node's
HTTP interface.

- `src/` is the verified library (Verus): block encoding and proof of work
  (`block`, `encoding`, `pow`), chain validation and digest (`chain`, `hexstr`),
  the mining queue and miner (`mining_pool`, `miner`), the vote cache and tally text
  (`vote_cache`, `report`), the peer table (`peer`, `known_peers`), the fan-out of
  new votes (`gossip`), transport errors (`net`), and the node's decision steps
  (`node`). `external` holds the calls into `sha2`, `md5`, `uuid`, `rand` and the
  clock, and `block` the call into `wincode` and `rayon`, each with the contract the
  library relies on.
- `app/` is the program around it: command line, TCP and HTTP servers, wire types
  and the async flows that carry out what `node::NodeState` decides.
- `tests/` exercises the library, including the byte layout against `wincode`.
