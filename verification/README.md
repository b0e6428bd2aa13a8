# parity

Two parts of an Ethereum node, as verified decisions:

* The miner keeps the settings for new blocks and the blocks that are being sealed. It decides
  whether a block is opened again or made afresh, which transactions are pushed onto it and which
  ones leave the queue, when preparing work pauses because nobody asks for it, and which block a
  submitted seal belongs to (`miner`, `pushing`, `using_queue`, `service`).
* The worker serves calls that arrive as messages on sockets. It decides which socket is read or
  written next and which method of the service is called (`ipc`, `worker`).

`history` states what holds of a miner through any number of steps. `block`, `hash` and `uint`
hold the values that decisions are made on.

`src/` is the library, verified with Verus. It performs no I/O and calls no service: it takes in
events and gives back actions. `app/` performs the actions, against a chain, a transaction queue,
a service and nanomsg sockets.
