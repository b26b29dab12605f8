# RingLog

A single-node message broker in Rust on `io_uring`. Producers send messages over TCP;
the broker appends them to a write-ahead log and streams the log to consumers.

The library under `src/` holds everything the broker decides, verified with Verus. It
performs no I/O. The program under `app/` carries out what the library asks for.

| module     | what it holds                                                        |
|------------|----------------------------------------------------------------------|
| `wire`     | big-endian integers and length-prefixed frames                       |
| `error`    | what can go wrong, and of which kind it is                           |
| `transfer` | moving whole buffers through a socket that moves parts               |
| `log`      | the commit log: where to read and write, and what the outcome means  |
| `tail`     | the channel that announces the end of the log to waiting consumers   |
| `server`   | the broker's side of a connection, as a state machine                |
| `client`   | the producer's and the consumer's side                               |
| `text`     | typed lines, shown messages, numbers                                 |
| `cli`      | the command line                                                     |
| `history`  | laws of the log: what reads find after appends                       |
| `broker`   | laws of whole connections                                            |
| `delivery` | laws of a message's way from producer to consumer                    |

## Protocol

A client first sends one byte: `0x01` for a producer, `0x02` for a consumer.

* A producer sends `[4-byte big-endian length] [message]`, and gets back the 8-byte
  big-endian offset of each message in the log.
* A consumer sends an 8-byte big-endian starting offset, and gets back
  `[4-byte big-endian length] [message]` for every message from there on, as they come.

## Modes

`ringlog server`, `ringlog producer`, `ringlog consumer [starting_offset]`; without an
argument a broker, a producer and a consumer run together as a demo.
