# velokvm

The transport layer of a software KVM, verified with Verus: a 16-byte motion packet on a fast
path, and a clipboard transfer protocol on a stream of its own, both under
`Noise_IK_25519_ChaChaPoly_BLAKE2s`.

The library in `src/` holds no socket, file or thread. Bytes go in and out, and every function
states what it does with them. `app/` puts it on sockets: the clipboard service with its `genkey`,
`serve` and `push` commands.

| Module | What it holds |
| --- | --- |
| `protocol`, `anti_replay`, `transport` | the motion packet, the replay window, the fast path |
| `clipboard`, `reader`, `assembler`, `session` | messages, decoding, reassembly, the receiving side |
| `frame`, `channel`, `handshake` | frames on a stream, the sealed channel, both ends of the handshake |
| `noise` | the `snow` crate behind contracts: all that is trusted of it |
| `allowlist`, `keys`, `hex` | which keys may connect, making keys, keys as text |
| `args`, `address`, `serve`, `push` | the command line and what it asks for |
| `delivery` | what a push and a receiving session promise together |
| `bytes`, `text` | integers as bytes, strings as characters |

Laws that relate several functions are the proof functions named `law_..`. Among them: decoding
inverts encoding; no sequence number passes the replay window twice; a push arrives whole or not
at all; a station on the allow list docks and any other gets no answer.
