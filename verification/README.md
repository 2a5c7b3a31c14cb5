# GhostPort

Encrypted, NAT-traversing port forwarding: a server that can be reached, a client
that only ever dials out, and links between them in either direction, over a
`Noise_KK` handshake with pinned keys.

- `src/` is the library, verified with Verus. It holds the validation of
  configurations, the matching of peers, the limiter in front of the handshakes, the
  decisions of both roles about their connections, counters and snapshots, the
  command line's and the console's texts and state, the metrics, and the firewall's
  reading of the log.
- `app/` is the program around it: arguments, files, sockets, child processes and
  the terminal. It makes no decision of its own.
- `tests/` runs the library.

## What is proved

Every function of `src/` has a contract, and laws that span several functions stand
beside them as public proof functions named `law_...`. Among them: a configuration
is valid exactly if nothing is wrong with it, and a valid one has all that its role
needs; a link that both sides are configured for carries a connection from one end to
the other; a peer only gets the targets of, and the connections parked for, links that
it is allowed to use; a reverse stream is paired with the connection that waited for
it, once; no address gets more than ten handshakes a minute; a fingerprint tells
digests apart; messages are received as they were sent, one per read and in order; the
lines that the daemon prints about rejected and failed handshakes are the ones that the
firewall recognises; protected and allowlisted addresses are never banned, and any other
one exactly when a connection of it is refused or its failed handshakes since its last
ban fill the threshold within the window; editing links never writes an invalid
configuration.

## What is trusted

Calls into `snow`, `base64`, `sha2`, `regex`, `cybercore` and a few functions of the
standard library stand behind small functions whose contracts are believed. Each says
above itself what it claims of the function that it calls.
