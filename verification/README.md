# quorums

A framework for building fault-tolerant distributed systems around the
**quorum call**: one logical RPC that fans out to all nodes in a configuration,
collects responses, and lets the caller decide how many must agree before the
call succeeds (`first`, `majority`, `all`, `threshold`, or a quorum function of
its own).

The library in `src/` is written in Verus. It holds everything the framework
decides and computes, and its functions are verified against their contracts.
What it takes from outside is trusted as stated: the four wrappers of tonic's
status in `status`, the one that fires a token in `health`, and the declared
functions and types of tokio, tokio-util, prost and the standard library
(`sync`, `error`, `health`, `text`, `codegen`). The runtime in `app/` waits, connects and spawns tasks: it hands each thing
that happens to the library and does what the library says.

## Layout

| Module | What it holds |
|--------|---------------|
| `call_types` | what is sent for each call type, to whom, and what its result is |
| `responses`, `ordered_responses`, `correctable` | collectors that aggregate replies, and their laws |
| `config`, `manager`, `node` | configurations and their views, the connection pool, nodes and contexts |
| `channel`, `router` | send queue, sequence numbers, pending calls, connection state |
| `server`, `ordering` | dispatch and replies, and the order of dispatch on a stream |
| `interceptor`, `health` | chains of interceptors, probing |
| `codegen`, `method` | the code generator and the typed method handles |
| `message`, `error`, `status`, `table`, `text` | envelopes, errors and the small pieces they are made of |
| `record` | ends of channels that keep a record of what was sent or shown |
| `sync` | the tokio channels and tokens that the library calls |

## How a call runs

A call is three steps around two waits. The library says what the interceptors
are told; the runtime runs them. The library builds the request, numbers it and
puts it into the send queue of each node; the runtime carries it and waits. Each
reply, the end of the replies, or a cancellation is then an event for a
collector, which either waits for more or is done.

```text
quorum_call ──▶ Responses ──majority()──▶ (FanOut, Threshold)
                                               │        ▲
                                  send_twoway  │        │ on_event
                                               ▼        │
                                            replies ────┘
```

What a collector returns is stated over the whole history of replies: a
threshold of `k` succeeds exactly when `k` replies have succeeded, with the
first of them; an ordered call returns the value of the lowest position; a
correctable call counts distinct nodes.
