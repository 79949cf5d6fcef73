# tarpc-fory

Apache Fory transport for `tarpc` services, with a framing that carries a bulk
payload beside each message. The library in `src/` is verified with Verus;
`app/` is the asynchronous code around it.

The payload travels without being copied. On the send side it is proved that
the sink queues and keeps the very buffer it was given, and offers parts of it.
On the receive side it is proved that the payload and the envelope are pieces of
the very buffer received, cut by truncating, splitting and freezing. That these
methods copy nothing is what the documentation of `bytes` says;
`tests/zerocopy_codec.rs` checks it on addresses.

## Wire format

```text
[ length: u32 BE ][ envelope ][ body ][ body_len: u32 LE ]
```

The length counts everything behind it and is at most 64 MiB. A body length of
zero stands for "no body".

## Layout

| Module | What it holds |
|---|---|
| `zerocopy` | the layout of a frame: encoding it and taking it apart |
| `codec` | the zero-copy codecs of the server and of the client |
| `sink` | the vectored-write sink: chunks, cursor and the decisions of a flush |
| `transport` | the envelope codec of the classic transport |
| `listener` | the decisions of the accept loops, what handshakes yield, the halves of a connection |
| `registry` | the Fory registry of a service |
| `envelope` | wire numbers of error kinds, server errors and trace contexts |
| `error`, `text` | errors with their kinds and messages |
| `endian` | 32-bit numbers as bytes |
| `buffers`, `delimited` | what is assumed of `bytes` and of `tokio-util` |
| `laws` | what holds of sending and receiving frames |
| `round_trip` | what comes back of the messages that the codecs are given |

What is believed without proof is stated in `buffers`, `delimited` and
`registry`, next to the function of the outside crate that it is about.

Fory serialises types through a trait of its own. The codecs therefore take
Fory's entry points as arguments: functions from the registry and a message to
its bytes, or from the registry and bytes to a message.
