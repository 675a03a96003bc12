# rosrust

The logic of TCPROS, the ROS transport over TCP, verified with Verus.

- `src/wire.rs`: integers and strings on the wire.
- `src/stream.rs`: bytes that have come in and are not yet read.
- `src/header.rs`: connection headers.
- `src/error.rs`: what can go wrong, and how it is reported.
- `src/channel.rs`: the channel over which publishers are announced.
- `src/subscriber.rs`: the subscribing side of a topic.
- `src/service.rs`: the offering side of a service.
- `app/`: the same over real sockets and threads.

The library does no input or output. Where the protocol goes back and forth, a
function takes the event that has happened and gives the action to take next;
`app/` carries the action out and hands back the next event.
