# greeter

A gRPC greeter server whose protocol and scheduling are verified with Verus.

A client asks `helloworld.Greeter/SayHello` with a name and is told `Hello` and the name,
over HTTP/2 on port 50051.

## Layout

`src/` is the verified library. It does no I/O: it is told what happened to a socket and
says what to do next.

- `bytes_be`, `wire`: integers in network byte order and HTTP/2 frames
- `headers`: header blocks and their framing, around `hpack`
- `protobuf`, `hello`: the messages, around `quick-protobuf`
- `buffer`, `table`: the collections of `bytes` and `rustc-hash`
- `error`: what ends a connection
- `client`, `client_laws`: one connection, from received bytes to queued replies
- `server`: the connections of one worker
- `parking`, `async_io`, `io_laws`: who waits for which socket under each I/O strategy
- `runtime`: the executor of one thread
- `config`: the command line and the environment

`app/` is the program around it: sockets, the poller, io_uring, threads and wakers, for one
server without async code and for servers on several async runtimes.

## I/O strategies

- `epoll`: epoll and the non-blocking socket API
- `uringpoll`: io_uring in place of epoll, and the non-blocking socket API
- `async`: io_uring alone
- `hybrid`: the non-blocking socket API first; where that fails, io_uring

`greeter minimum -m hybrid` serves with the last one. `RUSTMAXPROCS` sets the number of
workers.
