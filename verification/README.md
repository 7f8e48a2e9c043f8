# tokio_udp_demo

A bridge between one UDP client and a slot-addressed driver, an interactive
client for it, and a latency benchmark with a server and a client.

`src/` is a library, verified with Verus, that holds what the programs decide,
encode and count:

- `session`: which client a server is talking to, and when it lets it go
- `bridge`: the session between the client and the driver; the mock driver
- `bench_server`: the session of the benchmark server; its messages
- `bench_client`: a run of the benchmark client
- `stats`: counters, latency samples, percentiles and reports
- `double`: whole numbers as double-precision arithmetic rounds them
- `wire`: the fixed-size messages
- `clock`: wall time and monotonic time
- `args`: command-line options
- `client`: what a line typed by the user asks for
- `csv`: the final report as a file

`app/` holds the sockets, timers, channels and logging around it. Microseconds
are shown as floating-point numbers there; the library counts nanoseconds.

The functions named `law_...` state what holds of the library as a whole.
