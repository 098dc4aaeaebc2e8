# my_redis

A Redis connection over tokio, with its logic verified by Verus.

- `src/` is the verified library: the read buffer (`buffer`), the wire
  encoding of frames (`frame`), the decisions of the reading loop and the
  glue to the frame parser of `mini_redis` (`connection`), where that
  parser would panic (`scan`), and the state
  machines of the hand-written futures and streams of the runtime demos
  (`delay`, `interval`, `select_loop`). Time is counted in nanoseconds from
  an origin that the caller keeps.
- `app/` runs the I/O: the `Connection` over a `TcpStream`, and the demos of
  tokio's tasks, I/O, `select!`, futures and streams, one per subcommand.
- `tests/` exercises the library on concrete values.
