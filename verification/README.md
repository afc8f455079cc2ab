# wingsvd

An optional root helper for Android. It owns the kernel routing state of a VPN app, so that
the routing outlives an app that the system kills, and can be taken down whenever a client
asks for it.

- `src/` is the library. It decides what the daemon accepts, what it runs and what it answers,
  and every decision is proved against its contract with Verus.
- `app/` is the daemon and its command line around the library: sockets, threads, processes and
  files.
- `tests/` runs the library on concrete values.

The library never touches the system. Where the daemon alternates decisions with work on the
system, a function of the library takes what came of the last action and says what to do next:
`session::dispatch` for requests, `serve::serve` for connections, `routing::apply` and
`routing::clear` for routing commands, `netlink::dump_step` and `netlink::wait_for_change` for
route sockets, `wire::read_frame` for frames, `cli::run` for the command line.

| module     | what it decides                                                        |
|------------|------------------------------------------------------------------------|
| `session`  | who may talk to the daemon, what it believes it installed, its answers  |
| `serve`    | the life of one connection                                              |
| `routing`  | the commands that install and remove routing, and the byte counters     |
| `children` | which programs may be started, and which ones are running               |
| `netlink`  | which changes of the network matter, and the default routes             |
| `packages` | the app's user number                                                   |
| `wire`     | frames                                                                  |
| `cli`      | `wingsvd status` and `wingsvd stop`                                     |
| `log`      | the rotating log                                                        |
| `rootd`    | the messages as plain values                                            |
| `addr`, `text` | texts and numbers                                                   |
