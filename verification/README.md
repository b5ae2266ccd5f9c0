# arch-live

A live architecture view of the Node.js and Bun services running on a
machine: which processes listen where, which services call which, how many
requests reach each port, and (with `--tap LISTEN:TARGET`) every HTTP request
that passes through a small reverse proxy.

The logic is a Verus library, `arch_live`, whose functions carry contracts
that Verus proves:

- `text`: character helpers (words, lines, prefixes, number parsing) with
  specifications of what `str` does.
- `collector`: the parsers of `/proc` entries, `/proc/net/tcp[6]`, and the
  output of `ps`, `lsof` and `netstat`; runtime and framework detection; the
  service name of a process.
- `analyzer`: the state kept between snapshots (counters per edge, port and
  path, the previous connection set, the request log) and how each snapshot
  or request updates it; `analyzer::laws` holds what holds across calls.
- `renderer`: the view state (selection, filter, event log) and the live
  events a new snapshot brings; `renderer::display` decides what the panels
  show.
- `tap`: what the proxy forwards and reports.
- `cli`: the `--tap` option.

`app/` is the program around it: command-line parsing, reading `/proc` or
running `ps`/`lsof`/`netstat`, the tokio tasks, the hyper proxy, the ratatui
screen, and the rate and duration labels, which are computed in floating
point.

The analyzer keeps its tables (edges keyed by a pair of pids, ports, paths
keyed by text) as vectors of key/value pairs with unique keys, read as maps
through `map_of`. Its updates walk every entry in place (eviction, pruning of
idle edges, refreshing open-connection counts) and its snapshots list the
entries in a fixed order; the `HashMap` specifications of vstd cover lookup
and insertion with integer keys, not those walks, nor tuple or text keys.
The previous tick's connections are a `HashSet<u32>` of port pairs.
