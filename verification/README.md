# banqi-collector

A collector for distributed self-play training of banqi (dark chess). It asks a scheduler for work,
plays games with the network that it was handed, and uploads what it recorded.

- `src/` is the verified library: everything that computes and decides, stated in contracts and
  proved with Verus.
- `app/` is ordinary Rust around it: the command line, files, sockets, threads, and the calls into the
  game engine (`banqi-core`) and the inference backend (`banqi-engine`).
- `tests/` runs the library on concrete values, with the outside crates linked.

## The library

| Modules | What they hold |
| --- | --- |
| `bits`, `wire`, `text`, `paths` | bit packing, little-endian words, the message format, texts and paths |
| `episode`, `search`, `finalize` | recorded games, and how the steps of a search become one |
| `frames`, `features`, `codec`, `nnue_codec`, `records`, `batch` | training records and batches as bytes |
| `codec_error`, `messages` | why a game cannot be encoded, and what to tell people |
| `reading`, `recovery` | what a reader gets back from the bytes |
| `upload`, `integrity` | compressed batches, reports about them, content checks |
| `task`, `registry`, `meminfo` | replies of the scheduler, networks and reports in progress, free memory |
| `batched`, `outcome` | many games in lock step, and how games ended |
| `reanalysis`, `reanalysis_payload` | searching old positions again |
| `rule_opponents` | the fixed opponents of an evaluation |
| `config`, `collector` | layered configuration and the main loop |

Single-precision numbers are held as their bit patterns; no floating-point arithmetic happens in the
library.
