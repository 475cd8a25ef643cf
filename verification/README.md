# bpsr_tools

Tools for Blue Protocol: Star Resonance, built around a packet-capture
pipeline: a DPS/healing meter with an encounter archive, chat alerts (raid
warnings, countdowns), threat and cooldown tables, a boss-timer client, a
module optimizer and an auto-fishing bot.

The library under `src/` is written in Verus: every function carries a
`requires`/`ensures` contract and is verified. The program around it, under
`app/`, is ordinary Rust: packet capture, protobuf decoding with prost, files,
the network, screen capture and input for the fishing bot.

## Layout

- `transport`, `session`, `frames`, `wire`, `blob`, `pb`, `opcode` — from an
  Ethernet frame to game events: TCP segment parsing (etherparse), stream
  reassembly, frame splitting with zstd bodies, varints and field parsing,
  and the routing and parsing of each notify.
- `event`, `event_text`, `state`, `zones`, `tables`, `attrs`, `labels`, `text` —
  the event types and their log lines, game state, zone names, data tables
  and display labels.
- `meter`, `encounter`, `dps_state`, `tracker` — the damage meter: per-entity
  counters, encounters, the encounter life cycle around dungeon signals, and
  the meter's update step (benchmarks, deaths, shields, phases, saves and
  reports).
- `saved`, `store`, `history`, `packet_log`, `webhook` — what is kept of an
  encounter, the archive's listing and cleanup decisions, the history
  detail table, the packet log text and report de-duplication.
- `chat`, `threat`, `cooldown`, `bptimer` — chat log, threat table, cooldown
  tracker and boss-timer board.
- `optimizer`, `preset` — the module optimizer (a beam search whose runs are
  described by `beam_trace`) and its preset codes.
- `bot`, `fishing`, `window` — the fishing bot as a state machine, its text
  readings and game-window lookup.
- `stats`, `seqs` — pipeline counters and sequence lemmas.

## Tests

The tests under `tests/` exercise the library from outside, with the real
outside crates linked.
