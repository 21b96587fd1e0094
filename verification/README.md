# openbook

The logic of an order-book trading terminal, verified with Verus: signals from
the book and the trade flow, a strategy with its risk rules, the exchange's
signed requests and replies, named layouts of a dock tree, and everything that
the screen shows, from the tape to the depth heatmap.

## Layout

- `src/` is the library. Every function in it is verified, but for the wrappers
  of outside calls named below, whose contracts are believed.
  - `arith` – numbers. The logic is written for any type of number; whoever
    calls it supplies the arithmetic, and contracts speak of a model of it.
  - `text`, `json`, `signing` – strings, JSON values, signed queries.
  - `signal`, `bars`, `strategy_config`, `strategy`, `report`, `pipeline` – from
    the market to samples, bars, decisions and trades.
  - `execution`, `exchange`, `account` – the exchange: requests, replies, log,
    fills and round trips.
  - `dock`, `workspace`, `layouts`, `desk` – panes, layouts and the layout menu.
  - `tape`, `picker`, `ladder`, `panel`, `charts`, `slices`, `geometry`, `lens`,
    `heatmap`, `pointer`, `perf` – what the panes show.
  - `session`, `snapshot`, `terminal` – connection, snapshots and the terminal
    as a whole.
- `tests/` runs the library with `f64` and `f32` and the real outside crates.
- `app/` is the window: drawing with `egui`, settings, log files and HTTP. A
  program supplies the market feed through the `Feed` trait.

## Contracts

A contract over numbers reads "for every model that describes the arithmetic
supplied, the result is …". Laws that relate several functions are public proof
functions whose names start with `law_`.

What is believed without proof are the calls into `egui_tiles`, `serde_json`,
`hmac`, `sha2`, `hex`, `percent-encoding` and a few functions of the standard
library; each is a small function with a contract and a comment that says what
it claims.
