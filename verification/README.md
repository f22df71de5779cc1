# parcello

A property-trading board game engine whose rules are proved with Verus.

The engine takes a game state and a player command and returns the next
state and the events describing what happened. Every command is either
refused with the reason, leaving the state untouched, or applied in full;
randomness comes from a generator stored in the state, and a game's opening
is fixed by its seed.

## Layout

- `src/` is the verified library.
  - `lib.rs`: `Engine`, the entry point (`new_game`, `apply`,
    `finish_on_time`), and the re-exported specifications its contracts use.
  - `state.rs`, `state/`: the game state, its mathematical model
    (`GameModel`), well-formedness, bounds and the shared building pools.
  - `apply.rs`, `apply/`: the command pipeline and its handlers (movement,
    landings and cards, auctions, trades, estate actions, jail, turn flow,
    win conditions), each specified over the model.
  - `content.rs`, `tuning.rs`: board and card definitions, rule parameters,
    content validation.
  - `strategy.rs`: the substitutable rent and liquidation rules and their
    standard implementations.
  - `view.rs`: the per-seat view that hides private information.
  - `bot.rs`: the built-in player's decisions on a view.
  - `console.rs`: the line parser of the terminal client.
  - `mods.rs`: version checks and the layered content registry of mods.
  - `protocol.rs`, `command.rs`, `event.rs`, `error.rs`: message, command,
    event and error types.
- `tests/`: tests of the library on concrete games.
- `app/`: the terminal client: command line, websocket session, screen
  output, mod loading from disk and the serde copies of the wire types.

The properties that span several operations (building then selling,
mortgaging then redeeming, trades, bribes and payments keeping the table's
cash, the opening fixed by the seed, the bot's bid bounds, the mod registry's override
rules) are public proof functions named `law_*`.
