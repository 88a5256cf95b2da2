# hive_hydra

A bot that plays Hive on hivegame.com: it polls each bot account's games,
hands every new turn to the bot's AI engine, and remembers the turns it has
seen so that none is answered twice.

- `src/` is the library, verified with Verus:
  - `hashing`: the hash that identifies a turn (`calculate_hash`).
  - `turn_tracker`: the record of turns in work and of turns answered
    recently, with its retention cleanup (`TurnTracker`, `TurnTracking`,
    `cleanup_old_hashes`) and the laws that relate its operations.
  - `game_turn`: which games become turns (`collect_turns`), with the laws
    that no turn is handed out twice and that a repeated collection is empty.
  - `config`: the settings types and the per-bot API key override from the
    environment (`Config::apply_bot_env_overrides`).
  - `game_monitor`: the server program's decisions: which fetched games
    start a task (`games_to_start`) and what a game's task sends
    (`move_to_send`).
  - `hivegame_bot_api`: the game type, its engine line, the request URLs and
    headers, and the status check of the API.
- `app/` is the program: settings loading, logging, the HTTP client, the
  engine processes and the tokio tasks that drive the library; `app/server.rs`
  holds the game monitor's polling loop.
- `tests/` runs the library on concrete values.
