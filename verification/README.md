# game_center

A verified library for a terminal game center: Tic-Tac-Toe, Connect 4,
Checkers, Chess and Snake, played against bots or online through a server
with rooms, rematches and accounts. Every function in `src/` carries a Verus
contract and is proved against it.

## Layout

- `src/`: the library, verified by Verus.
  - Games: `tictactoe`, `connect4`, `checkers`, `chess`, `snake` (with
    `snake_delta` for replaying server ticks), `turn_based`, and the integer
    rules of `blockbreaker`.
  - Server: `lobby`, `room`, `handler` (answers to client messages),
    `frames` (what one incoming frame does), `lifecycle` (connection
    opening, idle timeout, caps, registry and disconnect), `session`,
    `rate_limit`, `password` (Argon2), `tokens`, `version`, `messages`.
  - Client: `client_app`, `client_input` (keys and network events),
    `client_config`, `connection`, `i18n`, `terminal_fit`, `history`.
  - Outside calls (uuid, rand, argon2, toml, dirs, the clock) stand behind
    small trusted wrappers whose contracts say what their sources show.
- `tests/`: tests run against the compiled library.
- `app/`: a thin program around the library: encoding and decoding of
  messages, files, floating-point Block Breaker physics, and the steps that
  need I/O.
