# Texas Hold'em in the terminal, verified

A Texas Hold'em game for the terminal: against bots on one machine, or with friends over
the local network. The game's logic is a library written in Verus, with every function's
behaviour stated in its contract and proved; the program around it handles the terminal,
the network and the bots' floating-point odds.

## Layout

- `src/` — the verified library (crate `engine`):
  - `card`, `deck`, `evaluator`: cards, the deck (shuffled with `rand`), hand ranking.
  - `rules`: the rules of a hand as spec functions over a model of the table.
  - `state`: `GameState`, whose operations are proved to follow `rules`.
  - `laws`: properties across operations (chips and cards are conserved, the turn goes
    to a player who can act, phases only move forward, rooms never overflow, blinds
    follow their schedule, ...).
  - `progress`: every accepted action, and every bot turn, moves a hand forward by a
    measure that cannot fall for ever, so hands end.
  - `ai`: Monte Carlo deals used to estimate a hand's chances.
  - `text`, `i18n`, `event_logger`, `screen`: texts in both languages, the action log and
    the screen's lines.
  - `app`, `client`, `local`: the client's screen state and what each key and each
    server message does to it; the local game's decisions.
  - `net_messages`, `server`: the messages and the server's rooms and answers.
- `tests/`: tests of the library.
- `app/`: the program — menus, terminal drawing, TCP and UDP, JSON on the wire, and the
  bots' odds in floating point.
