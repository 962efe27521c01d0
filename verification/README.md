# matrix-osu-bot

A Matrix bot that answers chat commands (`!user <name>`, `!james`) with an
osu! player's profile card, auto-joins rooms it is invited to, and lets its
admin confirm interactive device verification by comparing emojis (`!sas yes`
/ `!sas no`).

- `src/` is the verified library (Verus): command parsing and dispatch,
  typed command arguments, the shared command data, embed rendering (plain
  text and escaped HTML), number formatting and parsing, settings and paths,
  the profile embed, the decisions of the verification, auto-join and sync
  handlers, and the `command` attribute: how it reads a handler's signature
  into a plan, and how the generated handler fills the parameters from the
  words of a message and the command data. Laws are stated as `law_*` proof
  functions.
- `app/` is the program: environment, files, the Matrix client and the osu!
  API client, the loops that perform what the library decides, and the
  command handlers, each built from the plan of its signature.
- `tests/` exercises the library on concrete values, and checks number
  grouping, integer parsing, trimming and splitting against `num-format` and
  the standard library.
