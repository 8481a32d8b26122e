# cremeux

A Discord bot that keeps the scores of a server's members in an Airtable
table. The library, in `src/`, holds what the bot decides and computes, with
contracts proved by Verus:

- `decimal`: reading and writing decimal integers with std's rules and errors;
- `airtable`: the rows of the score table, how a user's row is found, and the
  row that a score change writes;
- `commands`: the leaderboard order and text, and the `score`, `set` and `add`
  commands;
- `handle_reaction`: the points that medal reactions give;
- `color`: the colours of the embeds;
- `score`: scores kept in memory.

`app/` is the bot itself: it talks to Discord through serenity and to the
table through airtable-api, and hands the library plain values.
