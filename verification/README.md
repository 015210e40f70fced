# character_guessr

The verified core of an anime-character guessing game server. Players guess a hidden
character; each guess is answered with feedback on the guessed character's works, years and
tags; multiplayer rooms run rounds with teams, synchronised turns and a non-stop mode.

- `src/` is the library, written in Verus: every function carries a contract that the
  verifier proves. `gameplay/` holds the rounds (guesses, attempt limits, timeouts, winners
  and scores, synchronised and non-stop play, tag bans, the lobby rules); `feedback`,
  `payload` and `tally` compare guesses and build character payloads; `search`,
  `search_request` and `ranking` read search requests, prepare keywords and order what the
  full-text index found; `images` keeps local WebP copies of remote images; `infobox` and
  `catalog` read the data dump; `limiter`, `records`,
  `rooms`, `cache`, `outbox` and `actor` hold the rules of the HTTP and socket layers;
  `builder` holds the archive builder's command line and filters, `dump` and
  `archive_dump` read the data dump's lines (works, roles, voice actors, image sources).
- `tests/` runs the library on concrete cases.
- `app/` is the server program around the library: configuration from the environment, the
  SQLite stores, the HTTP routes (the archive search reads the full-text index there, the
  image routes fetch and store the WebP copies), the comparisons made on floating-point
  values, and, when given the builder's arguments, its `migrate-app` step.
