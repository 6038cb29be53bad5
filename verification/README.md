# trophy_bot

A Discord bot that lets server managers create trophies, award them to
members, and show scores, leaderboards and reward roles.

- `src/` is the verified library (Verus): every rule the bot applies —
  name normalization and rename planning, field validation, dedication
  parsing, edit plans, reward-role targets and role diffs, leaderboard views
  and pagination, button ids and press outcomes, debounce queues of the
  panel updaters, locale resolution, settings defaults, guild links,
  export records and the framework's error replies — with contracts and the
  laws that relate them.
- `app/` is the program around it: the Discord gateway and slash commands
  (poise, serenity), the database (sea-orm), Fluent catalogs, image files and
  the background panel loops. It hands the library plain values and carries
  out what the library decides.
- `tests/` runs the library on concrete values.
