# dungeon_crawler_world

The rules of a dungeon-crawler game, written in Verus and proved against
their contracts.

`src/` is the verified library:

- `console` — the developer console: number recognition, tokenizing and
  line highlighting, command-line parsing, the console's log/input state,
  and the command registry with every command's answer.
- `inventory` — a bounded inventory of stacked items.
- `new_save`, `saves`, `save_menu` — the rules a save name must meet, the
  folder it is stored under, how saves are listed, renamed and inspected
  from their `save.json` texts, and the save menu's state machine.
- `json` — the one JSON field reader the saves and skills listings use.
- `settings`, `ui`, `preview`, `input`, `skills` — settings defaults and
  labels, the menu state machine, the preview windows and their registry,
  key-binding capture, and the skills gallery (filter, order, pages) and
  how a skill's name and description are chosen.
- `terrain`, `terrain3d`, `world` — the chunked labyrinth (passages, chunk
  ownership, neighbourhoods), Kruskal's selection over a union-find forest,
  and which cell a player may walk into.
- `sorting`, `text`, `version_checker`, `logger`, `player`, `grid`,
  `random`, `items` — shared text helpers and ordering, update checks, log
  lines, and small data types.

`app/` is the executable shell around it: disk and network access, the
`serde` forms of the library's types, the logger, floating-point time
draws, and a text front end to the developer console.

`tests/` runs the library on concrete values.
