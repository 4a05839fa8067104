# stats-melee

A tracker for Super Smash Bros. Melee replays recorded by Slippi. It reads a
folder of replays into a database, lists and filters them, counts wins by
opponent, stage and character, shows a game frame by frame, and opens replays in
Slippi's Dolphin.

The logic is a library, `src/`, verified by Verus. Around it stands a program,
`app/`, in ordinary Rust: its window, its commands, and the files, programs and
database that it works with.

## The library

| Module | What it holds |
| --- | --- |
| `gamedata`, `models`, `ingest` | the facts of a game, its rows in the database, what is read and when |
| `analytics` | win rates by opponent, stage and character, favorites, the report |
| `replay_list`, `library` | the list of replays: its rows, their order, the filter |
| `dates` | day numbers, ISO dates, the date boxes and the histogram |
| `viewer` | a game on view: key moments and the bar of its frames |
| `app`, `pages` | the state of the program, and what each page says and does |
| `config`, `paths` | the settings, and where files lie |
| `slippi`, `render_worker` | how replays are launched, and how they are rendered |
| `icons`, `slippi_icons`, `app_icon` | colors and badges, icons out of the launcher's archive, the program's own icon |
| `text`, `textmap`, `order`, `json` | text, maps keyed by text, stable sorting, JSON documents |

Each public function states what it returns or changes. What holds of several
functions at once stands beside them as a public proof function, such as
`dates::written_dates_sort_by_day`, `library::ranges_go_by_day` or
`render_worker::renders_end`.

Few things are believed without proof: what `serde_json`, `image` and
`directories` return, and a few functions of `std` on strings and paths. Each
says so in its comment.

## The program

Without arguments the program opens its window. Its commands are `ingest`,
`playtime`, `populate`, `show`, `dummy`, `report` and `icon`. The commands find
their database by `DATABASE_URL`; the window by its settings.
