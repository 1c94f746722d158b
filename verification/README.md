# drydock

What's uncommitted, unpushed, and unreleased across every repo you own.

`src/` is a verified library: it reads what git and the hosting providers' tools say,
works out the state of a repo, decides what a walk, a sweep and a sync do next, filters
and sorts the result, and lays it out as tables. Its functions carry contracts that Verus
proves; the `law_` functions state what holds between them. The few calls into other
crates stand in `paths`, `glob`, `config` and `text`, each behind a function whose
contract is believed rather than proved, with a comment that says what it claims.

- `model`, `git`, `porcelain`, `gitconfig`, `release`: one repo, from what git says of it
- `discover`: finding repos on disk
- `probe`, `cache`, `hold`: when to look again, and what is remembered
- `org`, `sync`, `provider`, `gh`, `gitlab`, `gitea`, `paging`: owners and their repos
- `filter`, `column`, `table`, `report`, `detail`, `view`, `fmt`: what is shown
- `commits`, `changes`, `patch`: the history of one repo
- `cli`, `commands`: what each command says
- `config`, `duration`, `paths`: settings
- `text`, `number`, `names`, `order`, `pathname`, `lists`, `glob`, `tool`: the ground floor

`app/` is the command itself: it walks directories, runs `git`, `gh`, `glab` and `tea`,
and reads and writes the config, the cache and the holds. `tests/` runs the library on
concrete values.
