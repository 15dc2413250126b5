# shogun

The interface logic of a Three Kingdoms grand-strategy game, written in Verus:
each function states what it computes in `requires`/`ensures`, and Verus proves it.

- `src/` — the verified library. `game` holds the game world as the interface
  reads it; the other modules hold the logic of one part of the interface each:
  settings and shortcuts (`settings`, `shortcuts`, `keys`, `panels`), the map
  (`map`), faction and officer views (`faction_overview`, `faction_detail`,
  `officer_browser`, `officer_detail`, `city_list`), diplomacy (`diplomacy`),
  research (`technology`), events (`events`), orders under way (`orders`), the
  shrine and its kinship graph (`shrine`, `kinship`), officer editing and
  portraits (`officer_edit`, `portraits`, `portrait_tasks`, `image`), the
  new-game window (`new_game`), reports (`report`), tags (`tags`), the stable
  sort of table rows (`table_order`), asset paths (`assets`) and text
  utilities (`text`).
- `tests/` — tests on concrete values, run against the compiled library.
- `app/` — the start-up program: it reads and writes the settings file and
  finds the data directories, and hands plain values to the library.
