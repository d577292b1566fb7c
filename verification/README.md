# maze_defence

A maze-building tower-defence game. The rules of the game live in a library
verified with Verus; the browser front end (Yew) sits around it.

- `src/` — the verified library: grid model and walks (`grid`), A* routing and
  the loop path (`pathfind`), map generation from given rolls (`worldgen`),
  the upgrade table, purchases and refunds (`upgrades`), the layout depths,
  visibility and hover chains of the upgrade web (`web`), run state and its reducer (`run`), interactable
  tiles (`interactable`), input decisions (`controls`), labels (`display`),
  best-run records (`records`), and laws that span several functions (`laws`).
- `tests/` — scenario tests on concrete values.
- `app/` — the Yew components, the real-time float simulation (enemy
  movement, projectiles, damage), randomness, and local storage.
