# core_sim

The rules of a turn-based grand strategy simulation, verified with Verus.

- `src/` is the library, all of it verified by Verus. Every public function in it carries
  a contract (`ensures`, with `requires` where it has inputs to exclude) that Verus proves: map geometry and tiles, fog of war, coast shaping, turn order and
  the step-by-step turn loop, action queues, production queues, capitals and cities,
  diplomacy treaties, chunk streaming, event bookkeeping, the AI's task networks and
  world states, breadth-first search on the map, founding civilizations, and save-file
  checks. Calls into `rand` and `std`'s hasher sit behind small trusted wrappers whose
  contracts say only what those crates document.
- `app/` is ordinary Rust around the library: everything with floating-point numbers
  (personalities, utility scoring, goal planning, movement costs, cost-based path
  searches, influence maps, production progress, map generation), file I/O and serde
  formats, logging, and the glue of the per-turn systems.
- `tests/` exercises the library on concrete values.
