# aggregate

The verified core of the Aggregate nation-simulation client, written in Verus.

`src/` holds the client's logic with contracts that Verus proves:

- `world`, `snapshot_index`: the committed world snapshot, content definitions and
  day reports as plain values, and the lookup tables built once per snapshot.
- `session`, `playback`, `worker`: the management session as a state machine
  (which requests go to the simulation worker, which construction targets await
  an answer, how answers are committed, how news is kept), wall-clock pacing of running time, and the worker's batch decisions.
- `construction`, `production`, `queue`, `labels`, `lists`, `presentation`: where
  construction goes, what a territory produces, the construction queue, the
  paged province list, and the values behind the management and inspection panels.
- `interface`, `setup`, `inspection`, `outliner`, `notifications`, `lettering`: the
  interface state, the world setup dialog, the map's inspection panel and outliner,
  toast notifications, and the grouping of land before a country's name is lettered.
- `flags`: which image shows a country's flag.
- `asset`: the structural asset document and its schema version check.
- `text`, `order`, `identity`: the order of strings, ordering by name, and UUID text.

`app/` is the program around it: reading and writing RON asset documents and the
flag mapping, the
worker thread, and the floating-point map coordinates. `tests/` runs the library
on concrete worlds.
