# WorldPumpkin

World editing for Pumpkin servers: two-corner selections, `//set`,
`//replace` and `//walls` edits that run a bounded number of blocks per
server tick, per-player undo and redo, configurable limits and an update
check.

## Layout

- `src/` is the verified library. Every function carries a contract that
  Verus proves:
  - `text`, `numbers`: character-level text handling and decimal numbers,
    with the exact results of the standard library's parsing and formatting.
  - `geometry`: block positions, selections and cuboids, the order a cuboid
    is walked in and the blocks on its walls.
  - `pattern`: block-state names, the table that resolves them, and weighted
    block patterns.
  - `history`, `engine`, `state`: recorded changes and their replay, queued
    edits driven step by step through server ticks, and per-player selections
    and histories within the configured limits.
  - `config`: the settings, `config.toml` and the permission nodes.
  - `selection`, `commands`, `suggestions`: what the commands make of their
    arguments, the checks an edit passes before it is queued, completion of
    block names, and the messages players see.
  - `updater`, `messages`, `writes`: update checks, coloured chat messages and
    the flags of world writes.
- `app/` is the plugin around the library: registration with the server,
  world reads and writes, files, the network request of the update check.
- `tests/` exercises the library on concrete values.
