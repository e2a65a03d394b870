# Zombies: Escape the Horde

A top-down zombie shooter. The game rules live in a Verus-verified library
(`src/`); the Bevy application around it (`app/`) draws, reads input and runs
the continuous (floating-point) motion.

## Library (`src/`)

| Module     | What it holds |
| ---------- | ------------- |
| `grid`     | Tile and chunk coordinates of the endless map |
| `scene`    | The three environments and the scenario picker |
| `props`    | Prop kinds, collider sizes and toughness |
| `chunkgen` | Seeded generation of a chunk's walls and props |
| `world`    | The streamed map: loading, unloading, wall and prop lookup |
| `waves`    | Zombie stats, the type picker and the wave director |
| `arsenal`  | Weapon in hand, magazines, reserves, reloads and grenades |
| `limbs`    | Missing and severed limbs of zombies |
| `flow`     | Menu / options / play / game-over flow and the cheat toggles |
| `rng`      | The random draws, as trusted wrappers around `rand`, and the seeded generator |

Every public function states its result in `ensures`. Chunk generation
draws from a `StdRng` seeded with the world seed mixed with the chunk key;
each of its draws is named as a function of that seed and the calls made
before it, so `gen_chunk` states its exact output (`spec_gen_chunk`) and a
chunk streamed in again is the same chunk. Draws from the thread-local
generator (limb and zombie-type picks, a fresh world's seed) state what holds
of every draw, and a verified function maps given draws to the result where
one exists. The laws that tie several functions together are public proof
functions (`lemma_*`).

## Application (`app/`)

Bevy systems for the player, zombies, combat, HUD and menus. They keep the
floating-point state (positions, timers, health) and call the library for
every discrete decision.

## Tests (`tests/`)

Concrete scenarios for each module, run against the compiled library.
