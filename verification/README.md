# Jordquest

A multiplayer hack-and-slash game: players fight for points in a randomly
generated arena with camps of enemies, over a UDP listen server.

`src/` is the game's logic as a library verified with Verus:

- `buffers`: the ring of per-tick values every entity keeps;
- `wire`, `packets`: the byte layout of the datagrams and their encoders and
  decoders;
- `net`: the host's client table and what host and client do with each
  datagram they receive;
- `map`, `noise`, `camp`, `minimap`: map generation on the tile grid, the
  noise permutation table, camp plans, and the minimap picture;
- `enemy` (with the private `heap`): grid path finding for enemies;
- `player`, `combat`, `components`: attacks, damage, life and death, enemy
  bookkeeping and scores;
- `menus`, `text`: the menu fields and switches, and decimal numbers;
- `rng`: the draws taken from `rand_chacha` generators seeded with the map
  seed, each a named function of the seed and the stream position, so that
  host and clients derive the same map and camps; and the thread's generator
  for the random seed of the menu.

`app/` runs the game headless on bevy's ECS (the command line stands in for
the menu pages): sockets, timers, and everything in floating point (Perlin
noise, positions, distances, angles, the shape of the camp "eggs") live
there; the integer rules and the seeded draws they use come from the library.

`tests/` exercises the library on concrete values.
