# libparticleverse

The game logic of a Godot particle toy, with its contracts and proofs.

- `src/tilefg.rs`: falling sand on the foreground tile map. Each sand tile
  has its ring of eight neighbours rotated by a compass direction (the one
  in which the tile lies as seen from the origin, which `app/` finds with a
  floating-point angle test), so that "down" points back at the origin, and
  moves into the first empty one of down, down-left and down-right. The file
  proves that sand only moves into empty neighbours, and that whenever the
  rotation lies less than 45° from the tile's own direction the sand moves
  no farther from the origin, and strictly closer when the tile straight
  down is empty. Which direction the angle test in `app/` picks is not
  proved here.
- `src/sandmap.rs`: a whole tick of the sand rules on a model of the map,
  with the proofs that a tick conserves every tile and moves each tile at
  most one cell.
- `src/rotation.rs`: the left rotation of the neighbour ring and its laws.
- `src/spacemagic.rs`: the grid on which the gravity particles start.
- `src/tilebg.rs`: the stateless background tile map.
- `app/`: the Godot classes, the engine calls (tile reads and writes,
  physics server, drawing), the floating-point angle that picks the
  rotation, and the floating-point gravity and drawing code.
