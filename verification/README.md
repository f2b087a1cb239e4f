# gpui_scene

The scene graph of a GPU-drawn user interface, written and proved in Verus.

A `Scene` takes primitives (shadows, backdrops, quads, paths, underlines, sprites, surfaces) in
painting order and gives each a draw order, such that what is painted later over the same area is
drawn later. Stacking layers share one order. Filtered layers are drawn offscreen, put through a
filter and composited back; each claims a range of orders that nothing outside of it shares. Once
a scene is finished, it is handed to the renderer as batches: runs of one kind that can be drawn
with one call and that never cross the edge of a filtered layer.

Everything is generic over the number type. The library has fixed-point and whole numbers
(`fixed`, `whole`); `app/` brings hardware floating point.

## Layout

- `src/`: the library
  - `scalar`, `fixed`, `whole`, `geometry`, `color`, `atlas`, `transform`, `path`, `primitive`,
    `filter`: what scenes are made of
  - `bounds_tree`: draw orders
  - `scene`, `chain`: scenes and their layers
  - `sort`, `batch`, `decimal`: drawing order, batches, and their names
  - `platform`: the choice of a backend
  - `arithmetic_laws`, `layer_laws`, `path_laws`, `painting_laws`, `scene_laws`, `filter_laws`,
    `replay_laws`, `batch_laws`, `label_laws`, `frame_laws`: what holds of the library as a whole
- `tests/`: its tests
- `app/`: the library in ordinary code, with floating point, logging, serialization and the
  selection of the platform at build time

## What is not proved

Two things are stated and believed: what a few methods of `smallvec::SmallVec` do, which holds the
layers of a chain (`chain`), and that the standard library converts a type into itself by handing
it back (`scene`).
