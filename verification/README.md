# bevy_terrain

Streaming and rendering of large terrains with Bevy, with the decisions of the renderer verified in
Verus.

- `src/` is the library. It decides which tiles a view needs (`tile_tree`, `window`), which of them are
  in memory (`tile_atlas`), what has to be uploaded (`gpu_tile_atlas`, `attachment`), and how the
  terrain is drawn (`terrain_material`, `terrain_pass`, `terrain_shadow`, `terrain_view_bind_group`).
  `demand`, `residency`, `streaming` and `loading` prove how these parts work together.
- `app/` is the Bevy side: components, systems, floating point geometry and GPU objects. The geometry
  of a terrain, the loading of its files and the sources of the shaders are supplied by the application.
  It draws with Bevy's renderer, so it needs the features `bevy_pbr`, `bevy_window` and
  `shader_format_wesl` of Bevy; the library itself uses Bevy's collections only.
- `tests/` runs the library on concrete values.
