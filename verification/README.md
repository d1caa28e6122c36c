# band_songbook

A songbook builder's model and build logic, verified with Verus.

- `src/` is the verified library: song and book model, name normalization,
  fuzzy song selection, tags of the world, chord rows and bar numbering,
  click anchors and beat interpolation, `mm:ss.ms` splitting, the LilyPond
  inclusion scan, the build graph a song expands into (`expand_song`), and
  the plan of the songs and books of a build (`plan_world`).
- `tests/` holds the tests of the library.
- `app/` is the code around it: yaml reading through serde, directory walks,
  the `clicks.yml` build node for yamake, and the click times in seconds.
