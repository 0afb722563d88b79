# precise_isovist

Isovist analysis of a plan: rays are cast from an observation point towards
every vertex of the plan (and just past the ends of every line), the closest
hit of each ray is kept, the hits are ordered by angle around the point,
neighbouring hits at the same place are merged, and the result is closed
into the border of the visible region.

Layout:

- `src/` is the verified library. Coordinates have a type parameter `C`;
  what needs floating point arithmetic reaches the library as plain values:
  order keys of scale factors and angles (`ScaleFactor`, `i64`), hits
  computed from the coordinates (`Hit`, `RayExtension`), and a predicate
  that says whether two points can be merged.
  - `ids.rs`: the identifier counter (`IdCounter`, `get_id`).
  - `types.rs`: `Point`, `Line`, `Entity`.
  - `id_set.rs`: `IdSet`, the set of line identifiers of an intersection.
  - `error.rs`: `GeometryError`, `IsovistError`, `ConversionError`.
  - `sections.rs`: intersections, merging, the closest section of a ray,
    the scan over all vertices, sorting by angle, collation.
  - `isovist.rs`: `Border` and `find_isovist`.
  - `laws.rs`: properties that relate the functions above.
- `app/` is the command line program: it reads a DXF plan, does the
  floating point geometry with `ordered-float`, calls the library, and
  writes the isovists back as layers of the drawing.
- `tests/` runs the library on concrete values.
