# fury_tracer

A ray tracer for scene files in the JSON layout of the METU CENG 795 course,
with its scene-reading core verified in Verus.

- `src/` is the verified library: reading integer fields given as numbers or
  strings, whitespace-separated lists and pairs, transformation expressions
  such as `"t1 r2 s1"`, the `SingleOrVec` and `DataField` records of the scene
  file, vertex-layout normalization, texture-coordinate and PLY face-index
  assembly, mesh-instance resolution, BRDF and texture-image lookups, and the
  choice of output folder and image encoding.
- `app/` is the renderer around it: command line, file I/O, serde glue, and
  the floating-point geometry, shading and tone mapping.
- `tests/` exercises the library on concrete inputs.
