# rootspace

An entity-component-system core and the game engine structures built on it, with their
behaviour stated as contracts and proved with Verus.

- `src/ecs`: entities, component groups, the assembly of entities and components, loop stages,
  events, systems and the `World` that drives them.
- `src/engine`: engine events, the half-edge mesh, merge sort, the scene graph and the generic
  hierarchy, resource groups, the debug shell, the fixed time step clock of the game loop, and
  the error types of the rendering and user interface code.
- `tests`: tests of the library on concrete values.
- `app`: what stays outside the verified library: file system access, the clock of the game
  loop, printing, serialization, and the floating point geometry (rays, bounding volumes,
  cameras, convex hulls, text layout).

Rendering and the user interface of the engine (GPU objects, windows, text and speech bubble
widgets, the materials and meshes uploaded to the GPU) are not part of this crate: only the
error types of that code and the floating point geometry in `app` remain. Image decoding and
font parsing also stay in `app`, since the decoders panic on some malformed input.
