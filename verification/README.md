# IGSR

A temporal upscaler for GL: the orchestration around a handful of shader
passes, as a verified library, and a test window over it.

The library never calls GL. It decides, and hands back data: which programs to
compile, which textures to create and delete, which commands make up a frame,
what a view puts on the screen. A frame is a list of commands with an exact
contract.

## Library (`src/`)

- `backend`: version and extension strings, the compute/fragment decision.
- `config`, `context`, `records`: resolutions, quality modes, frame inputs and
  the records exchanged with the native core.
- `single`: single-precision numbers by bit pattern, with the rounding of the
  few operations that decisions and smoothed timings rest on.
- `mat4`, `text`, `image`: matrices without arithmetic, text helpers, frame
  dumps.
- `gpu`, `commands`: GL handles and enumerants, GL work as data.
- `passes`: the pass abstraction and the four passes.
- `resources`, `timers`, `sources`, `pipeline`: the resource table, timer
  queries, what to compile, and the frame loop.
- `view`, `testbed`, `options`, `startup`, `scene`, `selftest`: the test window:
  views, keys, options, driver evaluation, scene and self test.
- `laws`: what holds of pipelines as a whole.

## Test window (`app/`)

The window, the GL calls, the native core and everything that computes with
floating point. It looks for the shader sources in the directory that
`IGSR_SHADERS` names, or in `shaders/`, and links against the native core
`igsr_core`.
