# boxes

A desktop factory game on a 500 × 500 × 500 grid of typed cells whose state
changes over time: generators pulse on staggered phase ticks, transformers copy
a neighbor's state, aggregators reduce their neighbors' states.

## Layout

- `src/` — the simulation kernel and the game rules, verified with Verus:
  cells and chunked sparse storage (`cell`, `chunk`, `world`, `coord`), the
  cell types (`types`), the tick scheduler and its model (`sim`, `schedule`),
  the cell rules (`engine`), and the view, surface, picking, tool, selection,
  playback and text-formatting logic used by the shell.
- `tests/` — tests run against the compiled library.
- `app/` — the Bevy shell: window, rendering, input, UI panels, and the
  floating-point camera and picking geometry.

The central contract is `Simulation::step_with_hooks`: the state after `n`
ticks, and the chunks reported, are those of `run_model` applied to the
simulation's model, with the hooks' effects given by `SimHooks::dirty_model`
and `SimHooks::phase_model`.
