# rust_gauge

The verified core of a small tray monitor that shows CPU, memory, GPU, NPU and network
load in a tooltip and a dynamically drawn tray icon.

- `src/` is the library, checked with Verus:
  - `metrics`: metric kinds and samples, the samples of one round of readings, and
    byte counts as text.
  - `percent`: clamping and printing percentages held as `f32` bit patterns.
  - `render`: the RGBA canvas, the icon's layout and cells, `#RRGGBB` colours and the
    tooltip text.
  - `gpu_engine`: sorting `GPU Engine` counters into GPU and NPU (compute-only adapters).
  - `autostart`: the per-user Run registration as requests and registry statuses.
  - `menu`: the `Display` check marks and the answers to menu actions.
  - `config`: the settings and their defaults.
  - `text`, `number`: character and integer helpers with their specifications.
- `app/` is the program around it: the event loop, the tray, the settings file, system
  readings, the Windows registry and performance counters, and the floating-point
  formulas for memory, network activity and cell fills.

The program also uses the `tao` event loop and the `tray-icon` crate for the tray and
its menu. They are not listed in `Cargo.toml`, so `app/` builds only where both are
added as dependencies.
