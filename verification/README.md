# openlogi

The decision core of a manager for Logitech mice and keyboards, verified with
Verus, and the ordinary Rust around it.

`src/` decides; it does no I/O and cannot panic. Its parts:

- `text`, `value`, `table`, `seqs`, `sort`, `single`: text compared by its bytes,
  values compared by meaning, a finite map, the canonical order of devices, and
  numbers of single precision.
- `buttons`, `device`, `config`, `dpi`: the data.
- `orchestrator`: the agent's devices, what is written to them and published.
- `capture_plan`, `sessions`, `wheel`, `gesture`: what is captured of a device
  and what its inputs do.
- `watch`, `enumerate`, `probe`, `cache`, `thumbwheel`: enumerating and probing
  devices over HID++.
- `load`, `records`, `app_state`, `smartshift_panel`, `geometry`: what the
  window shows and what its controls do.

`app/` performs: threads, channels, HID nodes, files, and floating-point layout.
`tests/` runs the library, with the real `hidpp` linked.
