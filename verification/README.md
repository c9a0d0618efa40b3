# display-analyzer

A Linux display diagnostic tool: it shows the whole display chain (GPU, driver,
connector, protocol and display) as read from `/sys/class/drm/`, as a tree in the
terminal or in a window (`--gui`).

- `src/` is the verified library. `edid` decodes EDID base blocks; `drm_info`
  turns what a connector's sysfs directory holds into a `ConnectorInfo` and orders
  connectors by name (stably); `path` splits paths into components as
  `std::path` does, so that cards are grouped and ordered as paths; `dp_info` and `gpu` describe DisplayPort links and graphics
  cards; `report` groups connectors by card and lays out the lines and rows that
  the terminal report and the window show; `app` holds the window's state; `text`
  has the character and string operations they share.
- `app/` is the program: command-line handling, reading sysfs, printing, and the
  eframe/egui window.
- `tests/` runs the library on concrete inputs.
