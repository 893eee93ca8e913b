# breadmon

A terminal monitor manager for Hyprland: arrange, configure and mirror
displays, keep named profiles, and apply the layout live.

- `src/` is the library, verified with Verus: mode parsing and formatting,
  the `hyprctl` and `monitor=` line formats, edge snapping and
  arrangement, the mirror-mode search, profiles and the shared layout store,
  and every decision the interface takes on a key or mouse event. Values
  that the interface shows as decimals (scales, refresh rates, zoom) are
  held as integers: hundredths, and tenths for the zoom.
- `app/` is the program around it: `hyprctl`, files, the terminal, the
  event loop, drawing, and the floating-point canvas geometry.
- `tests/` exercises the library.
