# ultraborderless

Strips the borders from a window and places it into a region of a monitor,
sized and anchored as asked, rather than only stretching it across the whole
display. Built for ultrawides: a 3840x2160 game can sit centered on a
7680x2160 panel with 1920 px of desktop free on each side.

The decisions of the program are a Verus-verified library under `src/`:

- `window_manager`: the placement geometry (`Placement::resolve`,
  `Placement::overflows`), the labels of windows and displays, the list
  filters and orderings, and the saved frames that let a stripped window be
  restored exactly (`WindowManager::toggle_borderless` decides, the caller
  carries it out).
- `config`: the `key=value` settings file, read (`Config::from_text`, which
  never fails; a line that cannot be read changes nothing, an unknown name
  gives its setting's default, a number that cannot be read leaves its setting
  as it was) and written (`Config::to_text`); what is written reads back the same
  whenever the region's width and height are positive, as they always are
  when chosen in the interface.
- `ui`: every label and enabled state of the interface.
- `app`: the icon cache and the session state between frames.
- `icon`: the application icon, decoded with the `image` crate.
- `text`, `sorting`: trimming, decimal numbers, text order and stable sorting.

`app/` is the Windows program around it: the Win32 calls, the threads, the
settings file on disk and the egui interface.
