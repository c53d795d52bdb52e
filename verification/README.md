# shimeji

A desktop mascot engine for Windows: mascots imported from zip bundles walk, fall,
climb and hang on the screen edges and on other applications' windows.

The library under `src/` is written in Verus; its functions carry `requires`/`ensures`
contracts that Verus proves.

- `environment` — the desktop as rectangles (`EnvironmentTracker`, refreshed on an
  interval) and `query_surface`, which decides what a mascot stands on, hangs from or
  runs into on each tick.
- `format` — the bundle formats: the manifest, the animation schema, sprite file names,
  RGBA frames, and the validation that turns a parsed bundle into a runnable one.
- `state_machine` — the interpreter of the animation schema: frames, timers, border
  transitions and engine events, with randomness supplied by the caller.
- `importer` — opening a mascot's zip archive and the steps of an import (`import_step`),
  the catalog of installed mascots, and the import of shimeji-ee mascots:
  reading `actions.xml`/`behaviors.xml`, mapping each action to an animation, chaining
  sequences and behaviors, and assembling the animation schema (`map_to_schema`).
- `tray`, `window` — the tray menu's contents (with the Windows rule for a dropped
  file's extension), premultiplied alpha, hit testing and the tap/fling decision for
  mouse releases.

`app/` is the Windows program around the library: the message loop, the layered mascot
windows, the tray icon, the settings window, file I/O (bundles, catalog, session,
imports) and the floating-point parts (fling velocity, weighted draws, scaling, and the
motion of shimeji-ee physics actions, which the library turns into frames).
