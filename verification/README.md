# monadeck_overlay

The decision-making core of the Monadeck VR overlay, written in Verus: every
function in `src/` is proved by Verus, and states its result in a contract
except where another thread decides it (the handles that read or feed the
listener threads: `A11y::drain`, `ClipboardWatcher::set_active`/`latest`,
`ProcWatch::watch`/`state`, `Media::state`/`send`); their decisions are in
verified functions of their own (`poll_switch`, `resets`, `from_code`).

- `osc` — the OSC wire format (messages, bundles, typed arguments) and the
  mapping of `/monadeck/...` addresses and avatar parameters to overlay
  commands.
- `notifications` — notification text (markup, titles, card titles,
  timeouts), which sources are switched on, the freedesktop `image-data`
  hint, where a notification's icon is looked for, decoding icons and
  shrinking them to chip size, icon lookup paths and desktop entries,
  XSOverlay messages, and the icon cache.
- `toast` — the toast queue: alarms first, a flood keeps the newest cards,
  timing in milliseconds.
- `launch` — following a Steam launch through `/proc` and deciding on the
  one automatic relaunch after a Proton prefix upgrade.
- `keyboard` — the VR keyboard's modifier latches, the key events a press
  types, labels from the keymap, and the top bar's texts.
- `desktop`, `outputs` — monitor layout, the screens' bar order, docked
  groups and undocking, a saved layout's dock links, "toggle all", the
  screen-share status line, and the laser's mouse buttons.
- `gamemode` — which hand drives the pad, the desktop pointer or the watch,
  which remap profile applies, the edges of its digital targets, and the
  keys it holds (all let go when the dashboard comes up).
- `media`, `a11y`, `clipboard`, `monado`, `photos`, `games`, `gestures` —
  the MPRIS player choice, text-field focus, the clipboard preview, the
  Monado page and battery states, the screenshot queue and gallery, the game
  catalogue order, which loaded art to let go and launch ids, and the
  gesture config.
- `text`, `sync` — character-level helpers and the std synchronisation
  pieces shared with the listener threads.

`tests/` exercises the library on concrete values. `app/` is the headless
program around it: UDP and D-Bus listeners, helper processes (including
launching and stopping a game) and files.
