# layer_hud

The verified core of a menu-bar overlay that shows a ZSA Voyager's layout,
follows its active layer and highlights key presses.

`src/` is a Verus library; every function in it carries a contract that
Verus proves:

- `hid` — which HID interface is the Voyager's Oryx Raw HID collection, the
  pairing report, decoding of layer and key reports, and the switch matrix
  (with the proof that every one of the 52 keys has exactly one position).
- `layout` — the keyboard's layout/revision identity, the GraphQL request for
  it, the checks a layout document must pass, and when a cached layout may be
  shown (never for another revision).
- `oryx` — layout addresses, monitor keys, alignment and hide-edge settings,
  and which monitor the overlay is restored on.
- `toggle` — recognising the recorded key sequence that hides and restores
  the overlay.
- `config` — sanitising the non-numeric settings and naming exports.
- `grab`, `status`, `watcher` — the modifier combination (its mask depends
  only on the set of names), connection state, and the Keymapp poll loop's
  state machine (with laws over whole runs of polls: backoff, and each change
  announced once).
- `json`, `text` — the JSON model (setting a member replaces it in place or
  appends it) and string helpers these rest on.

`app/` is the Tauri application around it: devices, network, files, windows
and the floating-point window geometry.
