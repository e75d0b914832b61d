# outside_auras

Overlays for World of Warcraft fed by the combat log the game writes to disk.

- `src/` is the verified library:
  - `text`: trimming, splitting, decimal formatting on characters;
  - `combat_log`: what a log line says (encounter boundaries, "Volcanic
    Heartbeat" applied to or removed from a player);
  - `auras`: the state of the Neltharion aura (debuffed players, their display
    order, the custom player list) with its laws in `nelth_laws`, the delay
    display, and the rows of the scripted aura;
  - `log_watchers`: pacing a replayed log (timestamps read with chrono) and
    following a live log file;
  - `main_window`: the settings of the start window.
- `app/` is the program: the egui windows, the processes and channels, file
  reading and watching, and the Lua interpreter.
- `tests/` runs the library on concrete log lines.
