# puyo_sim

A falling-pairs puzzle in the Puyo Puyo style, built on macroquad.

- `src/` is the game logic, verified with Verus: pairs and rotations, the
  seeded pair generator, the field with movement, kicks, gravity, chain
  detection and scoring, the phases of play, the screens and menus, the
  settings screen and the localized texts. Times are whole milliseconds,
  volumes thousandths, display positions and angles thousandths of a cell
  or of a quarter turn.
- `app/` is the program around it: the window, keyboard and clock, drawing,
  sound, particle bursts and the settings kept in local storage. Each frame
  it hands the keys and the time to `Controller::step` and carries out the
  commands that come back.
- `tests/` exercises the library on concrete fields and frames.
