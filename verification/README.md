# termgba

A terminal frontend for Game Boy Advance games, with its logic verified in
Verus.

- `src/` is the library: key handling, the emulator wrapper, the frame loop's
  turns, frame pacing, the audio ring buffer, the headless control endpoint,
  synthetic frames, PPM images and the command lines. Contracts say what each
  function returns; the proof functions beside them state what holds of several
  functions together.
- `app/` is the program around it: the mGBA core, the audio device, the
  terminal, clocks and files.
- `tests/` runs the library on concrete values.

## Times, devices and floating point

The library reads no clock: functions that depend on the time take it as
nanoseconds of a monotonic clock. Devices come in through the traits
`CoreBackend`, `Renderer`, `InputPoller` and `AudioSink`. Each trait names, as a
relation, what one call may do; contracts say by these relations which calls
are made, in which order and with which arguments. Frame rates, averages and
device samples are floating-point numbers and stay in `app/`.

## Controls

| Key | Meaning |
| --- | --- |
| `z` / `x` | A / B |
| Arrow keys | D-pad |
| `Enter` / `Tab` | Start / Select |
| `a` / `s` | L / R |
| Space | turbo while held |
| `q` / `Esc` | quit |
