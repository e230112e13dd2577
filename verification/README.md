# DJLED

An audio- and MIDI-reactive LED wall engine. It listens to what the machine
plays, to an input or to notes, splits that into bands, paints a stack of layers
with it, and drives a strip of LEDs over a serial port.

`src/` is the library, written in Verus: every decision the engine makes, with a
contract for each, proved.

| module | what it decides |
|---|---|
| `link` | the wire format, its decoder, when a board may be written to, how bands spread over LEDs |
| `midi` | which port is opened, which messages count, which notes are held |
| `source`, `capture` | which device a selection means, and how devices are listed |
| `show`, `stack` | what a show holds, and which device every layer is bound to across edits |
| `presets` | twelve slots, which is live, and when they are written |
| `dsp` | which transform serves which band, which bins it reads, when a frame is due |
| `color` | what a colour's digits say, what plays when, where on the strip a frequency lands |
| `ui`, `web` | the order of a client's conversation, and what a browser is answered |
| `run` | the run loop: what is asked next, and what the answer leads to |
| `cli`, `display`, `probe` | what is printed |
| `hotkeys`, `tray`, `logging` | keys, the icon and the log |
| `order`, `text` | sorting and text |

Frequencies are in micro-hertz, times in milliseconds or micro-seconds, and
floats come in as numbers that order the same way.

`app/` is the program around it: devices, sockets, files, the clock, and all
arithmetic in floating point. It asks the library what to do and does it.

`tests/` runs the library on given values.

What is taken on trust, each with a contract of its own beside it: pushing on a
`String`, lower case, lossy UTF-8, and the two ends of a `ringbuf` ring.
