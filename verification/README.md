# Loomix

An eight-strip, eight-bus audio mixer: five hardware strips, three virtual
strips, eight buses of eight channels, each strip with its effects, each bus
with its mode, equaliser and gain.

- `src/` is the library, written in Verus. What a function does stands in its
  contract. Contracts are proved, but for those of the few functions that call
  out of the library and say so: `ring` on `rtrb`, `shared_count` on the atomics
  of `std`, and one in `duration` on its characters. It is generic over the number type of the samples
  and takes the elementary functions of that type (square root, logarithm,
  sine, ...) from its caller, so that it says exactly which numbers are combined
  how, without a word on rounding. `fixed` is a number type on which everything
  can be run and reasoned about; the program runs on floating point.
- `tests/` runs the library on floating point.
- `app/` is the program around it: floating point, CoreAudio, the window, and
  files.

## The library

| modules | what they hold |
| --- | --- |
| `num`, `elementary`, `precision`, `fixed`, `fader` | numbers |
| `biquad`, `knob_curve`, `gate`, `compressor`, `denoiser`, `limiter`, `pan`, `eq3`, `karaoke`, `intellipan`, `parametric_eq`, `eq_channel`, `meter` | effects: settings, and the filters at work |
| `strip_dsp`, `strip`, `strip_path`, `bus`, `bus_mode`, `patch`, `mix`, `engine`, `signal_path`, `transparency`, `isolation`, `render` | strips, buses and the way through the mixer |
| `command`, `command_laws`, `retune`, `tuning`, `control`, `control_laws`, `convergence`, `snapshot`, `labels`, `eq_file` | controlling the mixer from another thread |
| `ring`, `shared_count`, `channel_layout`, `engine_io`, `io_driver`, `audio_loop` | queues, and the audio callback |
| `clock`, `master_clock`, `drift`, `resample`, `ioproc`, `device`, `device_callback`, `device_wiring`, `device_report`, `connect`, `hog`, `hotplug` | devices and their clocks |
| `duration`, `soak`, `text`, `rt_assert` | the long run, and odds and ends |

Settings and running state are separate types: a `Gate` is what the knob has
set, a `GateDetector` is what follows the signal. Commands change settings, and
`retune` brings the running state in line with them. `tuning` proves that it
stays so, through every command and every block.

The queues are those of the `rtrb` crate. What is assumed of it stands in
`ring`, item by item: each half of a queue has its own history, and where both
halves are at hand the two can be compared.

Counts, the master's position and the resampling ratios are kept by the thread
that owns them, and shown to the others through live views. What a view shows is
known where the owner is at hand; otherwise it depends on when one looks.
