# kloak

Keystroke and mouse timing anonymizer for Linux: it takes keyboards and mice
away from the desktop, delays every event by a random time, and passes it on
through virtual devices.

The library in `src/` is written in Verus and holds the logic:

- `config`, `escape`, `keys`: the command line and the exit combo.
- `evdev`, `nodes`, `hotplug`: which devices are taken, and in which order.
- `translate`, `scroll`, `event`: from raw events to packets.
- `queue`, `urandom`, `time_src`: when a packet is released.
- `uinput`, `record`, `ioctl`, `bytes`: how packets reach the virtual devices.
- `daemon`: the state that the main loop works on.
- `libinput_ctx`: how a device that libinput reports as new is configured.
- `text`, `arith`: strings as character sequences, saturating arithmetic.

Functions named `law_*` state what holds of the library as a whole, such as that
packets are released in order and within the jitter bound
(`queue::law_history_in_order`, `queue::law_requests_in_bounds`), that every delay is
equally likely (`urandom::law_values_equally_likely`), and that a click lands
where the pointer is (`translate::law_position_precedes_buttons`).

`app/` is the program around it: files, system calls and the main loop.
