# bose-connect

Control Bose headphones from Linux, over the RFCOMM control channel they
answer on.

The library under `src/` is written in Verus: each function states what it
does in `requires` / `ensures`, and Verus proves it. What the device answers is
not in the library's hands, so the contracts speak of what it did answer: a
session keeps a record of every request that went out and of what each receive
brought (the transport's own record, where it keeps one, as the scripted
transports do), and of the bytes each answer was read from. Each exchange is
stated as a function of what arrived — when reading stops, and what is
returned — and each verb and each command as a function of how its exchanges
settled: a read succeeds exactly when its payload decodes, a write goes out
exactly when the read before it allows it, and a failure is the one the
exchange reported.

- `wire`, `framing`: records on the wire, `<function> <opcode> <operator>
  <length> <payload>`, decoded and encoded, with round-trip laws.
- `session`: requests and answers; which record of a reply answers which
  request.
- `catalog`: every known record, with how well each direction is understood;
  only `Confirmed` is writable.
- `codec`: payloads to values and back.
- `surface`: which functions and opcodes a device has, learnt by asking.
- `api`: the device and its verbs, built from the above.
- `device`, `fields`, `settings`: the earlier capability-table API.
- `cli`: the command line as data — parsing the words and assembling what each
  command prints.
- `transport`: the transport trait, scripted doubles, Bluetooth addresses, the
  channel probe's decisions and what bluez reports.
- `fixtures`: recorded devices, for tests.

`app/` is the program around the library: the socket (`libc`), the D-Bus call to
bluez (`zbus`), the channel cache on disk, and `main`. `tests/` exercises the
library with the real outside crates linked.
