# elan-haptune

Settings of the haptic touchpad ELAN2703 (I2C, 04f3:323b) on Linux: list the hidraw devices, read
the press, release and drag release thresholds and the feedback bit, and change them with readback
and recovery.

`src/` is the library, verified with Verus. It decides everything that can be decided from plain
values:

- `text`, `error`, `json`: text, failures with their exit codes, JSON values
- `protocol`: feature reports, register reads, verified writes, the identity check
- `elan`, `plan`, `update`: settings and their bounds, the safe order of changes, carrying them out
  and recovering from a failure
- `device`, `devnum`, `selection`, `opener`, `opening`: devices as sysfs shows them, choosing the one
  to work with, the record of what was opened, and what must hold before a device is used
- `document`, `command`: the commands and what they print
- `laws`: what holds of every update, and of devices that do what they are told

`app/` is the program around it: the command line, sysfs, locks and ioctls. `tests/` runs the
library against a simulated touchpad.

The thresholds that may be requested are a policy of this program, not limits of the firmware:
press 120 to 192, release 95 to 154, drag release 60 to 125. Both releases must be positive and
below press. What is not requested stays as it is.

| Exit | Meaning |
| --- | --- |
| 0 | Success, dry run, or nothing to do |
| 1 | Permission, busy, I/O, protocol, verification, or update failure |
| 2 | Invalid command or requested settings |
| 3 | No matching compatible device |
| 4 | Ambiguous selection |
| 5 | Unsupported device, identity, or current state |
