# battery_sipjuice

The decision logic of Battery SipJuice, a battery and power monitor for
Linux laptops and tablets, as a Verus-verified library, with the desktop
program around it.

- `src/` is the library. It works on the integers the kernel's
  `power_supply` class reports (µV, µA, µW, µAh, µWh, tenths of a degree)
  and on the text of sysfs and procfs files, never on the files
  themselves: battery and input readings, time estimates, the round-robin
  history archives (per battery and per input source) and their binary
  format, charging sessions and health
  snapshots, battery-care reminders, charge thresholds, CPU/GPU frequency
  caps, the grouping of processes into applications, settings.
- `app/` is the program: the Tauri window and tray, the sampler thread,
  reading and writing files, notifications, and the conversion to the
  display units the interface shows.
- `tests/` runs the library on concrete values.
