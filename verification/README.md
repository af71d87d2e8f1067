# drooling

Button-free flashing for RP2040 firmware: the picotool reset interface as a
USB class (with the BOS / Microsoft OS 2.0 descriptors that make Windows bind
WinUSB), and the `drool` flasher that reboots a running device into BOOTSEL
and writes an ELF over PICOBOOT.

The library in `src/` holds the logic, with its contracts proved by Verus:

- `ms_os_20`: the BOS and MS OS 2.0 descriptor bytes, their layout rules, and
  the interface number patch.
- `protocol`, `reset_interface`: the reset request wire format and what the
  USB class does with each control request.
- `segments`, `ordered_bytes`, `chunks`, `erase`, `plan`, `elf`: from the program headers of an
  ELF file to the page-aligned writes and sector-aligned erases of a flash
  plan.
- `reboot`, `session`: which device and request `drool` uses, and the
  decisions of a flashing session.

`app/` is the `drool` command line and the `usb-device` class glue: the USB
transfers, the boot ROM calls and the file I/O.
