# pico_blink

Firmware for a Raspberry Pi Pico W. The board opens a wireless network of its
own, leads every client that joins to one settings page, and blinks its LED at
the frequency chosen there. The settings outlive a restart in the last sector of
the flash.

- `src/` is the logic, written and verified in Verus: DHCP and DNS answers,
  HTTP requests and responses, the settings with their rules, and the steps of
  loading and storing the flash record. Proof functions named `law_*` state what
  holds across these.
- `app/` is the firmware around it: tasks, sockets, flash access, logging, and
  reading JSON.
- `tests/` runs the library on concrete values.

Outside code is trusted only where `src/bounded.rs`, `src/json.rs` and `text_of`
in `src/decimal.rs` say so; `src/settings.rs` declares the error type of the
flash driver, and claims nothing of it. `app/assets.rs` holds the page and the
default settings, and the addresses at which the images of the wireless chip are
programmed.
