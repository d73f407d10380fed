# esp_radar

Firmware for an ESP32-S3 flight radar (LilyGO T-Embed), split into a verified
core and the board code around it.

- `src/` is the library, verified with Verus. It holds every decision that
  can be stated over integers, bytes and text: decoding of ADS-B records
  (identifiers, call signs, categories, which records fill a batch), the
  choice of cities from the map service (population parsing and the bounded
  selection of the most populated places), the rotary-encoder verbosity
  arithmetic, the texts of the screen with their fixed capacities, the
  overlay layout, the notice box, the placement of city labels, the marker
  colours, the clock text, the configuration verdict and the polling steps.
- `tests/` exercises the library on concrete values.
- `app/` is the firmware binary: hardware setup, Embassy tasks, Wi-Fi and
  HTTP, JSON parsing into typed records, the ECS world, and everything that
  computes with floating point (projection, motion, sweep animation,
  brightness), drawing what the library lays out.
