# light-robot-core

The flight computer's core logic as a verified library, with the hardware
glue around it.

- `src/` is verified with Verus. It holds the on-flash artifact format
  (`layout`, `crc`), the W25N01GV serial-NAND command protocol as a state
  machine (`nand`), the versioned artifact store built on it (`store`,
  `scan`, `artifact`, `writer`, `read`), the BMP280/ICM-42688-P register
  decoding and the BMP280 integer compensation (`sensors`,
  `compensation`), servo encoder arithmetic (`servo`), the
  neural-network trainer's population arithmetic (`population`), the
  Wi-Fi start-up decisions (`wifi`), the checks on web-interface
  commands (`commands`), the web server's framing rules
  (`web`) and the telemetry types (`api`).
- The flash driver and the store do no I/O themselves: each operation
  starts with a request (an SPI transfer, a flash request or a delay) and
  is resumed with the answer, until it reports its result. Their contracts
  state every transition exactly.
- `app/` runs those machines over an `embedded_hal` SPI device and delay,
  drives the sensors over I²C, converts the integer results to physical
  units and gives the telemetry types their serde form.
- `tests/` exercises the library, including a simulated chip on which
  artifacts are written, found, read back and erased.
