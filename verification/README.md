# digimatic

Reception of Mitutoyo Digimatic measurement frames sent by a Raspberry Pi
Pico (or by the built-in simulator): the frames are validated, decoded into
measurements, logged to CSV and shown on the console, in a window or in a
browser.

- `src/` is the verified library (Verus): argument parsing, the frame
  parser and validators, the decoding of received frames and their log
  records, the frame builder of the simulator, the ring buffer behind the
  measurement history, the Pico search and the display rules.
- `app/` is the program around it: process arguments, serial port, threads,
  CSV files, the simulator's value generators, the egui window and the web
  view.
- `tests/` exercises the library.
