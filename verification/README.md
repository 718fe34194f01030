# dhp

`dhp` tests and measures the dma-buf heaps of a Linux or Android system: allocation,
mapping, synchronised access, fences, containers, behaviour under errors, under memory
pressure and over long runs, and the workloads of cameras, codecs, displays, graphics and
inference.

- `src/` is the library. It is written in Verus, and everything in it is verified: the
  workloads as scripts of steps and what they leave open, the simulated device, the parsers
  of what the kernel tells, the reports, and the rules by which a run adapts and stops.
- `tests/` runs the library on the simulated device.
- `app/` is the program around it: the command line, the system calls, files, threads, the
  clock and the statistics in floating point.

The workloads run on any backend that answers calls as `backend::protocol` says. Two do:
`backend::mock::MockBackend` simulates a device in memory, and
`backend::driver::RealBackend` hands calls to a driver, of whose replies it takes nothing
for granted.

A few facts about the outside are trusted and not proved. They stand in `text.rs` (how a
character is appended to a string), `random.rs` (the ranges of random numbers),
`workload/clock.rs` (reading a clock) and `workload/suite.rs` (the words for an error).
