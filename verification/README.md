# slimes

A system-information and CPU-benchmark tool ("CPU slimes"), with its computing part
written in Verus and proved.

- `src/benchmark.rs`: primality, prime counting over a range, the score formula, the
  single-threaded run and the assembly of the multi-threaded results; laws on
  splitting ranges and on how the score moves with time and work.
- `src/text.rs`: character-level text operations (trim, search, replace, lines,
  decimal writing, joining words) with their specifications.
- `src/devices.rs`: device names out of `lspci` and `wmic` listings.
- `src/slimes.rs`: the slimes (OS, kernel, hostname, CPU, RAM, board, GPU, monitors,
  network, audio): their labels, icons, colors, and the lines made of what was read.
- `src/report.rs`: the report types, the leaderboard ranking score and page defaults,
  the speedup ratio, and the upload confirmation.
- `app/`: the program around the library: reading the machine, running the worker
  threads, printing, uploading, and the leaderboard server.
