# gdbg

A profiler for CUDA, PyTorch and Triton programs, together with a transport to
debug adapters. Its logic is a library verified with Verus; the program around
it does the reading, writing and printing.

* `src/` is the library. Each function states in its contract what it returns or
  changes, and Verus proves it. Laws that relate several functions stand beside
  them as public proof functions.
  * The adapter side: `dap_frame` (framing), `session` (messages and stops),
    `breakpoints` (changes that take effect or leave no trace), `debug_command`
    and `course` (what a command asks of the adapter), `launch`, `process`.
  * The profiler side: `collect`, `import`, `ncu`, `nsys`, `chrome_trace` and
    `kernel` bring profiles in; `db` decides about sessions; the remaining
    modules compute what the commands show.
* `app/` is the program: the database, the profilers' processes, the socket, and
  the prompt. The database holds microseconds as floating-point numbers; the
  library counts whole nanoseconds.
* `tests/` runs the library on concrete values.

What the library takes on trust from other crates and from the standard library
is marked `external_body` or `assume_specification`; the comment above each item
says what is believed of it.
