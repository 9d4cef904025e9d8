# ur-io

A UDP log collector built on io_uring (multishot receives into kernel-provided
buffers) and a memory-mapped log file, with its core verified in Verus.

- `src/` is the verified library:
  - `byte_order` — codecs for frame header integers in the machine's byte
    order;
  - `frame` — the log frame format, the reader that walks a region
    (`scan_log`), and the laws that reading gives back what was framed;
  - `region` — the memory-mapped region (`memmap2::MmapMut`) seen through the
    bytes it holds;
  - `storage` — the append-only log (`MmappedLogStorage::write_entry`) and the
    laws that a log written into a zero-filled region reads back;
  - `entry` — log entries stamped with the wall clock;
  - `recvmsg` — the payload of a multishot `recvmsg` result buffer
    (`io_uring::types::RecvMsgOut`) and the provided-buffer id of a completion;
  - `agent` — the collector's decision for each completion;
  - `bench` — the benchmark's configuration, progress and totals.
- `app/` is the program around it: sockets, the ring, files, printing and the
  floating-point rates. Its first argument names the tool (`hello`, `echo`,
  `hello-buffer`, `hello-timeout`, `socket-log-agent`, `udp-log-agent`,
  `read-logs`, `bench-udp`).
- `tests/` runs the library with the real outside crates.

Design notes:

- The log's writer takes `&mut self` and keeps its write offset in a plain
  `usize`: the collector has a single writer.
- A frame that does not fit in the rest of the log is refused and changes
  nothing: the offset, and so `bytes_written`, counts only frames written.
- Frame headers are in the machine's byte order, so a log is read on a
  machine of the same byte order as the one that wrote it.
- The payload of a received packet is copied once out of the provided buffer
  before it is written to the log, because io_uring's `RecvMsgOut` lends its
  payload only for as long as the parsed value lives.
- The log region is read as this process's own: no other process may write
  to or truncate the log file while the collector maps it.
