# rxv6 library

The logic of RxV6, a small teaching operating system for 64-bit RISC-V in
the spirit of xv6, as a library whose behaviour is stated in contracts and
proved with Verus.

- `src/fs.rs`: the in-memory file system (a table of 128 nodes, paths,
  files and directories) and `src/fs_laws.rs`, what holds across its
  operations.
- `src/shell.rs`: the prompt, the parsing of command lines and the
  commands, each giving the text to print.
- `src/editor.rs`: the full-screen text editor: buffer, keys, saving,
  loading and the redraw.
- `src/console.rs`: key decoding, line input, terminal sequences.
- `src/gpu.rs`: the framebuffer text console; `src/gpu_cmd.rs`: the
  requests that set up and refresh the framebuffer device, and the
  bring-up as a step function (probe the device slots in order, then
  create the resource, attach the framebuffer, set the scanout, stopping
  at the first failure).
- `src/keyboard.rs`, `src/virtio.rs`, `src/pages.rs`, `src/paging.rs`,
  `src/trap.rs`: input events, virtio queues, the page allocator, the root
  page table and the timer tick.
- `src/text.rs`: UTF-8, trimming and decimal helpers.

`app/` runs the system as an ordinary process: standard input and output
act as the serial line, and `--font FILE` (1024 bytes, an 8x8 font for the
first 128 characters) turns on the framebuffer console. `app/virtio_io.rs`
drives the library's device steps (device check and register writes,
command send with timeout, GPU bring-up and flush, keyboard set-up and
polling) over a register bus; a process has no devices on its bus, so
every probe fails there and the system reports that no GPU was found.
