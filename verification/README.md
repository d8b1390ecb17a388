# homemon

The logic behind a home server's status page, written in Verus and proved against its contracts.

The page shows the processor, the memory, the busiest processes, the disks, the temperatures, the
graphics cards, the LXC containers of the Proxmox node and the power draw of an energy plug. Every
section is gathered by a source of its own, at its own rate, so a source that stands still costs its
own section and nothing else.

- `src/` is the library. `slots` and `monitor` hold the sections and say when one is out of date,
  `assemble` puts them together, `get_stats`, `proxmox`, `nvidia` and `io_wait` take what was read
  into the sections, `cgroup_info`, `container_names` and `command` find out which container a
  process is in, `monitor_log` keeps the log of pictures, `http_server` says what a page is sent,
  and `tapo` runs the exchange with the plug. `clock`, `numbers`, `paths`, `sorting`, `structures`
  and `text` are what the others are made of.
- `app/` is the program around it: the runtime, the files, the programs that are run, the HTTP
  server and the serialised forms.
- `tests/` run the library.

Floating-point figures are formed in `app/`. In the library a reading is carried by its bits, and a
share of something by its two whole parts.
