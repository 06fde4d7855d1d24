# checkr

`checkr` serves host health signals (CPU load, memory use, disk usage and the
processes that listen on ports) on `GET /health`.

- `src/` is the verified library: the readers of `/proc/loadavg`,
  `/proc/meminfo`, the mount table and `ss -H -tulnp` output; the settings of
  the allowed-ports checker and the checker itself; the rules that turn
  threshold levels and checker outcomes into results.
- `app/` is the service around it: reading files, running `ss`, calling
  `statvfs`, the floating-point thresholds of the CPU, RAM and disk checkers,
  the JSON configuration, the command line and the HTTP server.
- `tests/` exercises the library.
