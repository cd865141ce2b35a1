# systemstat_core

The verified core of SystemStat, a terminal system-monitor dashboard.

`src/` is a Verus library. Every function in it carries a contract that
Verus proves, except two small wrappers around std whose contracts Verus
takes on trust:

- `text::string_from_chars` collects characters into a `String` through
  std's `FromIterator` (`iter().collect()`); its contract says the string
  holds exactly those characters;
- `select::to_lowercase` calls `str::to_lowercase`; its contract names the
  result `lowercase` of the text and says nothing more of it.

The modules:

- `text` — whitespace, lines, words, trimming, prefixes, removal of
  substrings and unsigned decimal numbers, each against a spec function
  that states what `str::lines`, `split_whitespace`, `trim`, `replace`
  and `parse::<u64>` do;
- `sources` — the parsers for what the dashboard reads: interface and
  block-device names, `/proc/diskstats`, `/proc/net/route`, the output of
  `route -n get default`, cpufreq files, DRM `uevent` files, `nvidia-smi`
  lines and CPU brand strings;
- `select` — the interface shown, the disk shown, the CPU temperature
  sensor, the last maximum of a list, the CPU frequency ceiling, and
  whether to keep probing for a GPU;
- `procs` — which processes the process view keeps and how it orders them;
- `health` — health flags, alert count, system-health score and cause,
  the overall verdict, the power label and the advisories;
- `history` — the capped trend buffers;
- `cli` — command-line arguments and the interactive keys and screens;
- `ui` — fitting text into a column, the padding of two-sided and
  two-column rows, how far a view can scroll, and the uptime;
- `config` — the refresh interval.

`app/` is the program around it: reading the system through `sysinfo`,
`systemstat` and the kernel's files, the floating-point readings and
thresholds (Verus does not reason about floats), the TOML configuration,
the `ratatui`/`crossterm` terminal and the JSON output.
