# wattmeter

A live terminal chart of laptop power draw, with its core logic verified in Verus.

- `src/` is the verified library: how sysfs and UPower readings are interpreted
  (`power`, `battery`), the sample series (`history`: ordering of backfilled history,
  retention, windowing, gap segmentation, covered time), the RAPL energy counters
  (`rapl`: wrap-around deltas, trusted intervals, zone discovery and selection), the
  order-statistic positions (`stats`), chart geometry and labels (`chart`, `ui`), the
  colour roles (`theme`), the command-line choices (`cli`) and the key and view
  decisions (`app`). String helpers (`text`) and name ordering (`order`) support them.
- `app/` is the program around it: file and D-Bus reads, the terminal loop and
  rendering, JSON output, and the arithmetic on watts, which is floating point.
- `tests/` exercises the library on concrete values.
