# system_monitor

The verified core of a terminal system monitor (CPU, memory, GPU, network,
storage, temperature and process panels). `src/` holds the panels' integer
and text rules (labels, selections, sums, units, row counts) and the main
loop's decisions, each with a Verus contract; `app/` holds the terminal
program that reads the operating system, draws with ratatui, computes the
floating-point figures and the colours that depend on them, prints the fixed
empty-panel messages and runs the event loop.

Modules of the library:

- `text`: UTF-8 byte lengths, prefix/substring tests, padding, decimal text.
- `cpu`: usage bars, bar width, core counts, summary line.
- `memory`: RAM gauge colour, swap visibility.
- `gpu`: NVML readings of the first GPU and the panel's lines.
- `network`: which interfaces are listed, their type labels, rate units.
- `storage`: physical-device names, SSD/HDD/NVMe sums with each device
  counted once, size units, how many category rows fit.
- `temperature`: short sensor labels.
- `processes`: stable top-by-memory selection, name cutting, memory units.
- `control`: one round of the main loop (quitting, poll timeout, refresh
  timing), with laws over timed runs of rounds.
- `style`: colours and the shape of a printed byte quantity.

Floating-point figures (usage percentages, scaled sizes, sensor readings)
are computed in `app/`.
