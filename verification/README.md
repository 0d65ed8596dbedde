# xyzw-petsim

A Monte Carlo simulator for merging game pets, with its rules and simulations
proved correct by Verus.

Pets have levels 1 to 7. Two pets of a level merge into one of the next level
with probability p1 = 0.95, p2 = 0.80, p3 = 0.65, p4 = 0.45, p5 = 0.20,
p6 = 0.05; a failed merge returns one of the two and adds one unit of pity
progress towards the next level, and `5 * (n - 1)` units of progress redeem a
level-`n` pet.

- `target-cost` estimates how many level-1 eggs it takes to reach a target level.
- `stock-drain` merges a starting stock of level 1-6 pets until nothing merges.

## Layout

- `src/` is the verified library:
  - `game` — the state, its mathematical model and the merge and pity rules;
  - `rng` — the seeded generator, the one trusted layer over `rand`;
  - `stock_drain`, `target_cost` — the two simulations, specified against
    models of the rules, with reproducibility of seeded runs proved;
  - `parallel` — how a batch is split between workers and how they are seeded;
  - `stats`, `report` — order statistics, CSV lines and summary columns;
  - `text`, `options`, `path` — numerals, the option grammar, run tags and
    output paths.
- `app/` is the command-line program: argument parsing (clap), terminal
  output, files, JSON (serde) and the floating-point quantities (means,
  spreads, theoretical expectations, histograms).
- `tests/` runs the library on concrete values.
