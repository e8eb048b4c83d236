# dataflow_ops

The per-batch logic of a set of small timely-dataflow programs, verified with
Verus, and the programs themselves.

- `src/` — the verified library:
  - `aggregates`: running sum and product, batch maximum and minimum,
    take-while, and the exact parts (sum, count) of a batch average;
  - `mode`: counts of every record seen and a most frequent one;
  - `frontier_sum`: a stash of per-timestamp totals released on notification;
  - `orders`: the string hash that routes orders to groups, and the per-name
    sum/count accumulator;
  - `collections`, `shapes`, `collatz`: the largest element of a list, the area
    of a rectangle, one Collatz step;
  - `math`: sums, products and occurrence counts of sequences, with lemmas.
- `tests/` — tests of the library on concrete values.
- `app/` — the dataflow programs: they build timely and differential dataflows
  whose operators call the library, and hold the floating-point parts.
