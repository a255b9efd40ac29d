# pareto_layout

Pareto local search for laying out boxes in a bounded space.

- `src/` is the verified library: the archive of candidate layouts and its
  column operations (`archive`), layouts (`solution`), dominance, the Pareto
  front and cleaning (`pareto`), the search operators that pick the next row
  and decide whether to go on (`search`), the per-iteration archive updates
  and the grid neighbourhood (`pls`), the combination of objective values
  (`fitness`) and the collision count (`collision`). Objective values are
  compared outside the library; the library decides from the outcome of each
  comparison (`pareto::Standing`).
- `app/` is the program: the geometric objectives on real numbers, the
  comparisons of real objective values, the search loops, and reading and
  writing layouts and archives as JSON.
