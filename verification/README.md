# squared_squares

An exhaustive search for perfect squared squares and squared rectangles,
verified with Verus.

A partial tiling is kept as a skyline of plates between two walls. The search
picks the narrowest plate lower than both neighbours and tries the squares the
pruning rules allow on it, undoing each placement afterwards; `src/model.rs`
states, as functions over the same tree of tries, exactly which reports the
search adds and how many squares it places. A lookup table of how deep
glasses (narrow wells) of each width can be filled prunes the search.

Layout:

- `src/squares.rs`: plates, the configuration, the moves that place and remove
  squares, and their laws (each move is undone exactly; each placement raises
  the area below the skyline by the area of the square).
- `src/skyline.rs`: the shape that the skyline keeps during the search, and
  why every move keeps it.
- `src/exhaustive.rs`: the search for squares and rectangles and the work units
  for a coordinated search.
- `src/glasses.rs`: the glass table and the table of the largest square that
  fits a glass.
- `src/model.rs`: what the search computes, as spec functions over its state.
- `src/checks.rs`: run-time tests of what the search needs.
- `src/text.rs`: decimal text, reports and descriptions.
- `src/coordinator.rs`: messages and the coordinator's account of the work.
- `app/`: the program: threads, channels, clocks and files.
