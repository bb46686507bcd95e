# chess_bytes

A chess board held as the bytes of its coloured terminal rendering, with the
logic that reads and rewrites those bytes verified by Verus.

- `src/location.rs`: files, ranks, squares, steps between squares, square offsets
  in the rendering, and reading a square from two typed bytes.
- `src/piece.rs`: piece kinds and sides, and what the bytes of a square show.
- `src/board.rs`: the board; reading squares, colouring the squares a selected
  piece may reach, moving pieces, and the two halves of a turn.
- `app/main.rs`: the terminal loop (standard input and output, error texts).
- `tests/`: tests on concrete boards.
