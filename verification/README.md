# patience

The rules of a patience card game, with their proofs.

The deck has 36 cards: hunters of ranks 1 to 5 and animals of ranks 6 to 9, in four
suits. The cards are dealt onto nine tableau rows; each row has a hidden zone, and the
board has one free cell. Hunters stack by alternating colour and descending rank,
animals by kind; a complete stack of four animals alone on a row hides. The game is
won when all four kinds of animals are hidden and the hunters lie in four complete
stacks of five.

- `src/card.rs`: suits, cards and the deck.
- `src/board.rs`: depots, positions, the board and the moves of cards.
- `src/rules.rs`: the game state as plain values, what each operation does to it, the
  state's invariant and the lemmas about it.
- `src/game.rs`: the game state and its operations, each proved to do what
  `src/rules.rs` says.
- `src/laws.rs`: properties of the game as a whole (cards are never lost, undo goes
  back, a win counts once, ...).
- `app/`: a terminal front end that reads commands, shows the board and stores the
  state as JSON.
