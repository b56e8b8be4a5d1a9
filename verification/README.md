# balatro_ai

A bot for Balatro that talks to the BalatroBot JSON-RPC API. The library under
`src/` holds the decisions, verified with Verus; `app/` holds the bot's loop,
the spread of the win counts over threads, the HTTP calls, the JSON shapes and the state printer.

- `cards`: ranks, suits, hand ranks, label parsing, API keys and card chips.
- `state`: the game state as the API reports it, reading cards and blinds off it.
- `scores`: the table of hand levels, keyed by the hand's API name.
- `scoring`: the score of a played hand (balatro-rs decides which poker hand it is).
- `search`: the best five cards of a hand, over every five-card pick.
- `deck`: the cards left in a fresh deck once the hand's cards are out.
- `rollout`: one simulated discard and draw.
- `plan`: the discards to try, win counts over random draws, and the move to make.
- `combos`: picks of positions and their lexicographic order.
- `outside`: the calls into balatro-rs, itertools, rand and std's sort, with the
  contracts the library relies on.
- `laws`: properties that span several functions.

Run the bot with `balatro_ai`, or print the game state with `balatro_ai print [-v]`.
