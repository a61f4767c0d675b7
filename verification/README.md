# ml_from_scratch

Small games played by evolving neural networks: Flappy Bird (the program),
a blackjack trainer and a pong prototype.

`src/` is the verified library:

- `hand`: a blackjack hand, its value (aces counting one or eleven) and
  random draws from the deck (the draw of a given rank is `add_card`).
- `round`: dealing, the player's hits, the dealer's turn to 17 and the winner.
- `ranking`: a stable ranking of a population by a score.
- `breeding`: which ranked members are copied, exact or mutated, into the next
  generation, for Flappy Bird (rank-weighted shares of the 20 best) and for
  blackjack (the 10 best and mutated copies of them).
- `generation`: which birds are alive, how many, the score and the generation
  number of a Flappy Bird run.
- `menu`: the blackjack trainer's console commands.
- `network`: the layer shapes of a dense network.

`app/` holds the rest: the macroquad frame loop and drawing, the `f32`
networks and physics, console and file I/O, and the parallel simulation.
