# zero_sum_game

A small securities exchange simulation whose core is verified with Verus.

- `src/orders.rs`: orders and trades.
- `src/securities_lib.rs`, `src/securities.rs`: securities, their daily
  statistics, and the securities listed at the start.
- `src/matching.rs`: the model of a book side and of price-time priority matching.
- `src/exchange.rs`: order books and the exchange (listing, placing orders,
  recording trades).
- `src/player.rs`: a player's cash and portfolio.
- `src/session.rs`: market orders typed by the player: validation, order ids,
  placing them on the exchange, and settling their trades.
- `src/commands.rs`: reading a typed line into a command.
- `src/laws.rs`: properties of matching, books, holdings and settlement.
- `app/`: the console program (a scripted session, the interactive commands,
  and the text output, which shows cents as dollars with floating point).
