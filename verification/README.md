# mindurka_bot

A chat bridge and moderation bot for Mindurka game servers. Chat travels
between the game servers (through RabbitMQ queues) and Discord channels; new
threads in a reports forum are read as player reports.

- `src/` is the verified library (Verus): the report parser, the decimal rule
  numbers, the configuration tables, the routing decisions of the bridge in
  both directions, the report summary, and the database connection procedure
  as a state machine.
- `app/` is the program around it: configuration files, the Discord client,
  the queues, the database, and the loops that perform what the library
  decides.
- `tests/` runs the library on concrete values.
