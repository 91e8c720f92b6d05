# async_exec

The request bookkeeping of an inference server that decodes speculatively: a small draft model
proposes tokens, a large target model checks them, and each output sequence may be held to a
grammar.

- `src/` is the verified library. `types`, `request` and `pending` hold the values; `executor`
  holds the state of all requests, with the rounds of drafting and checking in `executor::rounds`
  and the batches of sampling masks in `executor::logits`; `llg` and `channel` hold what is taken
  from `llguidance` and `tokio`; `laws` holds what is proved of the library as a whole.
- `app/` drives the engines: it performs the calls that the library asks for, and hands the
  engines' answers back.
- `tests/` runs the library with real grammars and real channels.
