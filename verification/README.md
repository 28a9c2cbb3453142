# live_sync

The live synchronisation engine of a document store, with its decisions verified by Verus.

A node keeps documents in sync with its peers. It dials peers, accepts their requests, settles who
goes on when both sides dial at once, downloads the content that entries refer to, and tells
subscribers and neighbors what has become available. All of these decisions are made by one state
machine, `live::LiveActor`: it takes an `Input` and returns a `Step`, which holds the actions to be
performed and the question that is left, if any.

## Layout

- `src/` is the library. Everything in it is verified, but for the few calls into other crates that
  `outside` lists.
  - `live` is the engine, and `model` describes what it does as a mathematical object.
  - `state`, `hashes` and `subscribers` are its tables, on top of the ordered maps of `sorted`.
  - `ids` and `messages` are the values it deals in.
  - `laws` holds what is proved of the engine as a whole: `laws::syncs` and `laws::content` speak of
    single steps, `laws::runs` of whole runs.
  - `outside` says what is taken on trust from other crates.
- `tests/` runs the library on concrete values.
- `app/` is the actor around it: it waits for messages, connections, downloads and changes of
  documents, hands them to the library, and performs what the library decides.
