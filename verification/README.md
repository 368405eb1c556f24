# weecord

A weechat plugin that connects weechat to Discord, with the plugin's logic
written as a library verified by Verus.

## Layout

- `src/` is the verified library. The public functions state what they
  return in their `ensures`, over spec functions on plain values (sequences of
  characters, integers, the views of the library's types). The laws that hold
  across several functions are public proof functions:
  - `styled_laws.rs`: what styled strings keep across their operations
    (absorbing keeps the styles, plain text builds to itself, styled text
    keeps its style, `find` and `slice` count the same bytes);
  - `styled_string.rs`: literals carry no line breaks;
  - `store.rs`: a message added can be read back;
  - `markdown.rs`: every colour a node pushes it pops again;
  - `events.rs`: adding then removing a reaction restores the counts;
  - `config.rs`: a channel list written to the configuration reads back;
  - `typing.rs`: the typing list stays bounded;
  - `members.rs`: member list updates compose;
  - `utils.rs`: buffer names are free of the removed characters, and
    cleaning them again changes nothing.
- Where the outside crates compute something from state that only they
  hold (twilight's cache, the permissions a member has), `app/` makes the
  call and hands the library the result; the library decides from it (for
  instance `permissions::is_text_channel`).
- Calls into outside crates (regex, chrono, rand, twilight-mention) go through
  small wrappers marked `#[verifier::external_body]`, each with a doc comment
  naming the function it calls and what its contract claims.
- `tests/` holds the tests, run against the compiled library.
- `app/` is the plugin around the library: weechat's hooks, buffers and
  options, the Discord connection (twilight), and the conversions between
  twilight's types and the library's.
