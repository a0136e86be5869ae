# materialize

Three parts of a streaming database, verified with Verus:

- `src/sql_parser`: the SQL parser. `lexer` splits text into tokens, `parser` holds the steps that
  every rule is made of, and each further module holds the rules for one part of the grammar. For
  each rule there is a function on the sequence of tokens that says what the rule yields, and the
  method of `Parser` that computes it. `parse` holds the entry points, `laws`, `white_space` and
  `joined` what holds of everything that is parsed. `alignment` shows rule by rule that tokens are
  read alike inside of a larger text.
- `src/sqllogictest`: running logic tests. What a test file expects (`ast`), how values are read and
  written (`slt`, `value`, `format`, `order`), how answers are judged (`query`, `outcome`,
  `pattern`), and how files are rewritten to expect what they got (`rewrite`). `laws` relates the
  two.
- `src/storage_client`: the storage controller's state. `controller` and `capabilities` track from
  which times on each collection can be read, `policy` how that follows what has been written,
  `collections`, `exports`, `operations` and `process` how the state changes, and `history`,
  `maintenance` and `resumption` what is done about the shards behind it. `proto` reads and writes
  what is stored of it. `laws`, `holds`, `accounts` and `growth` state what all of that keeps.
- `src/mz_acl_item.rs`: functions on access control items.

`app/` is the ordinary Rust around the library: it talks to the server under test, to files, and to
the services that the storage controller is built on.
