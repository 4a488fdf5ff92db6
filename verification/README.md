# difftastic_nvim

A Neovim plugin that shows [difftastic](https://difftastic.wilfred.me.uk/) diffs of git
and jj repositories side by side.

- `src/` is the library: what to run, how to read what was printed, how to compare the
  files of a range one by one without losing any, and what a display must keep before it
  is shown. It is verified with Verus.
- `app/` is the plugin around it: it runs commands, reads and writes files, and hands
  tables to Lua. The reader of difftastic's JSON and the layout of files in rows are put
  in through the trait `Stages`.
- `tests/` run the library on concrete values.

Some functions are taken at their word: of the standard library `String::push`, the
`Debug` form of `str`, and `String::from_utf8_lossy`, with contracts in `src/text.rs`,
`src/compare.rs` and `src/command.rs`; of serde_json the making of a `Value` and
`to_string_pretty`, with contracts in `src/json_text.rs`.
