# bili_sync

The verified core of a bilibili dynamic-feed synchroniser, written in Verus.

- `src/` is the library. Its functions carry contracts that Verus proves, apart from
  the few trusted wrappers named below, whose contracts Verus takes on trust:
  reading feed items and comments out of JSON (`json`, `dynamic`, `reply`, `upper`),
  the Markdown export of a dynamic and its comments (`render`), the stored records and
  file names (`store`), the decisions of a sync round (`workflow`), the comment tree of
  the detail page and the statistics page (`detail`, `stats`), the bounded log history
  and its archive rotation (`loghistory`), moving a source to a new directory
  (`relocate`) and the scan progress (`scan`). `laws` states properties that span
  several of these functions.
- Calls into chrono and into `std::path` stand behind small trusted wrappers in
  `time`, `text`, `stats`, `loghistory` and `relocate`; each one's doc comment says
  what its contract assumes of the outside function.
- `app/` is ordinary Rust around the library: JSON conversion with serde_json, error
  types with thiserror, the log writer, directory copying and an offline exporter of
  saved feed and comment pages, which reads the comment pages in the order the
  library's `ReplyPaging` asks for them.
- `tests/` runs the library on concrete values.
