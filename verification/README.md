# openwiki

The logic of OpenWiki's capture and knowledge-base features, written in
Verus. Every function in `src/` carries a contract, and Verus proves all of
them except a few small wrappers around std (`String::from_utf8`,
`str::to_lowercase`, `Path::extension`), whose contracts are trusted and
stated in their doc comments.

- `src/text.rs` — string building blocks over `Seq<char>`: UTF-8 lengths,
  searching, trimming, splitting, joining, replacing, decimal numbers.
- `src/attention.rs` — the attention-analysis prompt, recovery of the JSON
  in a model reply, pruning of evidence that points at no analysed item,
  and the requests sent to, and replies judged from, each model provider.
- `src/wiki_prompts.rs` — the prompts of the wiki's assessment, compile,
  query and lint steps.
- `src/url_text.rs` — entity decoding, cutting of long content, titles,
  Twitter and GitHub URLs, base64, WeChat article text and HTML-to-text.
- `src/url_reader.rs` — which reader a URL's host goes to, the order of fallbacks,
  and what each reader makes of what it fetched.
- `src/images.rs` — supported image files, review and selection of
  orphaned images, the quarantine manifest, sorting of a scan, and the
  decisions of cleaning up and restoring images.
- `src/commands.rs` — what the content and wiki commands compute: query
  windows, graph edge counts, Q&A replies and saved answer pages, lint
  findings and the tally of an automatic compile.

Public proof functions (`lemma_*`) state properties that hold across calls,
such as that pruning or JSON extraction is idempotent, or that cancelling a
planned move gives back the manifest as it was.

`app/` holds what Verus does not check: HTTP calls with `reqwest`, the file
system, SQLite through `rusqlite`, and the `serde` forms of the library's
types. `tests/` exercises the library on concrete values.
