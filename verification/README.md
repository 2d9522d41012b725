# lab16_core

Reads FB2 books, splits them into sections of Markdown text, finds candidate
entity names in them, and prepares the prompts and batches with which a local
language model classifies those names. The library under `src/` is written in
Verus: every function states its behaviour in `requires`/`ensures` over
mathematical models, and Verus proves it.

## Layout

- `src/text.rs` — white space, trimming, joining; the few `str` operations
  the library uses.
- `src/fb2scan/` — the book model (`book.rs`), inline markup as Markdown
  (`markdown.rs`), section text as segments with their byte ranges
  (`segments.rs`), reading an FB2 document (`parse.rs`), the scan of a
  book into sections (`mod.rs`), and what holds of every scanned section
  (`laws.rs`).
- `src/entity_extractor/` — the word and sentence segmentation and the hash
  tables the scanner uses (`segmentation.rs`, `tables.rs`), the XML reader's
  events (`xml.rs`), the frequency scan of capitalized words and its
  invariant (`scanner.rs`), ranking for reports (`ranking.rs`),
  and the classification prompts and reply cleaning (`extractor.rs`).
- `src/inference/` — token batches, the decisions of an inference run
  (prompt chunks, sampling loop, decoder status codes), and the settings a
  model and a context are built with.
- `src/gpu_llm/`, `src/extractor/`, `src/cli.rs`, `src/knowledge.rs` —
  context parameters, section prompts, the command line as values, and the
  entity records.
- `app/` — the program around the library: command-line parsing, file
  reading, JSON (de)serialization, the model download, and the
  bindings to llama.cpp, which perform the decoder calls that the library's
  inference state machine asks for.
- `tests/` — tests of the library on concrete values.
