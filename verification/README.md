# wty

Converts Wiktionary data extracted by kaikki (wiktextract) into dictionaries for Yomitan,
and into HTML or StarDict for other readers.

The library under `src/` is verified with Verus: each public function states in its
contract what it computes, over spec functions on plain values (`Seq`, `int`, views).

- `lang`, `cli`, `path`: languages and editions, the language pairs a dictionary accepts,
  options, and where files go.
- `tags`: the tag bank, its localizations, sorting, merging and pruning of tags. The tag
  tables in `src/tags/data.rs` are partial: 54 bank entries (parts of speech, verb types,
  genders, registers and a few topics) with 110 aliases, and a display order of 41 tags, in
  place of the full 361-entry bank, whose data files this tree does not hold. Tags outside them
  are treated as missing from the bank; the German and Japanese localizations are complete.
- `dict::main`: the main dictionary, from dataset entries to an intermediate
  representation (lemmas and forms) and then to Yomitan terms.
- `dict::glossary`, `dict::ipa`: the translation glossaries and the pronunciation
  dictionaries.
- `dict::render`, `dict::writer`: HTML renderings of Yomitan entries, and other output.
- `dict::scan`: diagnostics of a dataset's tags.

The maps of the intermediate representation (lemmas, forms, transcriptions, tag counters) are
vectors of key–value pairs whose keys are proved distinct, kept in the order first met. Their
keys are strings or structs of strings, and with such keys a hash map's contract gives the
proofs nothing to go on; the vectors let every insertion be stated and proved, at the cost of
linear lookups.

`app/` is the command-line program around the library: argument parsing, downloads, reading
the jsonlines, JSON and zip output. `tests/` holds the tests of the library.
