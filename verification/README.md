# pali_search

A verified library for searching Pāli texts: a tokenizer for the Pāli alphabet, lower-casing
and stop word filters, an algorithmic stemmer (a Snowball program) and a dictionary stemmer
read from a stem table, the loading of SuttaCentral's JSON texts, the vocabulary of a corpus,
its most frequent words, and character inventories.

- `src/` is the library, written in Verus: every function has a contract and is proved.
  Calls into `tantivy`, `csv`, `serde_json` and `counter` sit behind a few trusted wrappers
  whose doc comments say what they claim.
- `tests/` runs the library on concrete inputs.
- `app/` is the command line program: argument parsing, file and database access, the
  tantivy index, and printing.
