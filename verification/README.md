# booksearch

Typeahead search over the ebooks in a directory tree, on the terminal. The files
stay where they are and are never written to; the index is an SQLite file,
`.booksearch.db`, with a directory of covers, `.booksearch_covers/`, beside it.

The library under `src/` holds what the program decides, with contracts that
Verus proves:

- `text`, `fold`, `path`, `order`: words, substrings, the form in which texts are
  compared without regard to case, file names, and the order in which books are
  listed. Paths are those of Unix.
- `metadata`, `json`, `book`, `store`: what is known of a book, the text that it
  is searched by, and the form in which it is stored.
- `filter`, `state`, `app`, `laws`: the terms of a filter, the layers of filtered
  lists that typing builds up and backspace takes down, the selection, and what
  holds of them whatever happens.
- `keys`, `share`, `screen`: what the keys do, how far the sending of a book has
  come, and what the screen says.
- `extract`, `index`, `index_laws`: how a book is read, which files are read, and
  when what was read is committed.
- `seqs`: facts about filtered sequences.

The program under `app/` is what is left: the terminal, the database, the walk
over the directory, and the parsers. EPUB files are read in process; for AZW3,
AZW, MOBI, PDF, FB2, LIT, LRF and KFX it calls `ebook-meta`. Without that tool
such files are listed by their names. Enter sends the selected book with
`wormhole send` and shows the code; Esc stops that.

Terms are separated by white space, and all of them have to match. Each is looked
for, without regard to case, in the file name (with `_` taken for a space), the
title and the author.
