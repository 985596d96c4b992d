# file_vec

A vector that persists its items to a backing file when it is closed, with
the same operations as `Vec` (push, insert, remove, drain, retain, dedup,
extract_if, ...) and a few that concern the file: its path, what happens to
it when the vector is closed (persist, delete or serialize), and reopening a
persisted file. While the vector lives, its items are held in memory; the
file is read when a vector is opened over it and written, deleted or
serialized when the vector is closed.

## Layout

- `src/` is the verified library, checked by Verus.
  - `vec.rs`: `FileVec`, its close behavior `OnClose`, the serialization
    settings `SerialJson` and `SerialRMP`, what closing hands back
    (`Closing`), and the single-item operations; `vec/` holds the rest of
    its operations: `filter.rs` (retain, dedup), `grow.rs` (extend, append,
    split_off, resize, constructors), `files.rs` (open, close, leak,
    set_path) and `arrays.rs` (into_chunks, into_flattened, from_array).
  - `iter.rs`: `Drain` and `ExtractIf`.
  - `extraction.rs`: what any run of `next` and `next_back` calls on an
    `ExtractIf` leaves of the vector and hands out.
  - `capacity.rs`: how the buffer grows (powers of two for `reserve`, exact
    for `reserve_exact`, and the reservations `extend` makes on an
    iterator's size hint) and the largest buffer an item type allows.
  - `range.rs`: the ranges the range-taking methods accept and how they
    resolve.
  - `path.rs`: the names the vector picks for its backing files.
  - `seqs.rs`: facts about sequences the contracts are written in.
  - `laws.rs`: what holds across operations (pop undoes push, keeping the
    rest undoes a drain, reopening restores a closed vector, what any run
    of calls on a `Drain` leaves, ...).
- `app/` is the I/O around it: reading a file's items into a vector, writing,
  deleting or serializing the backing file when a vector is closed or dropped,
  and the serde-based serializations.
- `tests/` runs the library.

The library holds the items as plain values together with the capacity it
keeps room for, the backing file's name, the close behavior and whether a
serialization is set up; every operation's contract states what it does to
each of them. `reserve` only records the new capacity and, for a vector
without a backing file, picks a file name; no file is created or resized
until the vector is closed. What closing asks for is handed back as a
`Closing`, which `app/` carries out.
