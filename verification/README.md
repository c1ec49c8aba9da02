# bresize2fs

Grows an ext filesystem into the sectors in front of it, or makes it give sectors up
there, and moves its data within the file or device that holds it.

- `src/` is the library, verified with Verus. It holds every decision as a function
  on plain values.
  - `cli`: the operation that a text asks for, and what it comes to in sectors for
    a given filesystem.
  - `fs::superblock`: what the bytes of a superblock say.
  - `device`: verifying a filesystem at one place, and searching a file for one.
    Both are state machines that say what is to be done next and take in what came
    of it.
  - `worker::non_optimized`: the steps of an extension and of a shrink, and the
    order in which the chunks of a move are copied.
  - `worker::job`: taking those steps one after the other.
  - `command`: the command lines of `losetup`, `e2fsck` and `resize2fs`.
  - `report`: what the user is told.
  - `text`: decimal and hexadecimal text.
- `app/` is the program around it: arguments, files, child processes, progress bars.
- `tests/` runs the library on concrete values.

The central theorem is `worker::non_optimized::lemma_move_relocates`: copying the
chunks of a move in their order leaves the file as if all the data had been read
before any of it was written, however the old and the new place overlap.

Three things are taken on trust, each stated where it is used: `String::push`,
`bstr`'s substring search, and `byte_unit`'s text for a number of bytes.
