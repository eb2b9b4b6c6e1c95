# iris

The logic of a screenshot and screen-recording utility, as a Verus library:
what its windows show, what the pointer and the keys do, how an image is
marked up, cut and saved, and how commands reach the one running process.

- `src/` is the library. Every function states what it returns or changes, and
  the `law_*` proofs state what holds across several of them.
- `tests/` run it, with the crates it calls.
- `app/` is the program round it: files, the clipboard, the socket, fonts and
  the clock.

Lengths are in units, of which a pixel has 10,000. Progress is in parts, of
which the whole way has 1,000,000,000. Times are in milliseconds.
