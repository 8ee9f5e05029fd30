# facecomp

Compares a master photo (or several photos of one person) against other
photos and reports a cosine similarity, a percentage match and a
qualitative confidence label for each.

- `src/` is the verified library: backend names and parsing, command-line
  value checks and resolution, choosing which slave photos are compared,
  reading landmarks out of detection rows,
  picking the best score and ranking results best first, confidence labels,
  error messages and table padding. Its contracts and laws are checked by
  Verus.
- `app/` is the command-line program: OpenCV detection, alignment and
  embedding, the floating-point scoring (match percentage, master
  templates), file and environment access, and output.
- `tests/` exercises the library on concrete values.
