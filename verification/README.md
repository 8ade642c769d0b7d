# hipfire

The decisions of the hipfire inference runtime, written in Verus and proved
against their contracts: which session a request continues, how a prompt is cut
and framed, what a model load does in which order, which tensors are loaded and
in which shape, what a draft may commit, how an image becomes tokens.

* `src/` is the verified library. Each module opens with what it is about. Laws
  that relate several functions stand as public proof functions beside them.
* `tests/` runs the library on concrete values.
* `app/` is what surrounds it: files, settings, channels, devices, and floating
  point. Devices are traits there; the library hands out programs of operations
  for them, or asks for one step at a time and takes what came of it.

JSON documents are `serde_json::Value`s and decoded images are
`image::DynamicImage`s. What those crates are trusted to do is stated at the
functions that call them, in `src/json.rs` and `src/vision_prepare.rs`.
