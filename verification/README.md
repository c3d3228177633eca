# gpuix_native

The rules of the GPUIX native renderer, proved with Verus: how a batch of
React mutations is parsed (all or nothing), how element ids are read from
JavaScript numbers, how scroll snapping and `scroll-initial-target` decide
where a box comes to rest, which elements take focus, the two-level
highlight cache, and the small readers of declared style values.

- `src/` is the verified library. Each public function states what it
  returns in its `ensures`; the laws that relate several functions are
  public `proof fn`s named `lemma_*`.
- `tests/` runs the library on concrete values.
- `app/` is the host side: doubles in and out, and the error texts that
  need Rust's float formatting.

Parsing JSON text is serde_json's work; the library names its result and
reads the parsed tree.
