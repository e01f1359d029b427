# binwalk

Extraction of Android sparse images, with the extraction logic verified by Verus.

An Android sparse image stores a disk image as a file header and a list of chunks.
Each chunk stands for a run of blocks: stored as they are, filled with one value, or
of no interest.

- `src/structures/` parses the headers.
- `src/extractors/androidsparse.rs` walks the chunks and hands out the output piece
  by piece. It never trusts a size: nothing is written for a header that declares
  more than 16 GiB, and never more than the header declares.
- `src/extractors/androidsparse_model.rs` says what an extraction is. The contracts
  are stated over it.
- `src/extractors/androidsparse_laws.rs` and `androidsparse_stored.rs` prove what
  holds of every extraction, up to: an image that was stored comes out again.
- `app/` writes the output to files.
