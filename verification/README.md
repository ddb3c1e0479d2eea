# glyphnet

GlyphNet optical codes: wide "RibbonWeave" symbols (and matrix and other layouts)
that carry checksummed binary frames, protected by Reed-Solomon or parity error
correction, optionally authenticated, and split into bursts for screens.

The library in `src/` is written in Verus; each public function carries a contract
that Verus proves.

- `frame`, `burst_packet`, `wire`, `bitstream`: the binary wire formats.
- `ecc`, `interleave`, `recovery`, `shards`: error correction, its byte layout and
  guided repair.
- `layout`, `matrix`, `geometry`, `profile`, `descriptor`: symbol geometry and module
  layout.
- `encode`, `render`, `svg`: from payload to symbol matrix, raster plan and SVG.
- `raster`, `decode`: sampling a grayscale image back into a frame.
- `cv`, `candidates` (and its submodules), `scanner`, `assembler`: still-image and
  camera scanning: thresholding, candidate regions, decode plans, burst assembly.
- `auth`, `keyring`, `keyset`, `hex`: authenticity envelopes, detached signatures and
  keysets.
- `primitives`: the trusted calls into `crc32fast`, `blake3`, `ed25519-dalek` and
  `reed-solomon-erasure`, each with the contract its source supports.

`app/` is the command-line program: file and image I/O, JSON, painting, and the
floating-point image work (resampling, perspective warps, fractional-grid sampling)
around the library's verified decisions. `tests/` runs the library on concrete
inputs.
