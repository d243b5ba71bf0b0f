# jdvrif

Conceals a file inside a JPG image and recovers it again. The file is compressed
with zlib, encrypted with XChaCha20-Poly1305 under a key that Argon2id derives
from a random recovery PIN, and stored in metadata segments of the image (default
and Bluesky modes) or in its DCT coefficients (Reddit and X-Twitter modes).

The library under `src/` is written in Verus. What its functions do is stated in
`requires` and `ensures` clauses and proved; what relates several of them stands
as public proof functions whose names begin with `law_`.

| Module | What it holds |
| --- | --- |
| `common`, `decimal`, `constants`, `runtime` | bytes, numerals, the format's constants, errors and their texts |
| `filename`, `cli`, `paths`, `signal` | names, the command line, output names, cancellation |
| `jpeg_preprocess` | inspecting cover images |
| `scan`, `base64`, `extract` | finding and cutting out what an image holds |
| `crypto`, `zlib` | the boundary to `alkali`, `dryoc`, `zeroize` and `flate2` |
| `encrypt`, `decrypt` | framing, key derivation, PIN entry, inflating, decryption |
| `conceal`, `conceal_helpers`, `reddit`, `output_file` | concealing a file and writing the image |
| `recover` | recovering a file |

`crypto` and `zlib` hold all that is trusted: each item there names the outside
function that it stands for and says what is claimed of it. A secretstream is
written with libsodium, through `alkali`, and read with `dryoc`, whose receiving
end answers a frame with an undefined tag instead of panicking on it.

`app/` is the program around the library: files, the terminal, signals, TurboJPEG
and the native carriers. It expects the segment templates under
`/usr/share/jdvrif/templates` and links `turbojpeg` and `jdvrif_carriers`.

`tests/` runs the library on concrete images, files and PINs.
