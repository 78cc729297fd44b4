# CRTSim

A CRT display simulator for stills, animations and video: what a picture goes through on its way
to the tube, how frames are planned, exported and played, and the rules of the desktop interface.

- `src/` is the library. Verus verifies it, on what is trusted of other crates (below).
  - `float`, `number`, `decimal`: IEEE 754 numbers on their bits, with what each operation gives.
  - `crt`: settings and their limits, sizes, color tables, meshes, resizing, the order of a render.
  - `media`: what ffprobe reports, FFmpeg's arguments, export plans, frame schedules.
  - `desktop`: the interface's state, its queue, history, previews, playback and projects.
  - `cli`: the command line's decisions.
- `tests/` runs the library on concrete values.
- `app/` is the program around it: the graphics device, processes, files, threads and drawing. It
  reads shaders, meshes and textures from the folder in `CRTSIM_ASSETS`, or beside the program.

Sines, powers and logarithms are worked out by the program and handed to the library, which takes
any value of them.

The library decodes stills itself, except lossless JPEGs and WebPs other than a single lossy frame:
on malformed ones the decoders may panic, so the program decodes those where a panic is stopped, and
the library takes what came of it. So it is with the frames of an animated WebP. Paths are text with
slashes; on Windows the program turns them into that first.

## What is trusted

These calls are not proved. Each stands in a function or a declaration of its own, whose contract is
believed and whose comment says what it claims; everything else follows from them.

| Where | What is called | What is claimed of it |
| --- | --- | --- |
| `crt::input` | `image`: the size of an image, and decoding it | the outcome is named, and one of the file alone; of a JPEG's pixels only how many there are |
| `crt::picture` | `image`: `imageops::resize` | the nearest filter's pixels; of the smooth one's only how many there are |
| `crt::texture`, `crt::nes_luts` | `image`: decoding a BMP, and a PNG | the outcome is named |
| `desktop::thumbnails` | `image`: `imageops::thumbnail` | the outcome is named |
| `desktop::files` | `image`: `PngEncoder` | the outcome is named; it is a PNG without text |
| `media::frames` | `image`: `GifDecoder` and `Frames`; `image_webp`: `WebPDecoder::new` | the outcomes are named, and frames come one after the other |
| `media::json` | `serde_json`: `from_slice` | the outcome is named |
| `desktop::gallery` | std: `char::is_alphanumeric`, `str::to_lowercase` | the outcomes are named; the first on ASCII |
| `text` | std: `String::push` | the character comes last |

A named outcome is the same for the same arguments, and no more is said of it than stands here.
