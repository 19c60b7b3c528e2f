# momostyle

Image filters for a screen-capture styling viewer, with their behaviour
proved by Verus.

- `src/` is the verified library:
  - `buffer`: gray and RGB images held in `image::ImageBuffer`, with the
    trusted statements of what the `ImageBuffer` methods do;
  - `fast3x3`: the integer 3x3 filter (`flt3x3`, `flt3x3_checked`), the
    one-dimensional padding it reads (`padding1d`), the zero frame
    (`padding`) and `clamp`, with the laws that relate them;
  - `fastimg`: darkening a colour image by an edge map (`para_map2`) and
    packing mapped pixels into an image;
  - `channels`: the brightest and darkest channel of a pixel;
  - `viewer`: how the keys move the captured region and how a frame is
    written into the window buffer;
  - `arith`: facts about row-major layouts.
- `app/` is the viewer program (screen capture, window, threads) and the
  colour maps that work in floating point (HSL, YUV, `yuv_rank`,
  `flt3x3f`).
- `tests/` runs the library on concrete images.
