# racoon_camera

Effects for a virtual camera: every frame from a webcam is optionally zoomed
onto the detected face, turned into a rotating round "racoon" view, and
coloured (each channel lifted to a chosen or randomly changing "disco" colour)
before it is handed to a virtual camera device.

- `src/` is the library, verified with Verus:
  - `color`: pixels and the colour lift;
  - `frame`: RGBA frames, the colour effect, the circular mask, cropping and
    scaling (through `image` and `fast_image_resize`), and the byte layout for
    the virtual camera;
  - `detection`: pixel boxes, fitting a zoom box to the frame, when a new face
    box replaces the one followed, and the detection schedule of the effects
    camera;
  - `rect`: detection rectangles given by two corners;
  - `effects`: the effect switches and colour;
  - `disco`: random disco colours;
  - `state`: the viewer's state and its per-frame steps.
- `app/` is the program around it: camera capture, the face detector (ONNX),
  rotation by an angle, the egui window and the virtual camera device.
- `tests/` runs the library on concrete frames.
