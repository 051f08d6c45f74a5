# multiview

The logic of a small multi-view video switcher, verified with Verus.

- `src/layout.rs`: the fixed layouts and the sources assigned to their views.
- `src/renderer.rs`: the composition of the cached frames into one RGBA picture.
- `src/capture.rs`: what a capture thread does with a camera, and how its frames are decoded.
- `src/camera.rs`, `src/source.rs`: the cameras and sources, and which of them are running.
- `src/recorder.rs`: what is recorded, under which name, and how a session encodes and writes.
- `src/targets.rs`: the collections of recording targets.
- `src/yuv.rs`: the planes of a frame for the encoder.
- `src/text.rs`: decimal numbers and joined strings.

`app/` drives devices, threads and files on the decisions of the library. To reach cameras,
enable the feature of `nokhwa` for the platform, such as `input-native`.
