# wallpaper-rs

A wallpaper daemon for Wayland with animated transitions between wallpapers.

- `src/` is the verified library: the configuration model, the pixel
  arithmetic of every transition effect (convergence, fade blending, radial
  and wave sweeps), the transition state machine, image placement for the
  resize strategies, the RGBA to BGRA channel swap, nearest-pixel sampling
  and output selection. Image decoding and compositing call `image`;
  resizing calls `fast_image_resize`.
- `app/` is the daemon: configuration loading, the Wayland session and event
  loop, and the floating-point geometry (easing curves, circle and wave
  edges, crop centering, fit scale) that feeds each frame to the library.
- `tests/` exercises the library on concrete values.
