# ndi_client

A client that shows NDI video sources full-screen, one per monitor, as a
configuration file assigns them.

- `src/` is the verified library:
  - `source_selector.rs`: monitor ids and the selector that knows which
    monitor shows which source and which sources are on the network;
  - `config.rs`: the configuration;
  - `ndi.rs`: discovered sources and which monitors get a receiver;
  - `renderer.rs`: which monitors get a window, window titles, surface
    formats and what a window event leads to;
  - `tables.rs`: the `dashmap` maps the selector keeps its tables in, with
    the contracts this library relies on.
- `app/` is the program around it: configuration file, NDI discovery and
  receiver threads, windows and GPU rendering.
- `tests/` exercises the library.
