# treq

TrEq is a terminal equalizer for PipeWire: profiles of hierarchically
cascaded EQ nodes, each node holding a list of bands (a filter shape, a point
or range frequency, a gain and a quality factor), edited in a terminal
interface and applied to live audio with biquad filters.

## Layout

- `src/` is the verified library, written in Verus:
  - `band.rs`: filter shapes, frequencies, bands and band edits;
  - `node.rs`: nodes, their band lookup, band switching and cleanup;
  - `profile.rs`: profiles, the node store and lookup, adding, switching
    and editing nodes, and the cleanup sweep below a switched-off root;
  - `processing.rs`: the order in which the bands of a profile are applied
    to audio (a switched-on node's enabled bands, then its children, depth
    first; a switched-off node applies none of its own bands);
  - `helper.rs`: the command line; `dao.rs`: the profile directory;
  - `interfaces.rs`, `render.rs`, `app_state.rs`: the screens, the menus and
    the state of the terminal interface;
  - `uid.rs`, `text.rs`: fresh identifiers and string helpers.
- `app/` is the program around it: argument reading, the profile files
  (JSON through serde), the terminal (ratatui, crossterm), audio devices
  (cpal), the ring buffers and audio threads, and the biquad filters, which
  compute in floating point.
- `tests/` runs the library on concrete values.

Gains and quality factors are floating-point values; the library carries
them as their bit patterns and never computes with them. Nodes live in a
store owned by their profile and refer to each other by position in it.
