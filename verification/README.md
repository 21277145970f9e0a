# glide

The decisions of a tiling window manager, verified with Verus.

- `src/requests.rs` lists what can be asked of a host. `src/link.rs` has the traits of a
  host (`LayoutHost`, `ReactorHost`) and `Link`, which hands each request to the host and
  records it with its answer. No answer is relied on.
- `src/layout/` is the layout manager: events, commands, floating windows, viewports,
  the wheel, and resizing and moving with the mouse.
- `src/reactor/` is the reactor: screens and spaces, windows that come, go and change
  their frames, and what is raised, focused and moved because of it.
- `src/window_class.rs` says which windows are managed, `src/response.rs` joins
  responses, `src/edges.rs` tells the edges of a window apart.
- The files named `laws.rs` or ending in `_laws.rs` state what holds over several steps.
  Some of it holds with hosts of a certain kind: `src/layout/tree_model.rs` says what a
  layout tree does, and the laws that need it ask for a host that answers like one.
- `app/` has the numbers, the files, the messages and the loop around the library.

Numbers in double precision are carried as bit patterns (`Real`); whatever has to be
computed with them is asked of the host.
