# ax_snapshot

What a browser shows outside its pages: the focused element, and the popups of
its own windows, as a JSON value. The library is written in Verus: every
function in `src/` is verified against its contract, apart from the few that
hand a call on to `serde_json` or the standard library.

- `src/json.rs`: JSON values as mathematical objects, and the `serde_json` calls.
- `src/text.rs`: comparison of texts, decimal numbers.
- `src/node.rs`, `src/attribute.rs`: elements, and what a read of an attribute counts as.
- `src/element.rs`, `src/popup.rs`: elements, list items and popups in JSON; the walk that finds popups.
- `src/dedup.rs`: of the sightings of one popup, the first is kept.
- `src/snapshot.rs`: the snapshot.
- `src/reading.rs`: which parts of a tree have to be read, and that they are enough.
- `src/walk.rs`: the walks find all that they look for, in order.
- `src/laws.rs`: what holds of every snapshot.
- `src/pid.rs`: the browser's process id, out of a process listing.
- `src/click.rs`: the steps of a click.
- `app/`: asking macOS for the tree, the listing and the click.
