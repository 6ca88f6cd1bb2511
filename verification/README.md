# hid-descriptor

A verified parser for USB HID report descriptors, written in Verus.

- `src/item.rs`: item types and tag decoding (`Item::from`, the tag enums,
  `MainDataFlags`).
- `src/parser.rs`: `ItemIter`, which splits descriptor bytes into raw short and
  long items. Its contract is the spec function `next_item`; the lemmas beside it
  show that every item advances the position, that an error ends the
  descriptor, and that each item is exactly the bytes that encode it.
- `src/semantic.rs`: `DescriptorBuilder`, which applies HID's global and local
  scoping rules. Its contract is the spec function `apply_spec`; the lemmas show
  that Push/Pop restore the global state, that main items clear the local state,
  which items are refused, and that every parsed item can be applied.
- `src/hidraw.rs`: ordering of hidraw device names.
- `app/`: the driver program, device discovery on the filesystem, and the error
  types with their `Display` messages.
