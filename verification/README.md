# pumpkin

Verified core of a Minecraft server's data handling, written with Verus.

- `src/nbt`: the NBT binary format. Tags and compounds, the byte codec with
  its reader and writer, documents (named and unnamed roots) and gzip
  framing. The laws in `nbt/laws.rs` and `nbt/roundtrip.rs` state that a
  well-formed document (distinct names in each compound, lists of one kind of
  tag) that is written, plainly or gzip-compressed, reads back as written; the
  writers state the facts those laws need.
- `src/inventory`: item stacks, the player's inventory, clicks in windows
  (picking up, dragging, shift-clicking, swapping), crafting recipes and the
  result slot, and keeping a client's view of a window in step. The laws in
  `inventory/laws.rs` state that adding, inserting and offering stacks to the
  player's inventory, moving a stack into a range of slots, a pickup click on
  a slot other than a crafting result, and a shift-click on a slot other than
  a crafting result neither make nor lose items, and that taking a crafting
  result uses one item of every stack of the grid.
- `src/data`: registry tags, block state flags, naming of generated
  constants, grouping blocks by their property sets, and other game data
  helpers.
- `src/config`: the server and feature configuration, its defaults and its
  checks.
- `app`: loading configuration files and tag data, and gzip streams over
  `std::io`, around the library.
