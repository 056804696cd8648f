# rendy

GPU memory management, shader interface layout and render-graph helpers, with their
behaviour stated in contracts and proved with Verus.

## Layout

- `src/memory`: memory properties and usages, memory objects and their host mappings,
  the sub-allocators (dedicated, linear, arena, dynamic) and `Heaps`, which picks the
  memory type that suits a request best and accounts for what each device heap lends.
  The dynamic allocator keeps its free blocks in a `hibitset::BitSet` and its chunks in a
  `veclist::VecList`; `src/memory/allocator/collections.rs` holds the contracts assumed
  of those two crates.
- `src/layout`: descriptor types, descriptor set layouts, push constant ranges and shader
  stage flags.
- `src/graph`: parameter identifiers, the slice buffer, comparison and merging of
  reflected descriptor set layouts, graph identifiers, and the decisions of render pass
  and present nodes: attachment order, framebuffer extent, load operations and layouts,
  subpass descriptions, swapchain settings, when commands are recorded again and when
  the swapchain is recreated. Creating the GPU objects and submitting commands is left to
  the graphics API.
- `app`: what stays in ordinary Rust: the parameter store (values behind `dyn Any`),
  the graph's borrow flags (shared through raw pointers), host writes into mapped
  memory, and the colored utilization report.
- `tests`: tests of the library, run against a mock device.

The device that memory is allocated from is the `Device` trait of `src/memory/device.rs`;
users implement it for their graphics API. Its spec functions (`grants`, `maps`, `frees`,
`unmaps`, `invalidates`, `flushes`) name what the device was asked and answered, so the
allocators' contracts say which memory objects they took from the device and which they
handed back.
