use rendy::graph::ids::{GraphGenerationNodeId, PrimitiveAssemblerKind};
use rendy::graph::parameter::{IdGenerator, Parameter};
use rendy::graph::reflect::{
    compare_bindings, compare_set, merge_layouts, range_contains, BindingEquality, IndexBound, LayoutBinding,
    MergeError, PushConstant, SetEquality, SetLayout, ShaderReflection,
};
use rendy::graph::render::PrepareResult;
use rendy::graph::pass::{attachment_ops, subpass_layout, Attachment, AttachmentRole, Layout, LoadOp};
use rendy::graph::pass::{choose_present_mode, swapchain_image_count, PresentMode, PresentModes};
use rendy::graph::pass::{collect_attachments, surface_usage, SubpassAttachments};
use rendy::graph::pass::{clear_values, framebuffer_extent, same_extent, surface_format_index, AttachmentExtent};
use rendy::graph::pass::{plan_offscreen_frame, plan_surface_frame};
use rendy::graph::pass::{color_image_index, single_subpass, subpass_key, SubpassUses};
use rendy::graph::present::{AcquireOutcome, Extent2D, PresentAction, PresentState};
use rendy::graph::slice_buf::SliceBuf;
use rendy::layout::descriptor::DescriptorType;
use rendy::layout::shaders::ShaderStageFlags;

#[test]
fn id_generator_counts_from_zero() {
    let mut gen = IdGenerator::new();
    assert_eq!(gen.next(), 0);
    assert_eq!(gen.next(), 1);
    assert_eq!(gen.next(), 2);
}

#[test]
fn parameter_downcasts_only_to_its_type() {
    let p: Parameter<u32> = Parameter::from_index(7);
    let d = p.copy().into_dynamic();
    assert_eq!(d.index(), 7);
    assert_eq!(d.downcast::<u32>().map(|q| q.index()), Some(7));
    assert!(d.downcast::<u64>().is_none());
    assert_eq!(p.index(), 7);
}

#[test]
fn slice_buf_commits_pushed_items() {
    let mut buf: SliceBuf<u32> = SliceBuf::with_segment_capacity(4);
    buf.start_with_capacity(3);
    buf.push(1);
    buf.push(2);
    assert_eq!(buf.commit(), &[1, 2]);
    buf.start_with_capacity(2);
    buf.push(3);
    assert_eq!(buf.commit(), &[3]);
    // No room for 3 more in the first segment: a new one, doubled to 8, is made.
    buf.start_with_capacity(5);
    for i in 0..5 {
        buf.push(10 + i);
    }
    assert_eq!(buf.commit(), &[10, 11, 12, 13, 14]);
    buf.clear();
}

#[test]
fn slice_buf_drops_unfinished_slice() {
    let mut buf: SliceBuf<u8> = SliceBuf::new();
    buf.start();
    buf.push(1);
    buf.start();
    buf.push(2);
    assert_eq!(buf.commit(), &[2]);
}

fn binding(index: u32, ty: DescriptorType, count: usize) -> LayoutBinding {
    LayoutBinding { binding: index, ty, count, stage_flags: ShaderStageFlags::vertex(), immutable_samplers: false }
}

#[test]
fn bindings_compare_by_index_and_description() {
    let a = binding(0, DescriptorType::UniformBuffer, 1);
    let mut b = a;
    b.stage_flags = ShaderStageFlags::fragment();
    assert_eq!(compare_bindings(&a, &b), BindingEquality::Equal);
    let c = binding(0, DescriptorType::Sampler, 1);
    assert_eq!(compare_bindings(&a, &c), BindingEquality::SameBindingNonEqual);
    let d = binding(1, DescriptorType::UniformBuffer, 1);
    assert_eq!(compare_bindings(&a, &d), BindingEquality::NotEqual);
}

#[test]
fn sets_compare_by_bindings() {
    let ub = binding(0, DescriptorType::UniformBuffer, 1);
    let smp = binding(1, DescriptorType::Sampler, 1);
    let one = SetLayout { bindings: vec![ub] };
    let two = SetLayout { bindings: vec![smp, ub] };
    assert_eq!(compare_set(&one, &one), SetEquality::Equal);
    assert_eq!(compare_set(&two, &one), SetEquality::SupersetOf);
    assert_eq!(compare_set(&one, &two), SetEquality::SubsetOf);
    let other = SetLayout { bindings: vec![binding(0, DescriptorType::StorageBuffer, 1)] };
    assert_eq!(compare_set(&one, &other), SetEquality::NotEqual);
    let disjoint = SetLayout { bindings: vec![smp] };
    assert_eq!(compare_set(&one, &disjoint), SetEquality::NotEqual);
}

#[test]
fn later_binding_of_an_index_counts() {
    let ub = binding(0, DescriptorType::UniformBuffer, 1);
    let sb = binding(0, DescriptorType::StorageBuffer, 1);
    let twice = SetLayout { bindings: vec![sb, ub] };
    let once = SetLayout { bindings: vec![ub, binding(2, DescriptorType::Sampler, 1)] };
    assert_eq!(compare_set(&twice, &once), SetEquality::Equal);
}

#[test]
fn prepare_result_forces_record() {
    assert!(PrepareResult::DrawRecord.force_record());
    assert!(!PrepareResult::DrawReuse.force_record());
}

#[test]
fn node_ids_round_trip() {
    let id = GraphGenerationNodeId::new(42);
    assert_eq!(id.index(), 42);
    assert_eq!(GraphGenerationNodeId::from_u32(7).as_u32(), 7);
    assert_eq!(GraphGenerationNodeId::reserved_value().as_u32(), u32::MAX);
    assert_ne!(PrimitiveAssemblerKind::Vertex, PrimitiveAssemblerKind::Mesh);
}

#[test]
fn range_bounds_contain_items() {
    assert!(range_contains(IndexBound::Included(2), IndexBound::Excluded(5), 2));
    assert!(!range_contains(IndexBound::Included(2), IndexBound::Excluded(5), 5));
    assert!(range_contains(IndexBound::Excluded(2), IndexBound::Included(5), 5));
    assert!(!range_contains(IndexBound::Excluded(2), IndexBound::Included(5), 2));
    assert!(range_contains(IndexBound::Unbounded, IndexBound::Unbounded, 0));
}

#[test]
fn merging_layouts_unions_sets_and_stages() {
    let ub = binding(0, DescriptorType::UniformBuffer, 1);
    let smp = LayoutBinding { stage_flags: ShaderStageFlags::fragment(), ..binding(1, DescriptorType::Sampler, 1) };
    let vertex = ShaderReflection {
        sets: vec![SetLayout { bindings: vec![ub] }],
        stage: ShaderStageFlags::vertex(),
        push_constants: vec![PushConstant { stages: ShaderStageFlags::vertex(), start: 0, end: 16 }],
    };
    let fragment = ShaderReflection {
        sets: vec![SetLayout { bindings: vec![ub, smp] }, SetLayout { bindings: vec![ub] }],
        stage: ShaderStageFlags::fragment(),
        push_constants: vec![],
    };
    let geometry = ShaderReflection {
        sets: vec![SetLayout { bindings: vec![ub] }],
        stage: ShaderStageFlags::geometry(),
        push_constants: vec![PushConstant { stages: ShaderStageFlags::geometry(), start: 16, end: 32 }],
    };
    let layout = merge_layouts(&vec![vertex, fragment, geometry]).unwrap();
    assert_eq!(layout.sets.len(), 2);
    // The fragment shader's larger set replaced the vertex shader's; the geometry shader's
    // smaller one added its stage.
    assert_eq!(layout.sets[0].bindings.len(), 2);
    assert_eq!(layout.sets[0].bindings[0].stage_flags.bits(), 0x1 | 0x8);
    assert_eq!(layout.sets[0].bindings[1].stage_flags.bits(), 0x10 | 0x8);
    assert_eq!(layout.sets[1].bindings.len(), 1);
    assert_eq!(layout.push_constants.len(), 2);
    assert_eq!(layout.push_constants[1].start, 16);
}

#[test]
fn merging_conflicting_layouts_fails() {
    let a = ShaderReflection {
        sets: vec![SetLayout { bindings: vec![binding(0, DescriptorType::UniformBuffer, 1)] }],
        stage: ShaderStageFlags::vertex(),
        push_constants: vec![],
    };
    let b = ShaderReflection {
        sets: vec![SetLayout { bindings: vec![binding(0, DescriptorType::StorageBuffer, 1)] }],
        stage: ShaderStageFlags::fragment(),
        push_constants: vec![],
    };
    assert_eq!(merge_layouts(&vec![a, b]).err(), Some(MergeError::MismatchingBindings(0)));
}

#[test]
fn larger_set_missing_a_binding_is_not_a_superset() {
    let left = SetLayout {
        bindings: vec![
            binding(0, DescriptorType::UniformBuffer, 1),
            binding(1, DescriptorType::UniformBuffer, 1),
            binding(2, DescriptorType::UniformBuffer, 1),
        ],
    };
    let right = SetLayout { bindings: vec![binding(5, DescriptorType::UniformBuffer, 1)] };
    assert_eq!(compare_set(&left, &right), SetEquality::NotEqual);
    let covering = SetLayout { bindings: vec![binding(2, DescriptorType::UniformBuffer, 1)] };
    assert_eq!(compare_set(&left, &covering), SetEquality::SupersetOf);
}

#[test]
fn render_pass_attachments_are_sorted_once_each() {
    let subpasses = vec![
        SubpassAttachments {
            inputs: vec![Attachment::Image(3)],
            colors: vec![Attachment::Surface, Attachment::Image(1)],
            depth_stencil: Some(Attachment::Image(2)),
        },
        SubpassAttachments { inputs: vec![Attachment::Image(1)], colors: vec![Attachment::Image(3)], depth_stencil: None },
    ];
    assert_eq!(
        collect_attachments(&subpasses),
        vec![Attachment::Image(1), Attachment::Image(2), Attachment::Image(3), Attachment::Surface]
    );
    let usage = surface_usage(&subpasses);
    assert!(usage.color);
    assert!(!usage.depth_stencil);
}

#[test]
fn framebuffer_takes_the_smallest_extent() {
    let none = framebuffer_extent(&vec![]);
    assert_eq!(none, AttachmentExtent { width: u32::MAX, height: u32::MAX, layers: u16::MAX });
    let r = framebuffer_extent(&vec![
        AttachmentExtent { width: 800, height: 600, layers: 2 },
        AttachmentExtent { width: 1024, height: 480, layers: 1 },
    ]);
    assert_eq!(r, AttachmentExtent { width: 800, height: 480, layers: 1 });
}

#[test]
fn attachments_load_or_clear() {
    let c = attachment_ops(true, Layout::Present);
    assert_eq!((c.load, c.initial_layout, c.final_layout), (LoadOp::Clear, Layout::Undefined, Layout::Present));
    let l = attachment_ops(false, Layout::General);
    assert_eq!((l.load, l.initial_layout, l.final_layout), (LoadOp::Load, Layout::General, Layout::General));
    assert_eq!(subpass_layout(Attachment::Surface, AttachmentRole::Input, Layout::General), Layout::ShaderReadOnlyOptimal);
    assert_eq!(subpass_layout(Attachment::Image(0), AttachmentRole::Color, Layout::General), Layout::General);
}

#[test]
fn present_mode_and_image_count() {
    let all = PresentModes { immediate: true, mailbox: true, fifo: true, relaxed: true };
    assert_eq!(choose_present_mode(all), PresentMode::Fifo);
    let some = PresentModes { immediate: true, mailbox: false, fifo: false, relaxed: true };
    assert_eq!(choose_present_mode(some), PresentMode::Relaxed);
    assert_eq!(swapchain_image_count(2, 8), 3);
    assert_eq!(swapchain_image_count(1, 2), 2);
    assert_eq!(swapchain_image_count(4, 2), 4);
}

#[test]
fn frames_record_again_when_asked() {
    let reuse = vec![PrepareResult::DrawReuse];
    let record = vec![PrepareResult::DrawReuse, PrepareResult::DrawRecord];
    let p = plan_offscreen_frame(&reuse, true);
    assert!(!p.reset && !p.record && p.render_pass);
    let p = plan_offscreen_frame(&record, true);
    assert!(p.reset && p.record);
    let mut per_image = vec![0usize, 1, 2];
    let p = plan_surface_frame(&mut per_image, Some(1), 1, &reuse, true);
    assert!(!p.reset && !p.record && p.present == Some(1));
    let p = plan_surface_frame(&mut per_image, Some(1), 2, &reuse, true);
    assert!(p.reset && p.record);
    assert_eq!(per_image, vec![0, 2, 2]);
    let p = plan_surface_frame(&mut per_image, None, 0, &record, false);
    assert!(!p.reset && p.record && !p.render_pass && p.present.is_none());
}

#[test]
fn swapchain_is_recreated_when_suboptimal() {
    let fallback = Extent2D { width: 640, height: 480 };
    let mut state = PresentState::new(fallback);
    assert_eq!(state.start(), PresentAction::Acquire);
    assert_eq!(state.acquired(AcquireOutcome::Image { suboptimal: true }), PresentAction::Provide);
    assert_eq!(state.start(), PresentAction::Recreate);
    assert_eq!(state.recreate(None), (fallback, PresentAction::Acquire));
    assert_eq!(state.start(), PresentAction::Acquire);
    assert_eq!(state.acquired(AcquireOutcome::OutOfDate), PresentAction::Recreate);
    let suggested = Extent2D { width: 1920, height: 1080 };
    assert_eq!(state.recreate(Some(suggested)).0, suggested);
    state.set_fallback_extent(suggested);
    assert_eq!(state.start(), PresentAction::Recreate);
    state.recreate(None);
    state.presented(true);
    assert!(state.do_recreate);
}

#[test]
fn subpass_refers_to_attachments_by_index_and_preserves_the_rest() {
    let resources = vec![7usize, 3, 9, 5];
    let uses = SubpassUses {
        depth_stencil: Some((9, Layout::DepthStencilAttachmentOptimal)),
        colors: vec![(7, Layout::ColorAttachmentOptimal)],
        inputs: vec![],
    };
    let key = subpass_key(&resources, &uses);
    assert_eq!(key.colors, vec![(0, Layout::ColorAttachmentOptimal)]);
    assert_eq!(key.depth_stencil, Some((2, Layout::DepthStencilAttachmentOptimal)));
    assert!(key.inputs.is_empty());
    assert!(key.resolves.is_empty());
    // Resources 3 and 5 are unused: preserved in the order of the resources.
    assert_eq!(key.preserves, vec![1, 3]);
}

#[test]
fn single_subpass_puts_depth_after_colors() {
    let key = single_subpass(&vec![Layout::ColorAttachmentOptimal, Layout::General], Some(Layout::DepthStencilAttachmentOptimal));
    assert_eq!(key.colors, vec![(0, Layout::ColorAttachmentOptimal), (1, Layout::General)]);
    assert_eq!(key.depth_stencil, Some((2, Layout::DepthStencilAttachmentOptimal)));
    assert!(key.preserves.is_empty());
    assert_eq!(color_image_index(2, 1, 0), 3);
}

#[test]
fn clears_attachment_checks_and_surface_format() {
    assert_eq!(clear_values(&vec![Some(1u32), None, Some(3)]), vec![1, 3]);
    let e = AttachmentExtent { width: 8, height: 8, layers: 1 };
    let f = AttachmentExtent { width: 4, height: 8, layers: 1 };
    assert!(same_extent(&vec![e, e]));
    assert!(!same_extent(&vec![e, f]));
    assert_eq!(surface_format_index(&vec![false, true, true]), 1);
    assert_eq!(surface_format_index(&vec![false, false]), 0);
}
