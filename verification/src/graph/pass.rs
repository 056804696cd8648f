//! Decisions a render pass node makes when it is built and when it runs: which attachments
//! it has and in what order, the framebuffer's extent, the load operations and layouts of
//! the attachments, the presentation settings of its surface, and when its commands are
//! recorded again.

use vstd::prelude::*;

verus! {

/// Attachment of a subpass: an image of the graph, by its identifier, or the surface the
/// node presents to.
#[derive(Clone, Copy, Debug, PartialEq, Eq, Structural)]
pub enum Attachment {
    /// Image of the graph.
    Image(usize),
    /// The node's surface.
    Surface,
}

/// Position of an attachment in the node's order: images by identifier, then the surface.
pub open spec fn attachment_key(a: Attachment) -> int {
    match a {
        Attachment::Image(id) => id as int,
        Attachment::Surface => usize::MAX + 1,
    }
}

/// Attachments of one subpass.
#[derive(Clone, Debug)]
pub struct SubpassAttachments {
    /// Input attachments.
    pub inputs: Vec<Attachment>,
    /// Color attachments.
    pub colors: Vec<Attachment>,
    /// Depth-stencil attachment.
    pub depth_stencil: Option<Attachment>,
}

/// Subpass `s` uses attachment `a`.
pub open spec fn subpass_uses(s: SubpassAttachments, a: Attachment) -> bool {
    s.inputs@.contains(a) || s.colors@.contains(a) || s.depth_stencil == Some(a)
}

/// Some subpass of `subpasses` uses attachment `a`.
pub open spec fn pass_uses(subpasses: Seq<SubpassAttachments>, a: Attachment) -> bool {
    exists|i: int| 0 <= i < subpasses.len() && subpass_uses(#[trigger] subpasses[i], a)
}

/// `s` is in the node's order with no attachment twice.
pub open spec fn strictly_sorted(s: Seq<Attachment>) -> bool {
    forall|i: int, j: int| 0 <= i < j < s.len() ==> attachment_key(#[trigger] s[i]) < attachment_key(#[trigger] s[j])
}

/// `a` comes before `b` in the node's order.
fn attachment_before(a: Attachment, b: Attachment) -> (r: bool)
    ensures
        r == (attachment_key(a) < attachment_key(b)),
{
    match (a, b) {
        (Attachment::Image(x), Attachment::Image(y)) => x < y,
        (Attachment::Image(_), Attachment::Surface) => true,
        (Attachment::Surface, _) => false,
    }
}

/// Two attachments with the same key are the same attachment.
proof fn lemma_key_injective(a: Attachment, b: Attachment)
    requires
        attachment_key(a) == attachment_key(b),
    ensures
        a == b,
{
}

/// Add `a` to the sorted list `v`, unless it is there already.
fn insert_attachment(v: &mut Vec<Attachment>, a: Attachment)
    requires
        strictly_sorted(old(v)@),
    ensures
        strictly_sorted(final(v)@),
        forall|x: Attachment| #[trigger] final(v)@.contains(x) <==> (old(v)@.contains(x) || x == a),
{
    let mut i: usize = 0;
    while i < v.len() && attachment_before(v[i], a)
        invariant
            i <= v.len(),
            v@ == old(v)@,
            strictly_sorted(v@),
            forall|k: int| 0 <= k < i ==> attachment_key(#[trigger] v@[k]) < attachment_key(a),
        decreases v.len() - i,
    {
        i = i + 1;
    }
    if i < v.len() && v[i] == a {
        return;
    }
    proof {
        if i < v.len() {
            assert(attachment_key(a) <= attachment_key(v@[i as int]));
            if attachment_key(a) == attachment_key(v@[i as int]) {
                lemma_key_injective(a, v@[i as int]);
            }
        }
    }
    let ghost before = v@;
    v.insert(i, a);
    proof {
        assert(v@ == before.insert(i as int, a));
        assert forall|p: int, q: int| 0 <= p < q < v@.len() implies attachment_key(#[trigger] v@[p]) < attachment_key(
            #[trigger] v@[q],
        ) by {
            if q < i {
                assert(v@[p] == before[p] && v@[q] == before[q]);
            } else if q == i {
                assert(v@[p] == before[p]);
            } else if p < i {
                assert(v@[p] == before[p] && v@[q] == before[q - 1]);
                assert(attachment_key(before[i as int]) <= attachment_key(before[q - 1]));
            } else if p == i {
                assert(v@[q] == before[q - 1]);
                assert(attachment_key(before[i as int]) <= attachment_key(before[q - 1]));
            } else {
                assert(v@[p] == before[p - 1] && v@[q] == before[q - 1]);
            }
        }
        assert forall|x: Attachment| v@.contains(x) <==> (before.contains(x) || x == a) by {
            if v@.contains(x) {
                let k = choose|k: int| 0 <= k < v@.len() && v@[k] == x;
                if k < i {
                    assert(before[k] == x);
                } else if k > i {
                    assert(before[k - 1] == x);
                }
            }
            if before.contains(x) {
                let k = choose|k: int| 0 <= k < before.len() && before[k] == x;
                if k < i {
                    assert(v@[k] == x);
                } else {
                    assert(v@[k + 1] == x);
                }
            }
            if x == a {
                assert(v@[i as int] == a);
            }
        }
    }
}

/// Add each attachment of `s` to the sorted list `v`.
fn insert_all(v: &mut Vec<Attachment>, s: &Vec<Attachment>)
    requires
        strictly_sorted(old(v)@),
    ensures
        strictly_sorted(final(v)@),
        forall|x: Attachment| #[trigger] final(v)@.contains(x) <==> (old(v)@.contains(x) || s@.contains(x)),
{
    let mut i: usize = 0;
    while i < s.len()
        invariant
            i <= s.len(),
            strictly_sorted(v@),
            forall|x: Attachment| v@.contains(x) <==> (old(v)@.contains(x) || s@.subrange(0, i as int).contains(x)),
        decreases s.len() - i,
    {
        let ghost before = v@;
        insert_attachment(v, s[i]);
        proof {
            let pre = s@.subrange(0, i as int);
            let post = s@.subrange(0, i + 1);
            assert forall|x: Attachment| v@.contains(x) <==> (old(v)@.contains(x) || post.contains(x)) by {
                if pre.contains(x) {
                    let k = choose|k: int| 0 <= k < pre.len() && pre[k] == x;
                    assert(post[k] == x);
                }
                if post.contains(x) {
                    let k = choose|k: int| 0 <= k < post.len() && post[k] == x;
                    if k < i {
                        assert(pre[k] == x);
                    }
                }
                if x == s@[i as int] {
                    assert(post[i as int] == x);
                }
            }
        }
        i = i + 1;
    }
    proof {
        assert(s@.subrange(0, s@.len() as int) =~= s@);
    }
}

/// Attachments of the node: every attachment some subpass uses, once each, images by
/// identifier and then the surface.
pub fn collect_attachments(subpasses: &Vec<SubpassAttachments>) -> (r: Vec<Attachment>)
    ensures
        strictly_sorted(r@),
        forall|a: Attachment| r@.contains(a) <==> pass_uses(subpasses@, a),
{
    let mut v: Vec<Attachment> = Vec::new();
    let mut i: usize = 0;
    while i < subpasses.len()
        invariant
            i <= subpasses.len(),
            strictly_sorted(v@),
            forall|a: Attachment| v@.contains(a) <==> pass_uses(subpasses@.subrange(0, i as int), a),
        decreases subpasses.len() - i,
    {
        let ghost before = v@;
        let sp = &subpasses[i];
        insert_all(&mut v, &sp.inputs);
        let ghost v1 = v@;
        insert_all(&mut v, &sp.colors);
        let ghost v2 = v@;
        match sp.depth_stencil {
            Some(d) => insert_attachment(&mut v, d),
            None => {},
        }
        proof {
            assert forall|a: Attachment| v@.contains(a) <==> (before.contains(a) || subpass_uses(subpasses@[i as int], a)) by {
                assert(v1.contains(a) <==> (before.contains(a) || subpasses@[i as int].inputs@.contains(a)));
                assert(v2.contains(a) <==> (v1.contains(a) || subpasses@[i as int].colors@.contains(a)));
            }
            let pre = subpasses@.subrange(0, i as int);
            let post = subpasses@.subrange(0, i + 1);
            assert forall|a: Attachment| v@.contains(a) <==> pass_uses(post, a) by {
                if pass_uses(pre, a) {
                    let k = choose|k: int| 0 <= k < pre.len() && subpass_uses(pre[k], a);
                    assert(post[k] == pre[k]);
                }
                if pass_uses(post, a) {
                    let k = choose|k: int| 0 <= k < post.len() && subpass_uses(post[k], a);
                    if k < i {
                        assert(pre[k] == post[k]);
                    }
                }
                if subpass_uses(subpasses@[i as int], a) {
                    assert(post[i as int] == subpasses@[i as int]);
                }
            }
        }
        i = i + 1;
    }
    proof {
        assert(subpasses@.subrange(0, subpasses@.len() as int) =~= subpasses@);
    }
    v
}

/// How the surface is used by the subpasses: as a color attachment, as a depth-stencil
/// attachment.
#[derive(Clone, Copy, Debug, PartialEq, Eq, Structural)]
pub struct SurfaceUsage {
    /// Some subpass writes the surface as a color attachment.
    pub color: bool,
    /// Some subpass uses the surface as its depth-stencil attachment.
    pub depth_stencil: bool,
}

/// Whether `s` holds the surface.
fn has_surface(s: &Vec<Attachment>) -> (r: bool)
    ensures
        r == s@.contains(Attachment::Surface),
{
    let mut i: usize = 0;
    while i < s.len()
        invariant
            i <= s.len(),
            forall|k: int| 0 <= k < i ==> s@[k] != Attachment::Surface,
        decreases s.len() - i,
    {
        if s[i] == Attachment::Surface {
            return true;
        }
        i = i + 1;
    }
    false
}

/// Usage of the surface image: as color attachment when some subpass has it among its color
/// attachments, as depth-stencil attachment when some subpass has it as that attachment.
pub fn surface_usage(subpasses: &Vec<SubpassAttachments>) -> (r: SurfaceUsage)
    ensures
        r.color == exists|i: int| 0 <= i < subpasses.len() && (#[trigger] subpasses@[i]).colors@.contains(Attachment::Surface),
        r.depth_stencil == exists|i: int|
            0 <= i < subpasses.len() && (#[trigger] subpasses@[i]).depth_stencil == Some(Attachment::Surface),
{
    let mut color = false;
    let mut depth_stencil = false;
    let mut i: usize = 0;
    while i < subpasses.len()
        invariant
            i <= subpasses.len(),
            color == exists|k: int| 0 <= k < i && (#[trigger] subpasses@[k]).colors@.contains(Attachment::Surface),
            depth_stencil == exists|k: int|
                0 <= k < i && (#[trigger] subpasses@[k]).depth_stencil == Some(Attachment::Surface),
        decreases subpasses.len() - i,
    {
        if has_surface(&subpasses[i].colors) {
            color = true;
        }
        match subpasses[i].depth_stencil {
            Some(Attachment::Surface) => {
                depth_stencil = true;
            },
            _ => {},
        }
        i = i + 1;
    }
    SurfaceUsage { color, depth_stencil }
}

/// Position of attachment `a` in the node's attachments.
pub fn attachment_position(attachments: &Vec<Attachment>, a: Attachment) -> (r: usize)
    requires
        attachments@.contains(a),
    ensures
        r < attachments.len(),
        attachments@[r as int] == a,
        forall|k: int| 0 <= k < r ==> attachments@[k] != a,
{
    let mut i: usize = 0;
    while i < attachments.len()
        invariant
            i <= attachments.len(),
            attachments@.contains(a),
            forall|k: int| 0 <= k < i ==> attachments@[k] != a,
        decreases attachments.len() - i,
    {
        if attachments[i] == a {
            return i;
        }
        i = i + 1;
    }
    proof {
        let k = choose|k: int| 0 <= k < attachments@.len() && attachments@[k] == a;
        assert(attachments@[k] != a);
    }
    0
}

/// Width, height and layer count of an attachment.
#[derive(Clone, Copy, Debug, PartialEq, Eq, Structural)]
pub struct AttachmentExtent {
    /// Width in pixels.
    pub width: u32,
    /// Height in pixels.
    pub height: u32,
    /// Number of layers.
    pub layers: u16,
}

/// Extent of the framebuffer: the smallest width, height and layer count of the
/// attachments, each the largest value its type holds when there is no attachment.
pub fn framebuffer_extent(extents: &Vec<AttachmentExtent>) -> (r: AttachmentExtent)
    ensures
        forall|i: int| 0 <= i < extents.len() ==> r.width <= (#[trigger] extents@[i]).width && r.height
            <= extents@[i].height && r.layers <= extents@[i].layers,
        r.width == u32::MAX || exists|i: int| 0 <= i < extents.len() && (#[trigger] extents@[i]).width == r.width,
        r.height == u32::MAX || exists|i: int| 0 <= i < extents.len() && (#[trigger] extents@[i]).height == r.height,
        r.layers == u16::MAX || exists|i: int| 0 <= i < extents.len() && (#[trigger] extents@[i]).layers == r.layers,
{
    let mut r = AttachmentExtent { width: u32::MAX, height: u32::MAX, layers: u16::MAX };
    let mut i: usize = 0;
    while i < extents.len()
        invariant
            i <= extents.len(),
            forall|k: int| 0 <= k < i ==> r.width <= (#[trigger] extents@[k]).width && r.height
                <= extents@[k].height && r.layers <= extents@[k].layers,
            r.width == u32::MAX || exists|k: int| 0 <= k < i && (#[trigger] extents@[k]).width == r.width,
            r.height == u32::MAX || exists|k: int| 0 <= k < i && (#[trigger] extents@[k]).height == r.height,
            r.layers == u16::MAX || exists|k: int| 0 <= k < i && (#[trigger] extents@[k]).layers == r.layers,
        decreases extents.len() - i,
    {
        let e = extents[i];
        if e.width < r.width {
            r.width = e.width;
        }
        if e.height < r.height {
            r.height = e.height;
        }
        if e.layers < r.layers {
            r.layers = e.layers;
        }
        i = i + 1;
    }
    r
}

/// Layout of an image.
#[derive(Clone, Copy, Debug, PartialEq, Eq, Structural)]
pub enum Layout {
    /// General purpose.
    General,
    /// Color attachment.
    ColorAttachmentOptimal,
    /// Depth-stencil attachment.
    DepthStencilAttachmentOptimal,
    /// Read-only depth-stencil attachment.
    DepthStencilReadOnlyOptimal,
    /// Read by shaders.
    ShaderReadOnlyOptimal,
    /// Source of transfers.
    TransferSrcOptimal,
    /// Destination of transfers.
    TransferDstOptimal,
    /// Contents not kept.
    Undefined,
    /// Written by the host before use.
    Preinitialized,
    /// Presented to the surface.
    Present,
}

/// What is done with an attachment's contents when the pass begins.
#[derive(Clone, Copy, Debug, PartialEq, Eq, Structural)]
pub enum LoadOp {
    /// Keep the contents.
    Load,
    /// Clear to the clear value.
    Clear,
}

/// Load operation and layouts of an attachment over the pass; its contents are always
/// stored when the pass ends.
#[derive(Clone, Copy, Debug, PartialEq, Eq, Structural)]
pub struct AttachmentOps {
    /// Load operation.
    pub load: LoadOp,
    /// Layout when the pass begins.
    pub initial_layout: Layout,
    /// Layout when the pass ends.
    pub final_layout: Layout,
}

/// Operations of an attachment used in `layout`: an attachment with a clear value is
/// cleared and its former contents, in whatever layout, dropped; one without is loaded and
/// kept in `layout`.
pub fn attachment_ops(clear: bool, layout: Layout) -> (r: AttachmentOps)
    ensures
        clear ==> r == (AttachmentOps { load: LoadOp::Clear, initial_layout: Layout::Undefined, final_layout: layout }),
        !clear ==> r == (AttachmentOps { load: LoadOp::Load, initial_layout: layout, final_layout: layout }),
{
    if clear {
        AttachmentOps { load: LoadOp::Clear, initial_layout: Layout::Undefined, final_layout: layout }
    } else {
        AttachmentOps { load: LoadOp::Load, initial_layout: layout, final_layout: layout }
    }
}

/// How a subpass uses an attachment.
#[derive(Clone, Copy, Debug, PartialEq, Eq, Structural)]
pub enum AttachmentRole {
    /// Input attachment.
    Input,
    /// Color attachment.
    Color,
    /// Depth-stencil attachment.
    DepthStencil,
}

/// Layout of an attachment within a subpass: an image keeps the layout the graph gave it,
/// the surface takes the optimal layout for its role.
pub fn subpass_layout(a: Attachment, role: AttachmentRole, image_layout: Layout) -> (r: Layout)
    ensures
        a is Image ==> r == image_layout,
        a is Surface ==> r == match role {
            AttachmentRole::Input => Layout::ShaderReadOnlyOptimal,
            AttachmentRole::Color => Layout::ColorAttachmentOptimal,
            AttachmentRole::DepthStencil => Layout::DepthStencilAttachmentOptimal,
        },
{
    match a {
        Attachment::Image(_) => image_layout,
        Attachment::Surface => match role {
            AttachmentRole::Input => Layout::ShaderReadOnlyOptimal,
            AttachmentRole::Color => Layout::ColorAttachmentOptimal,
            AttachmentRole::DepthStencil => Layout::DepthStencilAttachmentOptimal,
        },
    }
}

/// Presentation mode of a swapchain.
#[derive(Clone, Copy, Debug, PartialEq, Eq, Structural)]
pub enum PresentMode {
    /// Images are presented at once.
    Immediate,
    /// The latest image replaces the waiting one.
    Mailbox,
    /// Images wait in a queue for the vertical blank.
    Fifo,
    /// As `Fifo`, but a late image is presented at once.
    Relaxed,
}

/// Presentation modes a surface supports.
#[derive(Clone, Copy, Debug, PartialEq, Eq, Structural)]
pub struct PresentModes {
    /// `Immediate` is supported.
    pub immediate: bool,
    /// `Mailbox` is supported.
    pub mailbox: bool,
    /// `Fifo` is supported.
    pub fifo: bool,
    /// `Relaxed` is supported.
    pub relaxed: bool,
}

/// Presentation mode of the node's swapchain: the first supported of `Fifo`, `Mailbox`,
/// `Relaxed` and `Immediate`. The surface supports one of them.
pub fn choose_present_mode(modes: PresentModes) -> (r: PresentMode)
    requires
        modes.fifo || modes.mailbox || modes.relaxed || modes.immediate,
    ensures
        r == if modes.fifo {
            PresentMode::Fifo
        } else if modes.mailbox {
            PresentMode::Mailbox
        } else if modes.relaxed {
            PresentMode::Relaxed
        } else {
            PresentMode::Immediate
        },
{
    if modes.fifo {
        PresentMode::Fifo
    } else if modes.mailbox {
        PresentMode::Mailbox
    } else if modes.relaxed {
        PresentMode::Relaxed
    } else {
        PresentMode::Immediate
    }
}

/// Number of swapchain images: three, brought within the surface's bounds, the lower one
/// winning when they cross.
pub fn swapchain_image_count(min_images: u32, max_images: u32) -> (r: u32)
    ensures
        r == if (if max_images < 3 { max_images } else { 3 }) < min_images {
            min_images
        } else if max_images < 3 {
            max_images
        } else {
            3
        },
{
    let capped = if max_images < 3 {
        max_images
    } else {
        3
    };
    if capped < min_images {
        min_images
    } else {
        capped
    }
}

/// Some render group asked to record its commands again.
pub open spec fn any_force_record(prepared: Seq<crate::graph::render::PrepareResult>) -> bool {
    exists|i: int| 0 <= i < prepared.len() && prepared[i] == crate::graph::render::PrepareResult::DrawRecord
}

/// Whether some result of `prepared` asks to record commands again.
fn force_record_any(prepared: &Vec<crate::graph::render::PrepareResult>) -> (r: bool)
    ensures
        r == any_force_record(prepared@),
{
    let mut i: usize = 0;
    while i < prepared.len()
        invariant
            i <= prepared.len(),
            forall|k: int| 0 <= k < i ==> prepared@[k] != crate::graph::render::PrepareResult::DrawRecord,
        decreases prepared.len() - i,
    {
        if prepared[i].force_record() {
            return true;
        }
        i = i + 1;
    }
    false
}

/// What a render pass node does with the command buffer of a frame.
#[derive(Clone, Copy, Debug, PartialEq, Eq, Structural)]
pub struct FramePlan {
    /// Reset the command buffer, dropping what it recorded.
    pub reset: bool,
    /// Record the commands.
    pub record: bool,
    /// The commands hold the render pass, drawn into the acquired image for a node with a
    /// surface.
    pub render_pass: bool,
    /// Image to wait for and present afterwards, for a node with a surface.
    pub present: Option<u32>,
}

/// Frame of a node without surface: the commands are recorded again when a render group
/// asks for it, and recorded when the buffer holds none.
pub fn plan_offscreen_frame(prepared: &Vec<crate::graph::render::PrepareResult>, recorded: bool) -> (r: FramePlan)
    ensures
        r.reset == any_force_record(prepared@),
        r.record == (any_force_record(prepared@) || !recorded),
        r.render_pass,
        r.present is None,
{
    let force = force_record_any(prepared);
    FramePlan { reset: force, record: force || !recorded, render_pass: true, present: None }
}

/// Frame of a node with a surface. `per_image` holds, for each swapchain image, the command
/// buffer last recorded for it; `acquired` is the image the swapchain gave, if any. With an
/// image, the buffer is recorded again when a render group asks for it or when it was last
/// recorded for another image, and the image's entry becomes `buffer`; the render pass is
/// drawn into the image, which is then presented. Without one, only the barriers are
/// recorded, when the buffer holds nothing.
pub fn plan_surface_frame(
    per_image: &mut Vec<usize>,
    acquired: Option<u32>,
    buffer: usize,
    prepared: &Vec<crate::graph::render::PrepareResult>,
    recorded: bool,
) -> (r: FramePlan)
    requires
        acquired matches Some(i) ==> i < old(per_image).len(),
    ensures
        match acquired {
            Some(i) => {
                let reset = any_force_record(prepared@) || old(per_image)@[i as int] != buffer;
                &&& r.reset == reset
                &&& r.record == (reset || !recorded)
                &&& r.render_pass
                &&& r.present == Some(i)
                &&& final(per_image)@ == old(per_image)@.update(i as int, buffer)
            },
            None => {
                &&& !r.reset
                &&& r.record == !recorded
                &&& !r.render_pass
                &&& r.present is None
                &&& final(per_image)@ == old(per_image)@
            },
        },
{
    match acquired {
        Some(i) => {
            let force = force_record_any(prepared);
            let idx = i as usize;
            let reset = force || per_image[idx] != buffer;
            if reset {
                per_image.set(idx, buffer);
            }
            proof {
                assert(per_image@ =~= old(per_image)@.update(i as int, buffer));
            }
            FramePlan { reset, record: reset || !recorded, render_pass: true, present: Some(i) }
        },
        None => FramePlan { reset: false, record: !recorded, render_pass: false, present: None },
    }
}

/// Attachments a subpass uses, by the resource each attachment is, with the layout the
/// subpass uses it in.
#[derive(Clone, Debug)]
pub struct SubpassUses {
    /// Depth-stencil attachment.
    pub depth_stencil: Option<(usize, Layout)>,
    /// Color attachments.
    pub colors: Vec<(usize, Layout)>,
    /// Input attachments.
    pub inputs: Vec<(usize, Layout)>,
}

/// Description of a subpass within its render pass: the attachments it uses, by their
/// index among the pass's attachments, and the attachments it preserves.
#[derive(Clone, Debug)]
pub struct SubpassDescKey {
    /// Color attachments.
    pub colors: Vec<(usize, Layout)>,
    /// Depth-stencil attachment.
    pub depth_stencil: Option<(usize, Layout)>,
    /// Input attachments.
    pub inputs: Vec<(usize, Layout)>,
    /// Resolve attachments.
    pub resolves: Vec<(usize, Layout)>,
    /// Attachments the subpass does not use, whose contents it keeps.
    pub preserves: Vec<usize>,
}

/// Resources the subpass refers to: its depth-stencil attachment, then its color and its
/// input attachments.
pub open spec fn referenced(u: SubpassUses) -> Seq<usize> {
    let d = match u.depth_stencil {
        Some((r, _)) => seq![r],
        None => Seq::<usize>::empty(),
    };
    d + u.colors@.map_values(|c: (usize, Layout)| c.0) + u.inputs@.map_values(|c: (usize, Layout)| c.0)
}

/// Index of resource `r` among the pass's attachments.
fn index_in(resources: &Vec<usize>, r: usize) -> (k: usize)
    requires
        resources@.contains(r),
    ensures
        k < resources.len(),
        resources@[k as int] == r,
{
    let mut i: usize = 0;
    while i < resources.len()
        invariant
            i <= resources.len(),
            resources@.contains(r),
            forall|j: int| 0 <= j < i ==> resources@[j] != r,
        decreases resources.len() - i,
    {
        if resources[i] == r {
            return i;
        }
        i = i + 1;
    }
    proof {
        let j = choose|j: int| 0 <= j < resources@.len() && resources@[j] == r;
        assert(resources@[j] != r);
    }
    0
}

/// Refer to each attachment of `refs` by its index among the pass's attachments.
fn attachment_refs(resources: &Vec<usize>, refs: &Vec<(usize, Layout)>) -> (r: Vec<(usize, Layout)>)
    requires
        forall|k: int| 0 <= k < refs.len() ==> resources@.contains(#[trigger] refs@[k].0),
    ensures
        r.len() == refs.len(),
        forall|k: int|
            0 <= k < refs.len() ==> (#[trigger] r@[k]).0 < resources.len() && resources@[r@[k].0 as int] == refs@[k].0
                && r@[k].1 == refs@[k].1,
{
    let mut out: Vec<(usize, Layout)> = Vec::new();
    let mut i: usize = 0;
    while i < refs.len()
        invariant
            i <= refs.len(),
            out.len() == i,
            forall|k: int| 0 <= k < refs.len() ==> resources@.contains(#[trigger] refs@[k].0),
            forall|k: int|
                0 <= k < i ==> (#[trigger] out@[k]).0 < resources.len() && resources@[out@[k].0 as int] == refs@[k].0
                    && out@[k].1 == refs@[k].1,
        decreases refs.len() - i,
    {
        let (res, layout) = refs[i];
        let k = index_in(resources, res);
        out.push((k, layout));
        i = i + 1;
    }
    out
}

/// Whether `refs` refers to resource `r`.
fn refers_to(refs: &Vec<(usize, Layout)>, r: usize) -> (b: bool)
    ensures
        b == refs@.map_values(|c: (usize, Layout)| c.0).contains(r),
{
    let ghost m = refs@.map_values(|c: (usize, Layout)| c.0);
    let mut i: usize = 0;
    while i < refs.len()
        invariant
            i <= refs.len(),
            m == refs@.map_values(|c: (usize, Layout)| c.0),
            forall|j: int| 0 <= j < i ==> m[j] != r,
        decreases refs.len() - i,
    {
        if refs[i].0 == r {
            assert(m[i as int] == r);
            return true;
        }
        i = i + 1;
    }
    proof {
        if m.contains(r) {
            let j = choose|j: int| 0 <= j < m.len() && m[j] == r;
            assert(m[j] != r);
        }
    }
    false
}

/// Whether the subpass refers to resource `r`.
fn uses_resource(uses: &SubpassUses, r: usize) -> (b: bool)
    ensures
        b == referenced(*uses).contains(r),
{
    let d = match uses.depth_stencil {
        Some((x, _)) => x == r,
        None => false,
    };
    let c = refers_to(&uses.colors, r);
    let i = refers_to(&uses.inputs, r);
    proof {
        let ds = match uses.depth_stencil {
            Some((x, _)) => seq![x],
            None => Seq::<usize>::empty(),
        };
        let cs = uses.colors@.map_values(|c: (usize, Layout)| c.0);
        let is = uses.inputs@.map_values(|c: (usize, Layout)| c.0);
        let all = ds + cs + is;
        assert(referenced(*uses) == all);
        if all.contains(r) {
            let j = choose|j: int| 0 <= j < all.len() && all[j] == r;
            if j < ds.len() {
                assert(ds[j] == r);
            } else if j < ds.len() + cs.len() {
                assert(cs[j - ds.len()] == r);
            } else {
                assert(is[j - ds.len() - cs.len()] == r);
            }
        }
        if d {
            assert(all[0] == r);
        }
        if c {
            let j = choose|j: int| 0 <= j < cs.len() && cs[j] == r;
            assert(all[ds.len() + j] == r);
        }
        if i {
            let j = choose|j: int| 0 <= j < is.len() && is[j] == r;
            assert(all[ds.len() + cs.len() + j] == r);
        }
    }
    d || c || i
}

/// `p` lists attachment indices in the order of their resources, each resource once.
pub open spec fn by_resource(resources: Seq<usize>, p: Seq<usize>) -> bool {
    &&& forall|k: int| 0 <= k < p.len() ==> #[trigger] p[k] < resources.len()
    &&& forall|a: int, b: int| 0 <= a < b < p.len() ==> resources[#[trigger] p[a] as int] < resources[#[trigger] p[b] as int]
}

/// Add attachment index `idx` to `p`, kept in the order of the resources.
fn insert_by_resource(resources: &Vec<usize>, p: &mut Vec<usize>, idx: usize)
    requires
        idx < resources.len(),
        resources@.no_duplicates(),
        by_resource(resources@, old(p)@),
        !old(p)@.contains(idx),
    ensures
        by_resource(resources@, final(p)@),
        forall|x: usize| #[trigger] final(p)@.contains(x) <==> (old(p)@.contains(x) || x == idx),
{
    let key = resources[idx];
    let mut i: usize = 0;
    while i < p.len() && resources[p[i]] < key
        invariant
            i <= p.len(),
            p@ == old(p)@,
            by_resource(resources@, p@),
            key == resources@[idx as int],
            forall|k: int| 0 <= k < i ==> resources@[#[trigger] p@[k] as int] < key,
        decreases p.len() - i,
    {
        i = i + 1;
    }
    proof {
        if i < p.len() {
            assert(p@[i as int] != idx);
            assert(resources@[p@[i as int] as int] != key);
        }
    }
    let ghost before = p@;
    p.insert(i, idx);
    proof {
        assert(p@ == before.insert(i as int, idx));
        assert forall|k: int| 0 <= k < p@.len() implies #[trigger] p@[k] < resources.len() by {
            if k < i {
                assert(p@[k] == before[k]);
            } else if k > i {
                assert(p@[k] == before[k - 1]);
            }
        }
        assert forall|a: int, b: int| 0 <= a < b < p@.len() implies resources@[#[trigger] p@[a] as int] < resources@[
            #[trigger] p@[b] as int] by {
            if b < i {
                assert(p@[a] == before[a] && p@[b] == before[b]);
            } else if b == i {
                assert(p@[a] == before[a]);
            } else if a < i {
                assert(p@[a] == before[a] && p@[b] == before[b - 1]);
                if b - 1 > i {
                    assert(resources@[before[i as int] as int] < resources@[before[b - 1] as int]);
                }
            } else if a == i {
                assert(p@[b] == before[b - 1]);
                if b - 1 > i {
                    assert(resources@[before[i as int] as int] < resources@[before[b - 1] as int]);
                }
            } else {
                assert(p@[a] == before[a - 1] && p@[b] == before[b - 1]);
            }
        }
        assert forall|x: usize| p@.contains(x) <==> (before.contains(x) || x == idx) by {
            if p@.contains(x) {
                let k = choose|k: int| 0 <= k < p@.len() && p@[k] == x;
                if k < i {
                    assert(before[k] == x);
                } else if k > i {
                    assert(before[k - 1] == x);
                }
            }
            if before.contains(x) {
                let k = choose|k: int| 0 <= k < before.len() && before[k] == x;
                if k < i {
                    assert(p@[k] == x);
                } else {
                    assert(p@[k + 1] == x);
                }
            }
            if x == idx {
                assert(p@[i as int] == idx);
            }
        }
    }
}

/// Description of a subpass of a render pass whose attachments are the resources
/// `resources`, in that order: each attachment the subpass uses is referred to by its
/// index, and the attachments it does not use are preserved, listed in the order of their
/// resources. A subpass uses each attachment at most once.
pub fn subpass_key(resources: &Vec<usize>, uses: &SubpassUses) -> (r: SubpassDescKey)
    requires
        resources@.no_duplicates(),
        referenced(*uses).no_duplicates(),
        forall|k: int| 0 <= k < referenced(*uses).len() ==> resources@.contains(#[trigger] referenced(*uses)[k]),
    ensures
        r.colors.len() == uses.colors.len(),
        forall|k: int|
            0 <= k < uses.colors.len() ==> (#[trigger] r.colors@[k]).0 < resources.len() && resources@[r.colors@[k].0 as int]
                == uses.colors@[k].0 && r.colors@[k].1 == uses.colors@[k].1,
        r.inputs.len() == uses.inputs.len(),
        forall|k: int|
            0 <= k < uses.inputs.len() ==> (#[trigger] r.inputs@[k]).0 < resources.len() && resources@[r.inputs@[k].0 as int]
                == uses.inputs@[k].0 && r.inputs@[k].1 == uses.inputs@[k].1,
        match uses.depth_stencil {
            Some((res, layout)) => r.depth_stencil matches Some((k, l)) && k < resources.len() && resources@[k as int]
                == res && l == layout,
            None => r.depth_stencil is None,
        },
        r.resolves.len() == 0,
        by_resource(resources@, r.preserves@),
        forall|k: int|
            0 <= k < r.preserves.len() ==> !referenced(*uses).contains(resources@[#[trigger] r.preserves@[k] as int]),
        forall|x: usize|
            x < resources.len() && !referenced(*uses).contains(resources@[x as int]) ==> #[trigger] r.preserves@.contains(x),
{
    let ghost refd = referenced(*uses);
    let ghost ds = match uses.depth_stencil {
        Some((x, _)) => seq![x],
        None => Seq::<usize>::empty(),
    };
    let ghost cs = uses.colors@.map_values(|c: (usize, Layout)| c.0);
    let ghost is = uses.inputs@.map_values(|c: (usize, Layout)| c.0);
    proof {
        assert(refd == ds + cs + is);
        assert forall|k: int| 0 <= k < uses.colors.len() implies resources@.contains(#[trigger] uses.colors@[k].0) by {
            assert(refd[ds.len() + k] == cs[k]);
        }
        assert forall|k: int| 0 <= k < uses.inputs.len() implies resources@.contains(#[trigger] uses.inputs@[k].0) by {
            assert(refd[ds.len() + cs.len() + k] == is[k]);
        }
    }
    let depth_stencil = match uses.depth_stencil {
        Some((res, layout)) => {
            proof {
                assert(refd[0] == res);
            }
            Some((index_in(resources, res), layout))
        },
        None => None,
    };
    let colors = attachment_refs(resources, &uses.colors);
    let inputs = attachment_refs(resources, &uses.inputs);
    let mut preserves: Vec<usize> = Vec::new();
    let mut idx: usize = 0;
    while idx < resources.len()
        invariant
            idx <= resources.len(),
            resources@.no_duplicates(),
            by_resource(resources@, preserves@),
            forall|x: usize| #[trigger] preserves@.contains(x) ==> x < idx && !referenced(*uses).contains(resources@[x as int]),
            forall|x: usize| x < idx && !referenced(*uses).contains(resources@[x as int]) ==> #[trigger] preserves@.contains(x),
        decreases resources.len() - idx,
    {
        if !uses_resource(uses, resources[idx]) {
            insert_by_resource(resources, &mut preserves, idx);
        }
        idx = idx + 1;
    }
    proof {
        assert forall|k: int| 0 <= k < preserves.len() implies !referenced(*uses).contains(
            resources@[#[trigger] preserves@[k] as int],
        ) by {
            assert(preserves@.contains(preserves@[k]));
        }
    }
    SubpassDescKey { colors, depth_stencil, inputs, resolves: Vec::new(), preserves }
}

/// Position, among the images of a single-subpass render pass node, of the image of color
/// attachment `index`: its sampled and storage images come first. The depth attachment's
/// image is at `color_image_index(sampled, storage, colors)`.
pub fn color_image_index(sampled: usize, storage: usize, index: usize) -> (r: usize)
    requires
        sampled + storage + index <= usize::MAX,
    ensures
        r == sampled + storage + index,
{
    sampled + storage + index
}

/// The one subpass of a single-subpass render pass: its color attachments are the first
/// attachments, in order, each in the layout of its image, and the depth-stencil
/// attachment, if any, comes after them.
pub fn single_subpass(color_layouts: &Vec<Layout>, depth_layout: Option<Layout>) -> (r: SubpassDescKey)
    ensures
        r.colors.len() == color_layouts.len(),
        forall|k: int| 0 <= k < color_layouts.len() ==> #[trigger] r.colors@[k] == (k as usize, color_layouts@[k]),
        r.depth_stencil == match depth_layout {
            Some(l) => Some((color_layouts.len(), l)),
            None => None::<(usize, Layout)>,
        },
        r.inputs.len() == 0,
        r.resolves.len() == 0,
        r.preserves.len() == 0,
{
    let mut colors: Vec<(usize, Layout)> = Vec::new();
    let mut i: usize = 0;
    while i < color_layouts.len()
        invariant
            i <= color_layouts.len(),
            colors.len() == i,
            forall|k: int| 0 <= k < i ==> #[trigger] colors@[k] == (k as usize, color_layouts@[k]),
        decreases color_layouts.len() - i,
    {
        colors.push((i, color_layouts[i]));
        i = i + 1;
    }
    let depth_stencil = match depth_layout {
        Some(l) => Some((color_layouts.len(), l)),
        None => None,
    };
    SubpassDescKey { colors, depth_stencil, inputs: Vec::new(), resolves: Vec::new(), preserves: Vec::new() }
}

/// Values of the entries of `s` that hold one, in order.
pub open spec fn present_values<T>(s: Seq<Option<T>>) -> Seq<T>
    decreases s.len(),
{
    if s.len() == 0 {
        Seq::empty()
    } else {
        let rest = present_values(s.drop_last());
        match s.last() {
            Some(v) => rest.push(v),
            None => rest,
        }
    }
}

/// Clear values of the render pass, in attachment order: the clear value of each attachment
/// that has one; attachments without one are loaded and take no clear value.
pub fn clear_values<T: Copy>(clears: &Vec<Option<T>>) -> (r: Vec<T>)
    ensures
        r@ == present_values(clears@),
{
    let mut out: Vec<T> = Vec::new();
    let mut i: usize = 0;
    while i < clears.len()
        invariant
            i <= clears.len(),
            out@ == present_values(clears@.subrange(0, i as int)),
        decreases clears.len() - i,
    {
        proof {
            assert(clears@.subrange(0, i + 1).drop_last() =~= clears@.subrange(0, i as int));
        }
        match clears[i] {
            Some(v) => out.push(v),
            None => {},
        }
        i = i + 1;
    }
    proof {
        assert(clears@.subrange(0, clears@.len() as int) =~= clears@);
    }
    out
}

/// Whether every attachment has the extent of the first: a single-subpass node asks
/// that its attachments share one extent.
pub fn same_extent(extents: &Vec<AttachmentExtent>) -> (r: bool)
    ensures
        r == forall|k: int| 0 <= k < extents.len() ==> #[trigger] extents@[k] == extents@[0],
{
    let mut i: usize = 0;
    while i < extents.len()
        invariant
            i <= extents.len(),
            forall|k: int| 0 <= k < i ==> #[trigger] extents@[k] == extents@[0],
        decreases extents.len() - i,
    {
        if extents[i] != extents[0] {
            return false;
        }
        i = i + 1;
    }
    true
}

/// Format of the swapchain among the surface's formats, given by whether each is sRGB: the
/// first sRGB one, else the first one.
pub fn surface_format_index(srgb: &Vec<bool>) -> (r: usize)
    requires
        srgb.len() > 0,
    ensures
        r < srgb.len(),
        (exists|k: int| 0 <= k < srgb.len() && srgb@[k]) ==> srgb@[r as int] && forall|k: int|
            0 <= k < r ==> !srgb@[k],
        !(exists|k: int| 0 <= k < srgb.len() && srgb@[k]) ==> r == 0,
{
    let mut i: usize = 0;
    while i < srgb.len()
        invariant
            i <= srgb.len(),
            forall|k: int| 0 <= k < i ==> !srgb@[k],
        decreases srgb.len() - i,
    {
        if srgb[i] {
            return i;
        }
        i = i + 1;
    }
    0
}

} // verus!
