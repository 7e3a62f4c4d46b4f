//! Bounds of what is drawn, and what goes beyond them.

use vstd::arithmetic::div_mod::*;
use vstd::prelude::*;

use crate::text;
use crate::text::push_decimal;

verus! {

/// Bytes of a vertex of a branch or an action.
pub const TRIANGLE_VERTEX_BYTES: u64 = 24;

/// Bytes of a node.
pub const NODE_INSTANCE_BYTES: u64 = 48;

/// Bytes of a vertex of a label.
pub const LABEL_VERTEX_BYTES: u64 = 24;

/// Bytes of the camera transform.
pub const GLOBALS_BYTES: u64 = 64;

/// Bounds of the geometry of a scene.
#[derive(Clone, Copy, Debug, PartialEq, Eq, Structural)]
pub struct ResourceLimits {
    pub max_buffer_bytes: u64,
    pub max_triangle_vertices: usize,
    pub max_node_instances: usize,
    pub max_label_vertices: usize,
    pub max_label_glyphs: usize,
    pub max_labels: usize,
}

impl Default for ResourceLimits {
    fn default() -> (limits: Self)
        ensures
            limits == (ResourceLimits {
                max_buffer_bytes: 67_108_864,
                max_triangle_vertices: 1_000_000,
                max_node_instances: 500_000,
                max_label_vertices: 1_000_000,
                max_label_glyphs: 16_384,
                max_labels: 100_000,
            }),
    {
        ResourceLimits {
            max_buffer_bytes: 64 * 1024 * 1024,
            max_triangle_vertices: 1_000_000,
            max_node_instances: 500_000,
            max_label_vertices: 1_000_000,
            max_label_glyphs: 16_384,
            max_labels: 100_000,
        }
    }
}

/// A target without extent, or with a zoom that is no positive number.
#[derive(Clone, Copy, Debug, PartialEq, Eq, Structural)]
pub struct RenderExtentError {
    pub width: u32,
    pub height: u32,
}

/// The text of an extent error.
pub open spec fn extent_text(e: RenderExtentError) -> Seq<char> {
    "render target extent "@ + text::decimal(e.width as nat) + "x"@ + text::decimal(
        e.height as nat,
    )
        + " is invalid; width and height must both be non-zero and zoom must be finite"@
}

impl RenderExtentError {
    /// The error as text.
    pub fn render(&self) -> (text: String)
        ensures
            text@ == extent_text(*self),
    {
        let mut out = "render target extent ".to_owned();
        push_decimal(&mut out, self.width as u64);
        out.append("x");
        push_decimal(&mut out, self.height as u64);
        out.append(" is invalid; width and height must both be non-zero and zoom must be finite");
        out
    }
}

/// Geometry beyond a bound.
#[derive(Clone, Copy, Debug, PartialEq, Eq)]
pub struct ResourceLimitError {
    pub resource: &'static str,
    pub requested: usize,
    pub maximum: usize,
}

/// What a resource error says.
#[verifier::ext_equal]
pub struct ResourceLimitView {
    pub resource: Seq<char>,
    pub requested: int,
    pub maximum: int,
}

impl View for ResourceLimitError {
    type V = ResourceLimitView;

    open spec fn view(&self) -> ResourceLimitView {
        ResourceLimitView {
            resource: self.resource@,
            requested: self.requested as int,
            maximum: self.maximum as int,
        }
    }
}

/// The text of a resource error.
pub open spec fn resource_text(e: ResourceLimitView) -> Seq<char> {
    "resource limit exceeded for "@ + e.resource + ": requested "@ + text::decimal(
        e.requested as nat,
    ) + ", maximum "@ + text::decimal(e.maximum as nat)
}

impl ResourceLimitError {
    /// The error as text.
    pub fn render(&self) -> (text: String)
        ensures
            text@ == resource_text(self@),
    {
        let mut out = "resource limit exceeded for ".to_owned();
        out.append(self.resource);
        out.append(": requested ");
        push_decimal(&mut out, self.requested as u64);
        out.append(", maximum ");
        push_decimal(&mut out, self.maximum as u64);
        out
    }
}

fn over(resource: &'static str, requested: usize, maximum: usize) -> (error: ResourceLimitError)
    ensures
        error@ == (ResourceLimitView {
            resource: resource@,
            requested: requested as int,
            maximum: maximum as int,
        }),
{
    ResourceLimitError { resource, requested, maximum }
}

/// How much a number is short of another.
pub open spec fn missing(base: int, requested: int) -> int {
    if base < requested {
        requested - base
    } else {
        0
    }
}

/// The first of a number and its doubles that is large enough.
pub open spec fn doubled(base: int, requested: int) -> int
    decreases missing(base, requested),
{
    if base <= 0 || base >= requested {
        base
    } else {
        doubled(2 * base, requested)
    }
}

pub open spec fn at_least_one(n: int) -> int {
    if n < 1 {
        1
    } else {
        n
    }
}

pub open spec fn smaller(a: int, b: int) -> int {
    if a < b {
        a
    } else {
        b
    }
}

/// The capacity that a request makes a buffer grow to.
pub open spec fn capacity_after(current: usize, requested: usize, maximum: usize) -> int {
    if requested <= current {
        smaller(current as int, maximum as int)
    } else {
        smaller(doubled(at_least_one(current as int), requested as int), maximum as int)
    }
}

/// The capacity that a buffer needs for a request: what it has where that is
/// enough, and what it grows to otherwise.
pub open spec fn capacity_for(capacity: usize, requested: usize, maximum: usize) -> int {
    if requested <= capacity {
        capacity as int
    } else {
        capacity_after(capacity, requested, maximum)
    }
}

/// Doubles a capacity until a request fits, without going beyond a maximum.
pub fn grown_capacity(current: usize, requested: usize, maximum: usize) -> (result: Result<
    usize,
    ResourceLimitError,
>)
    ensures
        result matches Ok(capacity) ==> requested <= capacity <= maximum,
        match result {
            Ok(capacity) => requested <= maximum && capacity == capacity_after(
                current,
                requested,
                maximum,
            ),
            Err(e) => requested > maximum && e@ == (ResourceLimitView {
                resource: "geometry items"@,
                requested: requested as int,
                maximum: maximum as int,
            }),
        },
{
    if requested > maximum {
        return Err(over("geometry items", requested, maximum));
    }
    if requested <= current {
        return Ok(
            if current < maximum {
                current
            } else {
                maximum
            },
        );
    }
    let mut grown: usize = if current < 1 {
        1
    } else {
        current
    };
    let ghost goal = doubled(at_least_one(current as int), requested as int);
    while grown < requested
        invariant
            1 <= grown <= maximum,
            requested <= maximum,
            smaller(doubled(grown as int, requested as int), maximum as int) == smaller(
                goal,
                maximum as int,
            ),
        decreases missing(grown as int, requested as int),
    {
        if grown > maximum / 2 {
            proof {
                doubled_is_enough(2 * grown as int, requested as int);
                assert(2 * grown >= maximum);
                doubled_only_grows(2 * grown as int, requested as int);
            }
            grown = maximum;
        } else {
            grown = grown * 2;
        }
    }
    Ok(grown)
}

proof fn doubled_is_enough(base: int, requested: int)
    requires
        base >= 1,
    ensures
        doubled(base, requested) >= requested,
    decreases missing(base, requested),
{
    if base < requested {
        doubled_is_enough(2 * base, requested);
    }
}

proof fn doubled_only_grows(base: int, requested: int)
    requires
        base >= 1,
    ensures
        doubled(base, requested) >= base,
    decreases missing(base, requested),
{
    if base < requested {
        doubled_only_grows(2 * base, requested);
    }
}

/// A grown capacity holds the request, stays within the maximum, and is at
/// least twice the old one where that was too small, unless the maximum is
/// reached.
pub proof fn growth_is_geometric_and_bounded(current: usize, requested: usize, maximum: usize)
    requires
        requested <= maximum,
    ensures
        requested <= capacity_after(current, requested, maximum) <= maximum,
        current < requested ==> capacity_after(current, requested, maximum) >= smaller(
            2 * current,
            maximum as int,
        ),
{
    let base = at_least_one(current as int);
    doubled_is_enough(base, requested as int);
    if current > 0 {
        doubled_only_grows(2 * base, requested as int);
    }
}

/// Why an allocation is refused, or its bytes.
pub open spec fn buffer_bytes(
    resource: Seq<char>,
    item_count: usize,
    item_size: usize,
    max_items: usize,
    max_bytes: u64,
) -> Result<u64, ResourceLimitView> {
    let bytes = item_count * item_size;
    let maximum = smaller(max_bytes as int, usize::MAX as int);
    if item_count > max_items {
        Err(
            ResourceLimitView {
                resource,
                requested: item_count as int,
                maximum: max_items as int,
            },
        )
    } else if bytes > usize::MAX {
        Err(ResourceLimitView { resource, requested: usize::MAX as int, maximum })
    } else if bytes > max_bytes {
        Err(ResourceLimitView { resource, requested: bytes, maximum })
    } else {
        Ok(bytes as u64)
    }
}

fn clipped(bytes: u64) -> (size: usize)
    ensures
        size == smaller(bytes as int, usize::MAX as int),
{
    if bytes > usize::MAX as u64 {
        usize::MAX
    } else {
        bytes as usize
    }
}

/// Checks the items and the bytes of an allocation.
pub fn checked_buffer_bytes(
    resource: &'static str,
    item_count: usize,
    item_size: usize,
    max_items: usize,
    max_bytes: u64,
) -> (result: Result<u64, ResourceLimitError>)
    ensures
        match result {
            Ok(bytes) => buffer_bytes(resource@, item_count, item_size, max_items, max_bytes)
                == Ok::<u64, ResourceLimitView>(bytes),
            Err(e) => buffer_bytes(resource@, item_count, item_size, max_items, max_bytes) == Err::<
                u64,
                ResourceLimitView,
            >(e@),
        },
{
    if item_count > max_items {
        return Err(over(resource, item_count, max_items));
    }
    let bytes: usize = match item_count.checked_mul(item_size) {
        Some(bytes) => bytes,
        None => return Err(over(resource, usize::MAX, clipped(max_bytes))),
    };
    if bytes as u64 > max_bytes {
        return Err(over(resource, bytes, clipped(max_bytes)));
    }
    Ok(bytes as u64)
}

/// Why more geometry is refused, or the capacity that it needs.
pub open spec fn geometry_capacity(
    resource: Seq<char>,
    len: usize,
    capacity: usize,
    additional: usize,
    item_size: usize,
    maximum: usize,
    max_bytes: u64,
) -> Result<int, ResourceLimitView> {
    if len + additional > usize::MAX {
        Err(
            ResourceLimitView {
                resource,
                requested: usize::MAX as int,
                maximum: maximum as int,
            },
        )
    } else {
        let requested = (len + additional) as usize;
        match buffer_bytes(resource, requested, item_size, maximum, max_bytes) {
            Err(e) => Err(e),
            Ok(_) => {
                let items = smaller(max_bytes as int / item_size as int, usize::MAX as int);
                let limit = smaller(maximum as int, items) as usize;
                Ok(capacity_for(capacity, requested, limit))
            },
        }
    }
}

/// The capacity that a list of geometry needs for some more items.  The
/// capacity that a list grows to never goes beyond its bounds.
pub fn reserve_geometry(
    resource: &'static str,
    len: usize,
    capacity: usize,
    additional: usize,
    item_size: usize,
    maximum: usize,
    max_bytes: u64,
) -> (result: Result<usize, ResourceLimitError>)
    requires
        item_size > 0,
    ensures
        ({
            let outcome = geometry_capacity(
                resource@,
                len,
                capacity,
                additional,
                item_size,
                maximum,
                max_bytes,
            );
            match result {
                Ok(needed) => {
                    &&& outcome == Ok::<int, ResourceLimitView>(needed as int)
                    &&& len + additional <= needed
                    &&& capacity < len + additional ==> needed <= maximum && needed * item_size
                        <= max_bytes
                },
                Err(e) => outcome == Err::<int, ResourceLimitView>(e@),
            }
        }),
{
    let requested: usize = match len.checked_add(additional) {
        Some(requested) => requested,
        None => return Err(over(resource, usize::MAX, maximum)),
    };
    match checked_buffer_bytes(resource, requested, item_size, maximum, max_bytes) {
        Ok(_) => {},
        Err(e) => return Err(e),
    }
    if requested <= capacity {
        return Ok(capacity);
    }
    let items: usize = clipped(max_bytes / item_size as u64);
    let limit: usize = if maximum < items {
        maximum
    } else {
        items
    };
    proof {
        let size = item_size as int;
        let bytes = max_bytes as int;
        lemma_fundamental_div_mod(bytes, size);
        lemma_mod_bound(bytes, size);
        let q = bytes / size;
        assert(requested <= q) by (nonlinear_arith)
            requires
                requested * size <= bytes,
                bytes == size * q + bytes % size,
                0 <= bytes % size < size,
        ;
        growth_is_geometric_and_bounded(capacity, requested, limit);
        let needed = capacity_after(capacity, requested, limit);
        assert(needed * size <= bytes) by (nonlinear_arith)
            requires
                needed <= q,
                bytes == size * q + bytes % size,
                0 <= bytes % size < size,
                size > 0,
        ;
    }
    grown_capacity(capacity, requested, limit)
}

/// The capacity that a list needs for a number of items.
pub fn reserve_items(resource: &'static str, capacity: usize, requested: usize, maximum: usize) -> (
result: Result<usize, ResourceLimitError>)
    ensures
        match result {
            Ok(needed) => requested <= maximum && needed == capacity_for(
                capacity,
                requested,
                maximum,
            ),
            Err(e) => requested > maximum && e@ == (ResourceLimitView {
                resource: resource@,
                requested: requested as int,
                maximum: maximum as int,
            }),
        },
{
    if requested > maximum {
        return Err(over(resource, requested, maximum));
    }
    if requested <= capacity {
        return Ok(capacity);
    }
    grown_capacity(capacity, requested, maximum)
}

/// How much of each kind a scene shows.
#[derive(Clone, Copy, Debug, PartialEq, Eq, Structural)]
pub struct SceneCounts {
    pub branches: usize,
    pub actions: usize,
    pub directories: usize,
    pub files: usize,
    pub contributors: usize,
    pub labels: usize,
}

/// A product that stops at the largest number.
pub open spec fn times(count: usize, factor: int) -> int {
    smaller(count * factor, usize::MAX as int)
}

/// Why a scene is refused.
pub open spec fn scene_fault(counts: SceneCounts, limits: ResourceLimits) -> Option<
    ResourceLimitView,
> {
    let fault = |resource: Seq<char>, requested: int, maximum: usize|
        Some(ResourceLimitView { resource, requested, maximum: maximum as int });
    let nodes = smaller(counts.directories + counts.files, usize::MAX as int);
    if times(counts.branches, 6) > limits.max_triangle_vertices {
        fault("branches"@, times(counts.branches, 6), limits.max_triangle_vertices)
    } else if times(counts.actions, 3) > limits.max_triangle_vertices {
        fault("actions"@, times(counts.actions, 3), limits.max_triangle_vertices)
    } else if nodes > limits.max_node_instances {
        fault("nodes"@, nodes, limits.max_node_instances)
    } else if counts.contributors > limits.max_node_instances {
        fault("contributors"@, counts.contributors as int, limits.max_node_instances)
    } else if counts.labels > limits.max_labels {
        fault("labels"@, counts.labels as int, limits.max_labels)
    } else {
        None
    }
}

fn saturating_times(count: usize, factor: usize) -> (product: usize)
    ensures
        product == times(count, factor as int),
{
    match count.checked_mul(factor) {
        Some(product) => product,
        None => usize::MAX,
    }
}

/// Refuses scenes beyond their bounds before anything is drawn.
pub fn check_scene(counts: &SceneCounts, limits: &ResourceLimits) -> (result: Result<
    (),
    ResourceLimitError,
>)
    ensures
        match result {
            Ok(()) => scene_fault(*counts, *limits) is None,
            Err(e) => scene_fault(*counts, *limits) == Some(e@),
        },
{
    let branches: usize = saturating_times(counts.branches, 6);
    if branches > limits.max_triangle_vertices {
        return Err(over("branches", branches, limits.max_triangle_vertices));
    }
    let actions: usize = saturating_times(counts.actions, 3);
    if actions > limits.max_triangle_vertices {
        return Err(over("actions", actions, limits.max_triangle_vertices));
    }
    let nodes: usize = counts.directories.saturating_add(counts.files);
    if nodes > limits.max_node_instances {
        return Err(over("nodes", nodes, limits.max_node_instances));
    }
    if counts.contributors > limits.max_node_instances {
        return Err(over("contributors", counts.contributors, limits.max_node_instances));
    }
    if counts.labels > limits.max_labels {
        return Err(over("labels", counts.labels, limits.max_labels));
    }
    Ok(())
}

/// The pixel format of a target.
#[derive(Clone, Copy, Debug, PartialEq, Eq, Structural)]
pub enum TargetFormat {
    Rgba8Unorm,
    Other,
}

/// Why a scene cannot be drawn.
#[derive(Clone, Copy, Debug, PartialEq, Eq)]
pub enum RenderFault {
    ZeroExtent { width: u32, height: u32 },
    UnsupportedTargetFormat,
    UnsupportedSampleCount { expected: u32, actual: u32 },
    UnsupportedCapabilities { required: u32, available: u32 },
    UnsupportedVertexAttributes { required: u32, available: u32 },
    UnsupportedUniformLimit { required: u64, available: u64 },
    ResourceLimit(ResourceLimitError),
    DeviceBufferLimit { resource: &'static str, requested: u64, maximum: u64 },
}

/// What a fault says.
#[verifier::ext_equal]
pub enum RenderFaultView {
    ZeroExtent(u32, u32),
    UnsupportedTargetFormat,
    UnsupportedSampleCount(u32, u32),
    UnsupportedCapabilities(u32, u32),
    UnsupportedVertexAttributes(u32, u32),
    UnsupportedUniformLimit(u64, u64),
    ResourceLimit(ResourceLimitView),
    DeviceBufferLimit(Seq<char>, u64, u64),
}

impl View for RenderFault {
    type V = RenderFaultView;

    open spec fn view(&self) -> RenderFaultView {
        match self {
            RenderFault::ZeroExtent { width, height } => RenderFaultView::ZeroExtent(
                *width,
                *height,
            ),
            RenderFault::UnsupportedTargetFormat => RenderFaultView::UnsupportedTargetFormat,
            RenderFault::UnsupportedSampleCount { expected, actual } =>
                RenderFaultView::UnsupportedSampleCount(*expected, *actual),
            RenderFault::UnsupportedCapabilities { required, available } =>
                RenderFaultView::UnsupportedCapabilities(*required, *available),
            RenderFault::UnsupportedVertexAttributes { required, available } =>
                RenderFaultView::UnsupportedVertexAttributes(*required, *available),
            RenderFault::UnsupportedUniformLimit { required, available } =>
                RenderFaultView::UnsupportedUniformLimit(*required, *available),
            RenderFault::ResourceLimit(error) => RenderFaultView::ResourceLimit(error@),
            RenderFault::DeviceBufferLimit { resource, requested, maximum } =>
                RenderFaultView::DeviceBufferLimit(resource@, *requested, *maximum),
        }
    }
}

/// Why a target is refused.
pub open spec fn target_fault(width: u32, height: u32, format: TargetFormat, samples: u32) -> Option<
    RenderFaultView,
> {
    if width == 0 || height == 0 {
        Some(RenderFaultView::ZeroExtent(width, height))
    } else if format != TargetFormat::Rgba8Unorm {
        Some(RenderFaultView::UnsupportedTargetFormat)
    } else if samples != 1 {
        Some(RenderFaultView::UnsupportedSampleCount(1, samples))
    } else {
        None
    }
}

/// Refuses targets that cannot be drawn on.
pub fn validate_target_metadata(
    width: u32,
    height: u32,
    format: TargetFormat,
    sample_count: u32,
) -> (result: Result<(), RenderFault>)
    ensures
        match result {
            Ok(()) => target_fault(width, height, format, sample_count) is None,
            Err(e) => target_fault(width, height, format, sample_count) == Some(e@),
        },
{
    if width == 0 || height == 0 {
        return Err(RenderFault::ZeroExtent { width, height });
    }
    match format {
        TargetFormat::Rgba8Unorm => {},
        TargetFormat::Other => return Err(RenderFault::UnsupportedTargetFormat),
    }
    if sample_count != 1 {
        return Err(RenderFault::UnsupportedSampleCount { expected: 1, actual: sample_count });
    }
    Ok(())
}

/// What a device offers.
#[derive(Clone, Copy, Debug, PartialEq, Eq, Structural)]
pub struct DeviceLimits {
    pub max_buffer_size: u64,
    pub max_uniform_buffer_binding_size: u64,
    pub max_storage_buffer_binding_size: u64,
    pub max_vertex_buffers: u32,
    pub max_vertex_attributes: u32,
}

/// Why a device cannot draw scenes.
pub open spec fn device_fault(limits: DeviceLimits) -> Option<RenderFaultView> {
    if limits.max_vertex_buffers < 2 {
        Some(RenderFaultView::UnsupportedCapabilities(2, limits.max_vertex_buffers))
    } else if limits.max_vertex_attributes < 6 {
        Some(RenderFaultView::UnsupportedVertexAttributes(6, limits.max_vertex_attributes))
    } else if limits.max_uniform_buffer_binding_size < GLOBALS_BYTES {
        Some(
            RenderFaultView::UnsupportedUniformLimit(
                GLOBALS_BYTES,
                limits.max_uniform_buffer_binding_size,
            ),
        )
    } else {
        None
    }
}

/// Refuses devices that cannot draw scenes.
pub fn check_device(limits: &DeviceLimits) -> (result: Result<(), RenderFault>)
    ensures
        match result {
            Ok(()) => device_fault(*limits) is None,
            Err(e) => device_fault(*limits) == Some(e@),
        },
{
    if limits.max_vertex_buffers < 2 {
        return Err(
            RenderFault::UnsupportedCapabilities {
                required: 2,
                available: limits.max_vertex_buffers,
            },
        );
    }
    if limits.max_vertex_attributes < 6 {
        return Err(
            RenderFault::UnsupportedVertexAttributes {
                required: 6,
                available: limits.max_vertex_attributes,
            },
        );
    }
    if limits.max_uniform_buffer_binding_size < GLOBALS_BYTES {
        return Err(
            RenderFault::UnsupportedUniformLimit {
                required: GLOBALS_BYTES,
                available: limits.max_uniform_buffer_binding_size,
            },
        );
    }
    Ok(())
}

/// A limit that an adapter does not reach.
#[derive(Clone, Copy, Debug, PartialEq, Eq)]
pub struct MissingCapability {
    pub capability: &'static str,
    pub required: u64,
    pub available: u64,
}

/// The first limit that an adapter does not reach, by name.
pub open spec fn missing_limit(required: DeviceLimits, available: DeviceLimits) -> Option<
    (Seq<char>, u64, u64),
> {
    if required.max_buffer_size > available.max_buffer_size {
        Some(("max_buffer_size"@, required.max_buffer_size, available.max_buffer_size))
    } else if required.max_uniform_buffer_binding_size
        > available.max_uniform_buffer_binding_size {
        Some(
            (
                "max_uniform_buffer_binding_size"@,
                required.max_uniform_buffer_binding_size,
                available.max_uniform_buffer_binding_size,
            ),
        )
    } else if required.max_storage_buffer_binding_size
        > available.max_storage_buffer_binding_size {
        Some(
            (
                "max_storage_buffer_binding_size"@,
                required.max_storage_buffer_binding_size,
                available.max_storage_buffer_binding_size,
            ),
        )
    } else if required.max_vertex_buffers > available.max_vertex_buffers {
        Some(
            (
                "max_vertex_buffers"@,
                required.max_vertex_buffers as u64,
                available.max_vertex_buffers as u64,
            ),
        )
    } else if required.max_vertex_attributes > available.max_vertex_attributes {
        Some(
            (
                "max_vertex_attributes"@,
                required.max_vertex_attributes as u64,
                available.max_vertex_attributes as u64,
            ),
        )
    } else {
        None
    }
}

/// Checks that an adapter reaches all limits that are required of it.
pub fn validate_required_limits(required: &DeviceLimits, available: &DeviceLimits) -> (result:
    Result<(), MissingCapability>)
    ensures
        match result {
            Ok(()) => missing_limit(*required, *available) is None,
            Err(e) => missing_limit(*required, *available) == Some(
                (e.capability@, e.required, e.available),
            ),
        },
{
    let missing = |capability: &'static str, required: u64, available: u64| -> (r: Result<
        (),
        MissingCapability,
    >)
        ensures
            r == Err::<(), MissingCapability>(
                MissingCapability { capability, required, available },
            ),
        { Err(MissingCapability { capability, required, available }) };
    if required.max_buffer_size > available.max_buffer_size {
        return missing("max_buffer_size", required.max_buffer_size, available.max_buffer_size);
    }
    if required.max_uniform_buffer_binding_size > available.max_uniform_buffer_binding_size {
        return missing(
            "max_uniform_buffer_binding_size",
            required.max_uniform_buffer_binding_size,
            available.max_uniform_buffer_binding_size,
        );
    }
    if required.max_storage_buffer_binding_size > available.max_storage_buffer_binding_size {
        return missing(
            "max_storage_buffer_binding_size",
            required.max_storage_buffer_binding_size,
            available.max_storage_buffer_binding_size,
        );
    }
    if required.max_vertex_buffers > available.max_vertex_buffers {
        return missing(
            "max_vertex_buffers",
            required.max_vertex_buffers as u64,
            available.max_vertex_buffers as u64,
        );
    }
    if required.max_vertex_attributes > available.max_vertex_attributes {
        return missing(
            "max_vertex_attributes",
            required.max_vertex_attributes as u64,
            available.max_vertex_attributes as u64,
        );
    }
    Ok(())
}

/// Why an upload is refused, or its bytes; nothing is uploaded for no items.
pub open spec fn upload_outcome(
    resource: Seq<char>,
    count: usize,
    item_size: usize,
    max_items: usize,
    max_bytes: u64,
    device_bytes: u64,
) -> Result<Option<u64>, RenderFaultView> {
    match buffer_bytes(resource, count, item_size, max_items, max_bytes) {
        Err(e) => Err(RenderFaultView::ResourceLimit(e)),
        Ok(bytes) => if count == 0 {
            Ok(None)
        } else if bytes > device_bytes {
            Err(RenderFaultView::DeviceBufferLimit(resource, bytes, device_bytes))
        } else {
            Ok(Some(bytes))
        },
    }
}

/// Checks an upload against the bounds of a scene and of the device.
pub fn upload_bytes(
    resource: &'static str,
    count: usize,
    item_size: usize,
    max_items: usize,
    max_bytes: u64,
    device_bytes: u64,
) -> (result: Result<Option<u64>, RenderFault>)
    ensures
        ({
            let outcome = upload_outcome(
                resource@,
                count,
                item_size,
                max_items,
                max_bytes,
                device_bytes,
            );
            match result {
                Ok(bytes) => outcome == Ok::<Option<u64>, RenderFaultView>(bytes),
                Err(e) => outcome == Err::<Option<u64>, RenderFaultView>(e@),
            }
        }),
{
    let bytes: u64 = match checked_buffer_bytes(resource, count, item_size, max_items, max_bytes) {
        Ok(bytes) => bytes,
        Err(e) => return Err(RenderFault::ResourceLimit(e)),
    };
    if count == 0 {
        return Ok(None);
    }
    if bytes > device_bytes {
        return Err(
            RenderFault::DeviceBufferLimit { resource, requested: bytes, maximum: device_bytes },
        );
    }
    Ok(Some(bytes))
}

/// Counts and bytes of one drawn scene.
#[derive(Clone, Copy, Debug, PartialEq, Eq, Structural)]
pub struct RenderStats {
    pub branch_vertices: usize,
    pub action_vertices: usize,
    pub node_instances: usize,
    pub contributor_instances: usize,
    pub labels_considered: usize,
    pub labels_selected: usize,
    pub label_glyphs: usize,
    pub label_vertices: usize,
    pub culled_objects: usize,
    pub bytes_uploaded: u64,
    pub draw_calls: u32,
}

impl Default for RenderStats {
    fn default() -> (stats: Self)
        ensures
            stats == (RenderStats {
                branch_vertices: 0,
                action_vertices: 0,
                node_instances: 0,
                contributor_instances: 0,
                labels_considered: 0,
                labels_selected: 0,
                label_glyphs: 0,
                label_vertices: 0,
                culled_objects: 0,
                bytes_uploaded: 0,
                draw_calls: 0,
            }),
    {
        RenderStats {
            branch_vertices: 0,
            action_vertices: 0,
            node_instances: 0,
            contributor_instances: 0,
            labels_considered: 0,
            labels_selected: 0,
            label_glyphs: 0,
            label_vertices: 0,
            culled_objects: 0,
            bytes_uploaded: 0,
            draw_calls: 0,
        }
    }
}

/// The bytes of the geometry that was counted.
pub open spec fn geometry_bytes(stats: RenderStats) -> int {
    (stats.branch_vertices + stats.action_vertices) * TRIANGLE_VERTEX_BYTES + (stats.node_instances
        + stats.contributor_instances) * NODE_INSTANCE_BYTES + stats.label_vertices
        * LABEL_VERTEX_BYTES
}

pub open spec fn one_if(set: bool) -> int {
    if set {
        1
    } else {
        0
    }
}

/// One draw for every kind of geometry that there is.
pub open spec fn draws(stats: RenderStats) -> int {
    one_if(stats.branch_vertices > 0) + one_if(stats.action_vertices > 0) + one_if(
        stats.node_instances > 0,
    ) + one_if(stats.contributor_instances > 0) + one_if(stats.label_vertices > 0)
}

impl RenderStats {
    /// All vertices of triangles.
    pub fn total_vertices(self) -> (total: usize)
        requires
            self.branch_vertices + self.action_vertices + self.label_vertices <= usize::MAX,
        ensures
            total == self.branch_vertices + self.action_vertices + self.label_vertices,
    {
        self.branch_vertices + self.action_vertices + self.label_vertices
    }

    /// The same counts with the bytes and draws that they mean.
    pub fn encoded(self) -> (stats: Self)
        requires
            geometry_bytes(self) <= u64::MAX,
        ensures
            stats == (RenderStats {
                bytes_uploaded: geometry_bytes(self) as u64,
                draw_calls: draws(self) as u32,
                ..self
            }),
    {
        let triangles: u64 = (self.branch_vertices as u64 + self.action_vertices as u64)
            * TRIANGLE_VERTEX_BYTES;
        let nodes: u64 = (self.node_instances as u64 + self.contributor_instances as u64)
            * NODE_INSTANCE_BYTES;
        let labels: u64 = self.label_vertices as u64 * LABEL_VERTEX_BYTES;
        let mut draw_calls: u32 = 0;
        if self.branch_vertices > 0 {
            draw_calls = draw_calls + 1;
        }
        if self.action_vertices > 0 {
            draw_calls = draw_calls + 1;
        }
        if self.node_instances > 0 {
            draw_calls = draw_calls + 1;
        }
        if self.contributor_instances > 0 {
            draw_calls = draw_calls + 1;
        }
        if self.label_vertices > 0 {
            draw_calls = draw_calls + 1;
        }
        RenderStats { bytes_uploaded: triangles + nodes + labels, draw_calls, ..self }
    }
}

} // verus!
