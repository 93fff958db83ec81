//! Frame resource request streams: the requests nodes make, recorded during
//! pre-consume and replayed, in the same order, during consume.
use vstd::prelude::*;

use crate::error::{FrameResourceError, FrameResourceResult};
use crate::phase::ResourceAllocatorPhase;
use crate::resource_desc::{FrameBufferDesc, FrameResourceDesc, FrameTextureDesc};
use crate::tags::{RenderFlowNameTag, ResourceRequestId};
use crate::usage::ResourceUsage;

verus! {

#[derive(Clone, Copy, Debug, PartialEq, Eq, Hash, Structural)]
pub enum FrameResourceKind {
    Texture,
    Buffer,
}

/// Identifier of a resource owned outside the frame allocator.
#[derive(Clone, Copy, Debug, PartialEq, Eq, Hash, Structural)]
pub struct ExternalFrameResourceId(pub u64);

impl ExternalFrameResourceId {
    pub fn new(id: u64) -> (r: Self)
        ensures
            r.0 == id,
    {
        ExternalFrameResourceId(id)
    }

    pub fn get(self) -> (r: u64)
        ensures
            r == self.0,
    {
        self.0
    }
}

#[derive(Clone, Copy, Debug, PartialEq, Eq, Hash, Structural)]
pub enum RenderQueueKind {
    Graphics,
    Compute,
    Copy,
}

#[derive(Clone, Copy, Debug, PartialEq, Eq, Hash, Structural)]
pub enum QueueSyncKind {
    Fork,
    Join,
    Barrier,
}


/// A resource owned outside the frame allocator, brought into a frame.
#[derive(Debug)]
pub struct ImportedFrameResource {
    kind: FrameResourceKind,
    external_id: ExternalFrameResourceId,
    desc: FrameResourceDesc,
}

impl ImportedFrameResource {
    pub closed spec fn spec_kind(&self) -> FrameResourceKind {
        self.kind
    }

    pub closed spec fn spec_external_id(&self) -> ExternalFrameResourceId {
        self.external_id
    }

    pub closed spec fn spec_desc(&self) -> FrameResourceDesc {
        self.desc
    }

    /// Whether a replayed import matches the recorded one: same kind, same
    /// external resource and exactly the same descriptor.
    pub open spec fn replay_matches(&self, recorded: &Self) -> bool {
        &&& self.spec_kind() == recorded.spec_kind()
        &&& self.spec_external_id() == recorded.spec_external_id()
        &&& self.spec_desc().exact_match(&recorded.spec_desc())
    }

    /// Whether two imports hold the same fields.
    pub open spec fn same_as(&self, other: &Self) -> bool {
        &&& self.spec_kind() == other.spec_kind()
        &&& self.spec_external_id() == other.spec_external_id()
        &&& self.spec_desc().same_as(&other.spec_desc())
    }

    pub fn texture(external_id: ExternalFrameResourceId, desc: FrameTextureDesc) -> (r: Self)
        ensures
            r.spec_kind() == FrameResourceKind::Texture,
            r.spec_external_id() == external_id,
            r.spec_desc() == FrameResourceDesc::Texture(desc),
    {
        ImportedFrameResource { kind: FrameResourceKind::Texture, external_id, desc: FrameResourceDesc::Texture(desc) }
    }

    pub fn buffer(external_id: ExternalFrameResourceId, desc: FrameBufferDesc) -> (r: Self)
        ensures
            r.spec_kind() == FrameResourceKind::Buffer,
            r.spec_external_id() == external_id,
            r.spec_desc() == FrameResourceDesc::Buffer(desc),
    {
        ImportedFrameResource { kind: FrameResourceKind::Buffer, external_id, desc: FrameResourceDesc::Buffer(desc) }
    }

    pub fn kind(&self) -> (r: FrameResourceKind)
        ensures
            r == self.spec_kind(),
    {
        self.kind
    }

    pub fn external_id(&self) -> (r: ExternalFrameResourceId)
        ensures
            r == self.spec_external_id(),
    {
        self.external_id
    }

    pub fn desc(&self) -> (r: &FrameResourceDesc)
        ensures
            *r == self.spec_desc(),
    {
        &self.desc
    }

    fn matches_replay(&self, recorded: &Self) -> (r: bool)
        ensures
            r == self.replay_matches(recorded),
    {
        self.kind == recorded.kind && self.external_id == recorded.external_id && self.desc.is_exact_match(
            &recorded.desc,
        )
    }

    /// A copy of the import.
    pub fn copy(&self) -> (r: Self)
        ensures
            r.same_as(self),
    {
        ImportedFrameResource { kind: self.kind, external_id: self.external_id, desc: self.desc.copy() }
    }
}

/// One request of a node to the frame resource allocator.
#[derive(Debug)]
pub enum ResourceRequest {
    Declare { tag: RenderFlowNameTag, desc: FrameResourceDesc },
    DeclareLike { dst: RenderFlowNameTag, src: RenderFlowNameTag },
    Import { tag: RenderFlowNameTag, resource: ImportedFrameResource },
    IsDeclared { tag: RenderFlowNameTag, declared: bool },
    UseBegin { tag: RenderFlowNameTag, usage: ResourceUsage },
    UseEnd { tag: RenderFlowNameTag },
    Free { tag: RenderFlowNameTag },
    Swap { a: RenderFlowNameTag, b: RenderFlowNameTag },
    SwapWithExternal { tag: RenderFlowNameTag, resource: ImportedFrameResource },
    BeginQueue { queue: RenderQueueKind },
    EndQueue,
    QueueSync { sync: QueueSyncKind },
    Decision { value: bool },
}

impl ResourceRequest {
    /// Whether `self`, made during consume, replays `recorded`: the same kind
    /// of request with the same operands; descriptors must match exactly, and
    /// a decision's value may differ.
    pub open spec fn replay_matches(&self, recorded: &Self) -> bool {
        match (self, recorded) {
            (ResourceRequest::Declare { tag, desc }, ResourceRequest::Declare { tag: t, desc: d }) => tag == t
                && desc.exact_match(d),
            (ResourceRequest::DeclareLike { dst, src }, ResourceRequest::DeclareLike { dst: d, src: s }) => dst == d
                && src == s,
            (ResourceRequest::Import { tag, resource }, ResourceRequest::Import { tag: t, resource: r }) => tag == t
                && resource.replay_matches(r),
            (ResourceRequest::IsDeclared { tag, declared }, ResourceRequest::IsDeclared { tag: t, declared: d }) => tag
                == t && declared == d,
            (ResourceRequest::UseBegin { tag, usage }, ResourceRequest::UseBegin { tag: t, usage: u }) => tag == t
                && usage == u,
            (ResourceRequest::UseEnd { tag }, ResourceRequest::UseEnd { tag: t }) => tag == t,
            (ResourceRequest::Free { tag }, ResourceRequest::Free { tag: t }) => tag == t,
            (ResourceRequest::Swap { a, b }, ResourceRequest::Swap { a: x, b: y }) => a == x && b == y,
            (
                ResourceRequest::SwapWithExternal { tag, resource },
                ResourceRequest::SwapWithExternal { tag: t, resource: r },
            ) => tag == t && resource.replay_matches(r),
            (ResourceRequest::BeginQueue { queue }, ResourceRequest::BeginQueue { queue: q }) => queue == q,
            (ResourceRequest::EndQueue, ResourceRequest::EndQueue) => true,
            (ResourceRequest::QueueSync { sync }, ResourceRequest::QueueSync { sync: y }) => sync == y,
            (ResourceRequest::Decision { .. }, ResourceRequest::Decision { .. }) => true,
            _ => false,
        }
    }

    /// Whether two requests hold the same fields.
    pub open spec fn same_as(&self, other: &Self) -> bool {
        match (self, other) {
            (ResourceRequest::Declare { tag, desc }, ResourceRequest::Declare { tag: t, desc: d }) => tag == t
                && desc.same_as(d),
            (ResourceRequest::Import { tag, resource }, ResourceRequest::Import { tag: t, resource: r }) => tag == t
                && resource.same_as(r),
            (
                ResourceRequest::SwapWithExternal { tag, resource },
                ResourceRequest::SwapWithExternal { tag: t, resource: r },
            ) => tag == t && resource.same_as(r),
            (ResourceRequest::Declare { .. }, _) => false,
            (ResourceRequest::Import { .. }, _) => false,
            (ResourceRequest::SwapWithExternal { .. }, _) => false,
            _ => self == other,
        }
    }

    pub fn matches_replay(&self, recorded: &Self) -> (r: bool)
        ensures
            r == self.replay_matches(recorded),
    {
        match (self, recorded) {
            (ResourceRequest::Declare { tag, desc }, ResourceRequest::Declare { tag: t, desc: d }) => *tag == *t
                && desc.is_exact_match(d),
            (ResourceRequest::DeclareLike { dst, src }, ResourceRequest::DeclareLike { dst: d, src: s }) => *dst
                == *d && *src == *s,
            (ResourceRequest::Import { tag, resource }, ResourceRequest::Import { tag: t, resource: r }) => *tag == *t
                && resource.matches_replay(r),
            (ResourceRequest::IsDeclared { tag, declared }, ResourceRequest::IsDeclared { tag: t, declared: d }) => *tag
                == *t && *declared == *d,
            (ResourceRequest::UseBegin { tag, usage }, ResourceRequest::UseBegin { tag: t, usage: u }) => *tag == *t
                && *usage == *u,
            (ResourceRequest::UseEnd { tag }, ResourceRequest::UseEnd { tag: t }) => *tag == *t,
            (ResourceRequest::Free { tag }, ResourceRequest::Free { tag: t }) => *tag == *t,
            (ResourceRequest::Swap { a, b }, ResourceRequest::Swap { a: x, b: y }) => *a == *x && *b == *y,
            (
                ResourceRequest::SwapWithExternal { tag, resource },
                ResourceRequest::SwapWithExternal { tag: t, resource: r },
            ) => *tag == *t && resource.matches_replay(r),
            (ResourceRequest::BeginQueue { queue }, ResourceRequest::BeginQueue { queue: q }) => *queue == *q,
            (ResourceRequest::EndQueue, ResourceRequest::EndQueue) => true,
            (ResourceRequest::QueueSync { sync }, ResourceRequest::QueueSync { sync: y }) => *sync == *y,
            (ResourceRequest::Decision { .. }, ResourceRequest::Decision { .. }) => true,
            _ => false,
        }
    }

    /// A copy of the request.
    pub fn copy(&self) -> (r: Self)
        ensures
            r.same_as(self),
    {
        match self {
            ResourceRequest::Declare { tag, desc } => ResourceRequest::Declare { tag: *tag, desc: desc.copy() },
            ResourceRequest::DeclareLike { dst, src } => ResourceRequest::DeclareLike { dst: *dst, src: *src },
            ResourceRequest::Import { tag, resource } => ResourceRequest::Import { tag: *tag, resource: resource.copy() },
            ResourceRequest::IsDeclared { tag, declared } => ResourceRequest::IsDeclared { tag: *tag, declared: *declared },
            ResourceRequest::UseBegin { tag, usage } => ResourceRequest::UseBegin { tag: *tag, usage: *usage },
            ResourceRequest::UseEnd { tag } => ResourceRequest::UseEnd { tag: *tag },
            ResourceRequest::Free { tag } => ResourceRequest::Free { tag: *tag },
            ResourceRequest::Swap { a, b } => ResourceRequest::Swap { a: *a, b: *b },
            ResourceRequest::SwapWithExternal { tag, resource } => ResourceRequest::SwapWithExternal {
                tag: *tag,
                resource: resource.copy(),
            },
            ResourceRequest::BeginQueue { queue } => ResourceRequest::BeginQueue { queue: *queue },
            ResourceRequest::EndQueue => ResourceRequest::EndQueue,
            ResourceRequest::QueueSync { sync } => ResourceRequest::QueueSync { sync: *sync },
            ResourceRequest::Decision { value } => ResourceRequest::Decision { value: *value },
        }
    }
}


/// What applying a request to a group did.
#[derive(Debug)]
pub enum RequestGroupAction {
    /// The request was recorded during pre-consume under `id`.
    Recorded { id: ResourceRequestId },
    /// The request replayed the one recorded under `id` during consume.
    Replayed { id: ResourceRequestId, recorded: ResourceRequest },
}

impl RequestGroupAction {
    pub fn id(&self) -> (r: ResourceRequestId)
        ensures
            r == match self {
                RequestGroupAction::Recorded { id } => *id,
                RequestGroupAction::Replayed { id, .. } => *id,
            },
    {
        match self {
            RequestGroupAction::Recorded { id } => *id,
            RequestGroupAction::Replayed { id, .. } => *id,
        }
    }

    pub fn recorded_request(&self) -> (r: Option<&ResourceRequest>)
        ensures
            match self {
                RequestGroupAction::Recorded { .. } => r is None,
                RequestGroupAction::Replayed { recorded, .. } => r == Some(recorded),
            },
    {
        match self {
            RequestGroupAction::Recorded { .. } => None,
            RequestGroupAction::Replayed { recorded, .. } => Some(recorded),
        }
    }
}

/// The requests one flow group made: recorded during pre-consume, then
/// replayed in order during consume; the cursor counts the replayed ones.
#[derive(Debug)]
pub struct RequestGroup {
    requests: Vec<ResourceRequest>,
    consume_cursor: usize,
    touched: bool,
}

/// The error of a request id that does not fit in 32 bits.
pub open spec fn request_id_range_error() -> FrameResourceError {
    FrameResourceError::InvalidState { reason: "resource request group exceeded u32 request id range" }
}

fn request_id_from_index(index: usize) -> (r: FrameResourceResult<ResourceRequestId>)
    ensures
        r is Ok <==> index <= u32::MAX,
        r is Ok ==> r->Ok_0.0 == index,
        r is Err ==> r->Err_0 == request_id_range_error(),
{
    if index > 0xffff_ffffusize {
        return Err(FrameResourceError::InvalidState { reason: "resource request group exceeded u32 request id range" });
    }
    Ok(ResourceRequestId::new(index as u32))
}

/// Whether applying `request` in `phase` took the group from `before` to
/// `after` with result `r`.
pub open spec fn apply_outcome(
    before: RequestGroup,
    after: RequestGroup,
    phase: ResourceAllocatorPhase,
    request: ResourceRequest,
    r: FrameResourceResult<RequestGroupAction>,
) -> bool {
    let n = before.spec_requests().len();
    let c = before.spec_consume_cursor() as int;
    let recorded = before.spec_requests();
    &&& phase != ResourceAllocatorPhase::PreConsume && phase != ResourceAllocatorPhase::Consume ==> r == Err::<
        RequestGroupAction,
        FrameResourceError,
    >(
        FrameResourceError::InvalidOperation {
            operation: "RequestGroup::apply",
            reason: "resource requests are only valid during pre-consume or consume",
        },
    )
    &&& r is Err ==> after.spec_requests() == before.spec_requests() && after.spec_consume_cursor()
        == before.spec_consume_cursor() && after.spec_touched() == before.spec_touched()
    &&& phase == ResourceAllocatorPhase::PreConsume ==> {
        &&& (r is Ok <==> n <= u32::MAX)
        &&& r is Err ==> r->Err_0 == request_id_range_error()
        &&& r is Ok ==> {
            &&& r->Ok_0 == RequestGroupAction::Recorded { id: ResourceRequestId(n as u32) }
            &&& after.spec_requests() == before.spec_requests().push(request)
            &&& after.spec_consume_cursor() == before.spec_consume_cursor()
            &&& after.spec_touched()
        }
    }
    &&& phase == ResourceAllocatorPhase::Consume ==> {
        &&& c >= recorded.len() ==> r == Err::<RequestGroupAction, FrameResourceError>(
            FrameResourceError::InvalidOperation {
                operation: "RequestGroup::replay_consume",
                reason: "consume replay produced more requests than pre-consume",
            },
        )
        &&& c < recorded.len() && !request.replay_matches(&recorded[c]) ==> r == Err::<
            RequestGroupAction,
            FrameResourceError,
        >(
            FrameResourceError::InvalidOperation {
                operation: "RequestGroup::replay_consume",
                reason: "consume request did not match pre-consume request",
            },
        )
        &&& c < recorded.len() && request.replay_matches(&recorded[c]) && c > u32::MAX ==> r == Err::<
            RequestGroupAction,
            FrameResourceError,
        >(request_id_range_error())
        &&& r is Ok <==> c < recorded.len() && request.replay_matches(&recorded[c]) && c <= u32::MAX
        &&& r is Ok ==> {
            &&& r->Ok_0 matches RequestGroupAction::Replayed { id, recorded: copy } && id.0 == c && copy.same_as(
                &recorded[c],
            )
            &&& after.spec_requests() == recorded
            &&& after.spec_consume_cursor() == c + 1
            &&& after.spec_touched()
        }
    }
}

impl RequestGroup {
    pub closed spec fn spec_requests(&self) -> Seq<ResourceRequest> {
        self.requests@
    }

    pub closed spec fn spec_consume_cursor(&self) -> nat {
        self.consume_cursor as nat
    }

    pub closed spec fn spec_touched(&self) -> bool {
        self.touched
    }

    /// An empty group.
    pub fn new() -> (r: Self)
        ensures
            r.spec_requests().len() == 0,
            r.spec_consume_cursor() == 0,
            !r.spec_touched(),
    {
        RequestGroup { requests: Vec::new(), consume_cursor: 0, touched: false }
    }

    /// Forgets every request, ready to record a new frame.
    pub fn reset_for_preconsume(&mut self)
        ensures
            final(self).spec_requests().len() == 0,
            final(self).spec_consume_cursor() == 0,
            !final(self).spec_touched(),
    {
        self.requests = Vec::new();
        self.consume_cursor = 0;
        self.touched = false;
    }

    /// Rewinds replay to the first recorded request.
    pub fn reset_consume_cursor(&mut self)
        ensures
            final(self).spec_requests() == old(self).spec_requests(),
            final(self).spec_consume_cursor() == 0,
            !final(self).spec_touched(),
    {
        self.consume_cursor = 0;
        self.touched = false;
    }

    /// Records `request` during pre-consume, or replays it against the next
    /// recorded request during consume; any other phase is refused.
    pub fn apply(&mut self, phase: ResourceAllocatorPhase, request: ResourceRequest) -> (r: FrameResourceResult<
        RequestGroupAction,
    >)
        ensures
            apply_outcome(*old(self), *final(self), phase, request, r),
    {
        match phase {
            ResourceAllocatorPhase::PreConsume => {
                let id = match request_id_from_index(self.requests.len()) {
                    Ok(id) => id,
                    Err(e) => return Err(e),
                };
                self.requests.push(request);
                self.touched = true;
                Ok(RequestGroupAction::Recorded { id })
            },
            ResourceAllocatorPhase::Consume => {
                if self.consume_cursor >= self.requests.len() {
                    return Err(
                        FrameResourceError::InvalidOperation {
                            operation: "RequestGroup::replay_consume",
                            reason: "consume replay produced more requests than pre-consume",
                        },
                    );
                }
                let recorded = &self.requests[self.consume_cursor];
                if !request.matches_replay(recorded) {
                    return Err(
                        FrameResourceError::InvalidOperation {
                            operation: "RequestGroup::replay_consume",
                            reason: "consume request did not match pre-consume request",
                        },
                    );
                }
                let id = match request_id_from_index(self.consume_cursor) {
                    Ok(id) => id,
                    Err(e) => return Err(e),
                };
                let copy = recorded.copy();
                self.consume_cursor = self.consume_cursor + 1;
                self.touched = true;
                Ok(RequestGroupAction::Replayed { id, recorded: copy })
            },
            _ => Err(
                FrameResourceError::InvalidOperation {
                    operation: "RequestGroup::apply",
                    reason: "resource requests are only valid during pre-consume or consume",
                },
            ),
        }
    }

    /// Whether consume replayed every recorded request.
    pub fn validate_consume_finished(&self) -> (r: FrameResourceResult<()>)
        ensures
            r is Ok <==> self.spec_consume_cursor() == self.spec_requests().len(),
            r is Err ==> r == Err::<(), FrameResourceError>(
                FrameResourceError::InvalidState {
                    reason: "consume did not replay every pre-consume resource request",
                },
            ),
    {
        if self.consume_cursor == self.requests.len() {
            Ok(())
        } else {
            Err(FrameResourceError::InvalidState { reason: "consume did not replay every pre-consume resource request" })
        }
    }

    pub fn requests(&self) -> (r: &[ResourceRequest])
        ensures
            r@ == self.spec_requests(),
    {
        self.requests.as_slice()
    }

    pub fn consume_cursor(&self) -> (r: usize)
        ensures
            r == self.spec_consume_cursor(),
    {
        self.consume_cursor
    }

    pub fn touched(&self) -> (r: bool)
        ensures
            r == self.spec_touched(),
    {
        self.touched
    }

    pub fn is_consume_finished(&self) -> (r: bool)
        ensures
            r == (self.spec_consume_cursor() == self.spec_requests().len()),
    {
        self.consume_cursor == self.requests.len()
    }
}

impl Default for RequestGroup {
    fn default() -> (r: Self)
        ensures
            r.spec_requests().len() == 0,
            r.spec_consume_cursor() == 0,
            !r.spec_touched(),
    {
        RequestGroup::new()
    }
}

} // verus!
