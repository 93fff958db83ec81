//! Request time ranges and tag lifetime timelines.
use vstd::prelude::*;

use crate::error::{FrameResourceError, FrameResourceResult};
use crate::request::{ExternalFrameResourceId, FrameResourceKind};
use crate::resource_desc::FrameResourceDesc;
use crate::tags::{AllocationRequestId, RenderFlowNameTag, RequestTime};

verus! {

/// Where the memory behind an allocation request comes from.
#[derive(Clone, Copy, Debug, PartialEq, Eq, Structural)]
pub enum AllocationRequestSource {
    Owned,
    Imported(ExternalFrameResourceId),
    ExternalSwap(ExternalFrameResourceId),
}

/// A closed interval of request times; `start` never exceeds `end`.
#[derive(Clone, Copy, Debug, PartialEq, Eq, Structural)]
pub struct RequestRange {
    start: RequestTime,
    end: RequestTime,
}

impl RequestRange {
    /// First time of the range.
    pub closed spec fn spec_start(self) -> u64 {
        self.start.0
    }

    /// Last time of the range.
    pub closed spec fn spec_end(self) -> u64 {
        self.end.0
    }

    /// Whether the range contains time `t`.
    pub open spec fn covers(self, t: int) -> bool {
        self.spec_start() <= t <= self.spec_end()
    }

    /// Whether the two ranges share a time.
    pub open spec fn shares_time(self, other: Self) -> bool {
        self.spec_start() <= other.spec_end() && other.spec_start() <= self.spec_end()
    }

    /// Whether `start <= end`; every range built by this type satisfies it.
    pub open spec fn wf(self) -> bool {
        self.spec_start() <= self.spec_end()
    }

    /// Builds `[start, end]`; a range whose end precedes its start is refused.
    pub fn new(start: RequestTime, end: RequestTime) -> (r: FrameResourceResult<Self>)
        ensures
            r is Ok <==> start.0 <= end.0,
            r is Ok ==> r->Ok_0.spec_start() == start.0 && r->Ok_0.spec_end() == end.0 && r->Ok_0.wf(),
            r is Err ==> r == Err::<Self, FrameResourceError>(
                FrameResourceError::InvalidOperation {
                    operation: "RequestRange::new",
                    reason: "request range end precedes start",
                },
            ),
    {
        if end.0 < start.0 {
            return Err(
                FrameResourceError::InvalidOperation {
                    operation: "RequestRange::new",
                    reason: "request range end precedes start",
                },
            );
        }
        Ok(RequestRange { start, end })
    }

    /// The range holding only `time`.
    pub closed spec fn point(time: RequestTime) -> Self {
        RequestRange { start: time, end: time }
    }

    /// The range widened so that it touches `time`.
    pub closed spec fn extended_to(self, time: RequestTime) -> Self {
        RequestRange {
            start: if time.0 < self.start.0 { time } else { self.start },
            end: if time.0 > self.end.0 { time } else { self.end },
        }
    }

    /// The bounds of `point` and `extended_to`.
    pub proof fn lemma_point_and_extended(self, time: RequestTime)
        ensures
            RequestRange::point(time).spec_start() == time.0,
            RequestRange::point(time).spec_end() == time.0,
            self.extended_to(time).spec_start() == if time.0 < self.spec_start() { time.0 } else { self.spec_start() },
            self.extended_to(time).spec_end() == if time.0 > self.spec_end() { time.0 } else { self.spec_end() },
    {
    }

    /// The range holding one time.
    pub fn single(time: RequestTime) -> (r: Self)
        ensures
            r.spec_start() == time.0,
            r.spec_end() == time.0,
            r.wf(),
            r == RequestRange::point(time),
    {
        RequestRange { start: time, end: time }
    }

    pub fn start(self) -> (r: RequestTime)
        ensures
            r.0 == self.spec_start(),
    {
        self.start
    }

    pub fn end(self) -> (r: RequestTime)
        ensures
            r.0 == self.spec_end(),
    {
        self.end
    }

    /// Whether `time` lies in the range.
    pub fn touches(self, time: RequestTime) -> (r: bool)
        ensures
            r == (self.spec_start() <= time.0 && time.0 <= self.spec_end()),
    {
        self.start.0 <= time.0 && time.0 <= self.end.0
    }

    /// Whether the two ranges share a time.
    pub fn overlaps(self, other: Self) -> (r: bool)
        ensures
            r == self.shares_time(other),
    {
        self.start.0 <= other.end.0 && other.start.0 <= self.end.0
    }

    /// Widens the range so that it touches `time`.
    pub fn extend_to(&mut self, time: RequestTime)
        requires
            old(self).wf(),
        ensures
            final(self).wf(),
            final(self).spec_start() == if time.0 < old(self).spec_start() { time.0 } else { old(self).spec_start() },
            final(self).spec_end() == if time.0 > old(self).spec_end() { time.0 } else { old(self).spec_end() },
            *final(self) == old(self).extended_to(time),
    {
        if time.0 < self.start.0 {
            self.start = time;
        }
        if time.0 > self.end.0 {
            self.end = time;
        }
    }
}

/// Two well-formed ranges overlap exactly when some time touches both.
pub proof fn lemma_overlaps_iff_common_time(a: RequestRange, b: RequestRange)
    requires
        a.wf(),
        b.wf(),
    ensures
        (a.spec_start() <= b.spec_end() && b.spec_start() <= a.spec_end()) <==> exists|t: int|
            #[trigger] a.covers(t) && b.covers(t),
{
    if a.spec_start() <= b.spec_end() && b.spec_start() <= a.spec_end() {
        let t: int = if a.spec_start() < b.spec_start() { b.spec_start() as int } else { a.spec_start() as int };
        assert(a.covers(t) && b.covers(t));
    }
}

/// What happened to a tag at one point of its timeline.
#[derive(Clone, Copy, Debug, PartialEq, Eq, Structural)]
pub enum TagLifetimeEventKind {
    Declare,
    DeclareLike,
    Import,
    Free,
    Swap,
    SwapWithExternal,
}

/// One point of a tag's timeline: from `time` on the tag names `allocation`.
#[derive(Clone, Copy, Debug, PartialEq, Eq, Structural)]
pub struct TagLifetimeEvent {
    pub time: RequestTime,
    pub allocation: Option<AllocationRequestId>,
    pub kind: TagLifetimeEventKind,
}

impl TagLifetimeEvent {
    pub fn new(time: RequestTime, allocation: Option<AllocationRequestId>, kind: TagLifetimeEventKind) -> (r: Self)
        ensures
            r == (TagLifetimeEvent { time, allocation, kind }),
    {
        TagLifetimeEvent { time, allocation, kind }
    }

    pub fn time(self) -> (r: RequestTime)
        ensures
            r == self.time,
    {
        self.time
    }

    pub fn allocation(self) -> (r: Option<AllocationRequestId>)
        ensures
            r == self.allocation,
    {
        self.allocation
    }

    pub fn kind(self) -> (r: TagLifetimeEventKind)
        ensures
            r == self.kind,
    {
        self.kind
    }
}

/// The events of one tag, in request-time order.
#[derive(Clone, Debug)]
pub struct TagLifetime {
    pub tag: RenderFlowNameTag,
    pub events: Vec<TagLifetimeEvent>,
}

/// `k` counts the leading events of `events` at or before `time`.
pub open spec fn lookup_prefix(events: Seq<TagLifetimeEvent>, time: u64, k: int) -> bool {
    &&& 0 <= k <= events.len()
    &&& forall|i: int| 0 <= i < k ==> (#[trigger] events[i]).time.0 <= time
    &&& k < events.len() ==> events[k].time.0 > time
}

impl TagLifetime {
    pub fn new(tag: RenderFlowNameTag, events: Vec<TagLifetimeEvent>) -> (r: Self)
        ensures
            r.tag == tag,
            r.events@ == events@,
    {
        TagLifetime { tag, events }
    }

    pub fn tag(&self) -> (r: RenderFlowNameTag)
        ensures
            r == self.tag,
    {
        self.tag
    }

    pub fn events(&self) -> (r: &[TagLifetimeEvent])
        ensures
            r@ == self.events@,
    {
        self.events.as_slice()
    }

    /// The allocation the tag names at `time`: that of the last event among the
    /// leading events at or before `time`. A time before the first event is refused.
    pub fn lookup(&self, time: RequestTime) -> (r: FrameResourceResult<Option<AllocationRequestId>>)
        ensures
            r is Ok <==> self.events@.len() > 0 && self.events@[0].time.0 <= time.0,
            r is Ok ==> exists|k: int|
                #![trigger lookup_prefix(self.events@, time.0, k)]
                lookup_prefix(self.events@, time.0, k) && k > 0 && r->Ok_0 == self.events@[k - 1].allocation,
            r is Err ==> r == Err::<Option<AllocationRequestId>, FrameResourceError>(
                FrameResourceError::InvalidOperation {
                    operation: "TagLifetime::lookup",
                    reason: "lookup time precedes the tag lifetime timeline",
                },
            ),
    {
        let mut current: Option<AllocationRequestId> = None;
        let mut saw_event = false;
        let mut i: usize = 0;
        while i < self.events.len()
            invariant
                i <= self.events@.len(),
                forall|j: int| 0 <= j < i ==> (#[trigger] self.events@[j]).time.0 <= time.0,
                saw_event == (i > 0),
                i > 0 ==> current == self.events@[i - 1].allocation,
            ensures
                lookup_prefix(self.events@, time.0, i as int),
                saw_event == (i > 0),
                i > 0 ==> current == self.events@[i - 1].allocation,
            decreases self.events@.len() - i,
        {
            let event = self.events[i];
            if event.time.0 > time.0 {
                break;
            }
            saw_event = true;
            current = event.allocation;
            i = i + 1;
        }
        if saw_event {
            assert(lookup_prefix(self.events@, time.0, i as int));
            Ok(current)
        } else {
            Err(
                FrameResourceError::InvalidOperation {
                    operation: "TagLifetime::lookup",
                    reason: "lookup time precedes the tag lifetime timeline",
                },
            )
        }
    }
}


/// One concrete allocation the frame needs: a resource instance that was
/// touched, with the time range in which it is alive.
#[derive(Debug)]
pub struct AllocationRequest {
    id: AllocationRequestId,
    tag: RenderFlowNameTag,
    desc: FrameResourceDesc,
    lifetime: RequestRange,
    source: AllocationRequestSource,
    can_reuse_same_frame: bool,
    can_cache_across_frames: bool,
}

impl AllocationRequest {
    pub closed spec fn spec_id(&self) -> AllocationRequestId {
        self.id
    }

    pub closed spec fn spec_tag(&self) -> RenderFlowNameTag {
        self.tag
    }

    pub closed spec fn spec_desc(&self) -> FrameResourceDesc {
        self.desc
    }

    pub closed spec fn spec_lifetime(&self) -> RequestRange {
        self.lifetime
    }

    pub closed spec fn spec_source(&self) -> AllocationRequestSource {
        self.source
    }

    pub closed spec fn spec_can_reuse_same_frame(&self) -> bool {
        self.can_reuse_same_frame
    }

    pub closed spec fn spec_can_cache_across_frames(&self) -> bool {
        self.can_cache_across_frames
    }

    pub(crate) fn from_parts(
        id: AllocationRequestId,
        tag: RenderFlowNameTag,
        desc: FrameResourceDesc,
        lifetime: RequestRange,
        source: AllocationRequestSource,
        can_reuse_same_frame: bool,
        can_cache_across_frames: bool,
    ) -> (r: Self)
        ensures
            r.spec_id() == id,
            r.spec_tag() == tag,
            r.spec_desc() == desc,
            r.spec_lifetime() == lifetime,
            r.spec_source() == source,
            r.spec_can_reuse_same_frame() == can_reuse_same_frame,
            r.spec_can_cache_across_frames() == can_cache_across_frames,
    {
        AllocationRequest { id, tag, desc, lifetime, source, can_reuse_same_frame, can_cache_across_frames }
    }

    pub fn id(&self) -> (r: AllocationRequestId)
        ensures
            r == self.spec_id(),
    {
        self.id
    }

    pub fn tag(&self) -> (r: RenderFlowNameTag)
        ensures
            r == self.spec_tag(),
    {
        self.tag
    }

    pub fn desc(&self) -> (r: &FrameResourceDesc)
        ensures
            *r == self.spec_desc(),
    {
        &self.desc
    }

    pub fn lifetime(&self) -> (r: RequestRange)
        ensures
            r == self.spec_lifetime(),
    {
        self.lifetime
    }

    pub fn source(&self) -> (r: AllocationRequestSource)
        ensures
            r == self.spec_source(),
    {
        self.source
    }

    pub fn can_reuse_same_frame(&self) -> (r: bool)
        ensures
            r == self.spec_can_reuse_same_frame(),
    {
        self.can_reuse_same_frame
    }

    pub fn can_cache_across_frames(&self) -> (r: bool)
        ensures
            r == self.spec_can_cache_across_frames(),
    {
        self.can_cache_across_frames
    }

    /// Whether the request is for a texture or a buffer.
    pub fn kind(&self) -> (r: FrameResourceKind)
        ensures
            r == match self.spec_desc() {
                FrameResourceDesc::Texture(_) => FrameResourceKind::Texture,
                FrameResourceDesc::Buffer(_) => FrameResourceKind::Buffer,
            },
    {
        match self.desc {
            FrameResourceDesc::Texture(_) => FrameResourceKind::Texture,
            FrameResourceDesc::Buffer(_) => FrameResourceKind::Buffer,
        }
    }
}

/// Whether `i` is the first position of `lifetimes` whose tag is `tag`.
pub open spec fn first_tag_position(lifetimes: Seq<TagLifetime>, tag: RenderFlowNameTag, i: int) -> bool {
    &&& 0 <= i < lifetimes.len()
    &&& lifetimes[i].tag == tag
    &&& forall|j: int| 0 <= j < i ==> (#[trigger] lifetimes[j]).tag != tag
}

/// Whether `i` is the first position of `requests` whose id is `id`.
pub open spec fn first_request_position(requests: Seq<AllocationRequest>, id: AllocationRequestId, i: int) -> bool {
    &&& 0 <= i < requests.len()
    &&& requests[i].spec_id() == id
    &&& forall|j: int| 0 <= j < i ==> (#[trigger] requests[j]).spec_id() != id
}

/// The result of lifetime solving: the allocations the frame needs, and for
/// each tag the timeline of allocations it names.
///
/// Request `i` has id `i`, a well-formed lifetime and a descriptor that
/// passed validation.
#[derive(Debug)]
pub struct FrameLifetimeSolution {
    allocation_requests: Vec<AllocationRequest>,
    tag_lifetimes: Vec<TagLifetime>,
}

impl FrameLifetimeSolution {
    pub closed spec fn spec_requests(&self) -> Seq<AllocationRequest> {
        self.allocation_requests@
    }

    pub closed spec fn spec_tag_lifetimes(&self) -> Seq<TagLifetime> {
        self.tag_lifetimes@
    }

    /// The invariant every solution keeps.
    #[verifier::type_invariant]
    pub open spec fn well_formed(&self) -> bool {
        forall|i: int|
            0 <= i < self.spec_requests().len() ==> {
                let r = #[trigger] self.spec_requests()[i];
                &&& r.spec_id().0 == i
                &&& r.spec_lifetime().wf()
                &&& r.spec_desc().validation() is Ok
            }
    }

    pub(crate) fn from_parts(allocation_requests: Vec<AllocationRequest>, tag_lifetimes: Vec<TagLifetime>) -> (r: Self)
        requires
            forall|i: int|
                0 <= i < allocation_requests@.len() ==> {
                    let q = #[trigger] allocation_requests@[i];
                    &&& q.spec_id().0 == i
                    &&& q.spec_lifetime().wf()
                    &&& q.spec_desc().validation() is Ok
                },
        ensures
            r.spec_requests() == allocation_requests@,
            r.spec_tag_lifetimes() == tag_lifetimes@,
    {
        FrameLifetimeSolution { allocation_requests, tag_lifetimes }
    }

    pub fn allocation_requests(&self) -> (r: &[AllocationRequest])
        ensures
            r@ == self.spec_requests(),
    {
        self.allocation_requests.as_slice()
    }

    /// The first request with id `id`.
    pub fn allocation_request(&self, id: AllocationRequestId) -> (r: Option<&AllocationRequest>)
        ensures
            r is None <==> forall|i: int| 0 <= i < self.spec_requests().len() ==> (#[trigger] self.spec_requests()[i]).spec_id() != id,
            r is Some ==> exists|i: int| #[trigger] first_request_position(self.spec_requests(), id, i) && *r->0 == self.spec_requests()[i],
    {
        let mut i: usize = 0;
        while i < self.allocation_requests.len()
            invariant
                i <= self.allocation_requests@.len(),
                forall|j: int| 0 <= j < i ==> (#[trigger] self.allocation_requests@[j]).spec_id() != id,
            decreases self.allocation_requests@.len() - i,
        {
            if self.allocation_requests[i].id == id {
                assert(first_request_position(self.spec_requests(), id, i as int));
                return Some(&self.allocation_requests[i]);
            }
            i = i + 1;
        }
        None
    }

    pub fn tag_lifetimes(&self) -> (r: &[TagLifetime])
        ensures
            r@ == self.spec_tag_lifetimes(),
    {
        self.tag_lifetimes.as_slice()
    }

    /// The first timeline of `tag`.
    pub fn tag_lifetime(&self, tag: RenderFlowNameTag) -> (r: Option<&TagLifetime>)
        ensures
            r is None <==> forall|i: int| 0 <= i < self.spec_tag_lifetimes().len() ==> (#[trigger] self.spec_tag_lifetimes()[i]).tag != tag,
            r is Some ==> exists|i: int| #[trigger] first_tag_position(self.spec_tag_lifetimes(), tag, i) && *r->0 == self.spec_tag_lifetimes()[i],
    {
        let mut i: usize = 0;
        while i < self.tag_lifetimes.len()
            invariant
                i <= self.tag_lifetimes@.len(),
                forall|j: int| 0 <= j < i ==> (#[trigger] self.tag_lifetimes@[j]).tag != tag,
            decreases self.tag_lifetimes@.len() - i,
        {
            if self.tag_lifetimes[i].tag == tag {
                assert(first_tag_position(self.spec_tag_lifetimes(), tag, i as int));
                return Some(&self.tag_lifetimes[i]);
            }
            i = i + 1;
        }
        None
    }

    /// The allocation `tag` names at `time`, looked up in the first timeline of
    /// `tag`; a tag without a timeline is refused.
    pub fn lookup_allocation_for_tag(&self, tag: RenderFlowNameTag, time: RequestTime) -> (r: FrameResourceResult<
        Option<AllocationRequestId>,
    >)
        ensures
            (forall|i: int| 0 <= i < self.spec_tag_lifetimes().len() ==> (#[trigger] self.spec_tag_lifetimes()[i]).tag != tag)
                ==> r == Err::<Option<AllocationRequestId>, FrameResourceError>(
                FrameResourceError::InvalidOperation {
                    operation: "FrameLifetimeSolution::lookup_allocation_for_tag",
                    reason: "tag has no lifetime timeline",
                },
            ),
            forall|i: int| #[trigger]
                first_tag_position(self.spec_tag_lifetimes(), tag, i) ==> {
                    let events = self.spec_tag_lifetimes()[i].events@;
                    &&& r is Ok <==> events.len() > 0 && events[0].time.0 <= time.0
                    &&& r is Ok ==> exists|k: int|
                        #![trigger lookup_prefix(events, time.0, k)]
                        lookup_prefix(events, time.0, k) && k > 0 && r->Ok_0 == events[k - 1].allocation
                    &&& r is Err ==> r == Err::<Option<AllocationRequestId>, FrameResourceError>(
                        FrameResourceError::InvalidOperation {
                            operation: "TagLifetime::lookup",
                            reason: "lookup time precedes the tag lifetime timeline",
                        },
                    )
                },
    {
        match self.tag_lifetime(tag) {
            None => Err(
                FrameResourceError::InvalidOperation {
                    operation: "FrameLifetimeSolution::lookup_allocation_for_tag",
                    reason: "tag has no lifetime timeline",
                },
            ),
            Some(lifetime) => {
                let r = lifetime.lookup(time);
                proof {
                    assert forall|i: int| #[trigger]
                        first_tag_position(self.spec_tag_lifetimes(), tag, i) implies self.spec_tag_lifetimes()[i]
                        == *lifetime by {
                        let j = choose|j: int| #[trigger]
                            first_tag_position(self.spec_tag_lifetimes(), tag, j) && *lifetime
                                == self.spec_tag_lifetimes()[j];
                        if i < j {
                            assert(self.spec_tag_lifetimes()[i].tag != tag);
                        } else if j < i {
                            assert(self.spec_tag_lifetimes()[j].tag != tag);
                        }
                    }
                }
                r
            },
        }
    }
}

} // verus!
