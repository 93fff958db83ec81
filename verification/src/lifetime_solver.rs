//! Lifetime solving: walking the recorded request groups of a frame to find
//! which resource instances the frame needs, when each is alive, and which
//! instance each tag names over time.
//!
//! Every declaration starts a resource instance. Uses, frees and swaps widen
//! the time range of the instances they touch; queue boundaries and
//! synchronization widen every instance with an open use. Instances that were
//! never touched need no allocation.
use vstd::prelude::*;

use crate::error::{FrameResourceError, FrameResourceResult};
use crate::lifetime::{
    AllocationRequest, AllocationRequestSource, FrameLifetimeSolution, RequestRange, TagLifetime, TagLifetimeEvent,
    TagLifetimeEventKind,
};
use crate::request::{ExternalFrameResourceId, RequestGroup, ResourceRequest};
use crate::resource_desc::FrameResourceDesc;
use crate::tags::{AllocationRequestId, RenderFlowGroup, RenderFlowNameTag, RequestTime};
use crate::request::ImportedFrameResource;
use crate::usage::ResourceUsage;

verus! {

/// A resource instance during solving.
pub struct InstanceModel {
    pub original_tag: RenderFlowNameTag,
    pub desc: FrameResourceDesc,
    pub range: RequestRange,
    pub source: AllocationRequestSource,
    pub touched: bool,
    pub can_reuse_same_frame: bool,
    pub can_cache_across_frames: bool,
    pub open_uses: int,
}

/// A tag event during solving; `instance` is a position among the instances.
pub struct PendingEventModel {
    pub tag: RenderFlowNameTag,
    pub time: RequestTime,
    pub instance: Option<int>,
    pub kind: TagLifetimeEventKind,
}

/// The solving state: the instance each alive tag names, every instance and
/// every tag event so far.
pub struct SolverModel {
    pub current: Map<RenderFlowNameTag, int>,
    pub instances: Seq<InstanceModel>,
    pub events: Seq<PendingEventModel>,
}

pub open spec fn solver_error(operation: &'static str, reason: &'static str) -> FrameResourceError {
    FrameResourceError::InvalidOperation { operation, reason }
}

pub open spec fn not_alive_error() -> FrameResourceError {
    solver_error("LifetimeSolver::current_instance", "resource tag is not currently alive")
}

/// The state before any request.
pub open spec fn empty_solver() -> SolverModel {
    SolverModel { current: Map::empty(), instances: Seq::empty(), events: Seq::empty() }
}

/// Starting a new instance for `tag`.
pub open spec fn declare_step(
    m: SolverModel,
    tag: RenderFlowNameTag,
    desc: FrameResourceDesc,
    time: RequestTime,
    kind: TagLifetimeEventKind,
    source: AllocationRequestSource,
    starts_touched: bool,
) -> Result<SolverModel, FrameResourceError> {
    if tag.0 == 0 {
        Err(solver_error("LifetimeSolver::declare", "cannot declare an invalid resource tag"))
    } else if m.current.contains_key(tag) {
        Err(solver_error("LifetimeSolver::declare", "resource tag was declared while already alive"))
    } else if desc.validation() is Err {
        Err(desc.validation()->Err_0)
    } else {
        let owned = source == AllocationRequestSource::Owned;
        let id = m.instances.len() as int;
        Ok(
            SolverModel {
                current: m.current.insert(tag, id),
                instances: m.instances.push(
                    InstanceModel {
                        original_tag: tag,
                        desc,
                        range: RequestRange::point(time),
                        source,
                        touched: starts_touched,
                        can_reuse_same_frame: owned,
                        can_cache_across_frames: owned,
                        open_uses: 0,
                    },
                ),
                events: m.events.push(PendingEventModel { tag, time, instance: Some(id), kind }),
            },
        )
    }
}

/// The instance with its range widened to `time`, marked touched when
/// `touch`, its open uses changed by `delta`.
pub open spec fn adjusted(i: InstanceModel, time: RequestTime, touch: bool, delta: int) -> InstanceModel {
    InstanceModel {
        touched: i.touched || touch,
        range: i.range.extended_to(time),
        open_uses: i.open_uses + delta,
        ..i
    }
}

/// The instance touched at `time`, its open uses changed by `delta`.
pub open spec fn touched_at(i: InstanceModel, time: RequestTime, delta: int) -> InstanceModel {
    adjusted(i, time, true, delta)
}

/// The instance's range widened to `time`.
pub open spec fn widened_to(i: InstanceModel, time: RequestTime) -> InstanceModel {
    adjusted(i, time, false, 0)
}

/// Every instance with an open use touched at `time`.
pub open spec fn extend_open_uses(m: SolverModel, time: RequestTime) -> SolverModel {
    SolverModel {
        instances: Seq::new(
            m.instances.len(),
            |i: int|
                if m.instances[i].open_uses != 0 {
                    touched_at(m.instances[i], time, 0)
                } else {
                    m.instances[i]
                },
        ),
        ..m
    }
}

/// Handling one request at `time`.
pub open spec fn solver_step(m: SolverModel, time: RequestTime, request: ResourceRequest) -> Result<
    SolverModel,
    FrameResourceError,
> {
    match request {
        ResourceRequest::Declare { tag, desc } => declare_step(
            m,
            tag,
            desc,
            time,
            TagLifetimeEventKind::Declare,
            AllocationRequestSource::Owned,
            false,
        ),
        ResourceRequest::DeclareLike { dst, src } => if !m.current.contains_key(src) {
            Err(not_alive_error())
        } else {
            declare_step(
                m,
                dst,
                m.instances[m.current[src]].desc,
                time,
                TagLifetimeEventKind::DeclareLike,
                AllocationRequestSource::Owned,
                false,
            )
        },
        ResourceRequest::Import { tag, resource } => declare_step(
            m,
            tag,
            resource.spec_desc(),
            time,
            TagLifetimeEventKind::Import,
            AllocationRequestSource::Imported(resource.spec_external_id()),
            true,
        ),
        ResourceRequest::IsDeclared { .. } => Ok(m),
        ResourceRequest::Decision { .. } => Ok(m),
        ResourceRequest::UseBegin { tag, usage } => if usage@ & 3u8 == 0 {
            Err(solver_error("LifetimeSolver::use_begin", "resource use must specify read or write usage"))
        } else if !m.current.contains_key(tag) {
            Err(not_alive_error())
        } else {
            let id = m.current[tag];
            Ok(SolverModel { instances: m.instances.update(id, touched_at(m.instances[id], time, 1)), ..m })
        },
        ResourceRequest::UseEnd { tag } => if !m.current.contains_key(tag) {
            Err(not_alive_error())
        } else if m.instances[m.current[tag]].open_uses == 0 {
            Err(solver_error("LifetimeSolver::use_end", "resource use end had no matching use begin"))
        } else {
            let id = m.current[tag];
            Ok(SolverModel { instances: m.instances.update(id, touched_at(m.instances[id], time, -1)), ..m })
        },
        ResourceRequest::Free { tag } => if !m.current.contains_key(tag) {
            Err(not_alive_error())
        } else if m.instances[m.current[tag]].open_uses != 0 {
            Err(solver_error("LifetimeSolver::free", "cannot free a resource while it has an open use"))
        } else {
            let id = m.current[tag];
            Ok(
                SolverModel {
                    current: m.current.remove(tag),
                    instances: m.instances.update(id, widened_to(m.instances[id], time)),
                    events: m.events.push(
                        PendingEventModel { tag, time, instance: None, kind: TagLifetimeEventKind::Free },
                    ),
                },
            )
        },
        ResourceRequest::Swap { a, b } => if !m.current.contains_key(a) || !m.current.contains_key(b) {
            Err(not_alive_error())
        } else {
            let ia = m.current[a];
            let ib = m.current[b];
            if !m.instances[ia].desc.swap_compatible(&m.instances[ib].desc) {
                Err(solver_error("LifetimeSolver::swap", "swapped resources have incompatible descriptors"))
            } else if m.instances[ia].open_uses != 0 || m.instances[ib].open_uses != 0 {
                Err(solver_error("LifetimeSolver::swap", "cannot swap resources while either tag has an open use"))
            } else {
                let widened = m.instances.update(ia, widened_to(m.instances[ia], time));
                Ok(
                    SolverModel {
                        current: m.current.insert(a, ib).insert(b, ia),
                        instances: widened.update(ib, widened_to(widened[ib], time)),
                        events: m.events.push(
                            PendingEventModel { tag: a, time, instance: Some(ib), kind: TagLifetimeEventKind::Swap },
                        ).push(PendingEventModel { tag: b, time, instance: Some(ia), kind: TagLifetimeEventKind::Swap }),
                    },
                )
            }
        },
        ResourceRequest::SwapWithExternal { tag, resource } => if !m.current.contains_key(tag) {
            Err(not_alive_error())
        } else if m.instances[m.current[tag]].open_uses != 0 {
            Err(
                solver_error(
                    "LifetimeSolver::swap_with_external",
                    "cannot swap an external resource while the old tag has an open use",
                ),
            )
        } else if resource.spec_desc().validation() is Err {
            Err(resource.spec_desc().validation()->Err_0)
        } else {
            let old_id = m.current[tag];
            let old = m.instances[old_id];
            let id = m.instances.len() as int;
            Ok(
                SolverModel {
                    current: m.current.insert(tag, id),
                    instances: m.instances.update(
                        old_id,
                        InstanceModel {
                            range: old.range.extended_to(time),
                            can_reuse_same_frame: false,
                            can_cache_across_frames: false,
                            ..old
                        },
                    ).push(
                        InstanceModel {
                            original_tag: tag,
                            desc: resource.spec_desc(),
                            range: RequestRange::point(time),
                            source: AllocationRequestSource::ExternalSwap(resource.spec_external_id()),
                            touched: true,
                            can_reuse_same_frame: false,
                            can_cache_across_frames: false,
                            open_uses: 0,
                        },
                    ),
                    events: m.events.push(
                        PendingEventModel {
                            tag,
                            time,
                            instance: Some(id),
                            kind: TagLifetimeEventKind::SwapWithExternal,
                        },
                    ),
                },
            )
        },
        ResourceRequest::BeginQueue { .. } => Ok(extend_open_uses(m, time)),
        ResourceRequest::EndQueue => Ok(extend_open_uses(m, time)),
        ResourceRequest::QueueSync { .. } => Ok(extend_open_uses(m, time)),
    }
}

/// The state after every request of the first `g` groups.
pub open spec fn after_groups(groups: Seq<Seq<ResourceRequest>>, g: int) -> Result<SolverModel, FrameResourceError>
    decreases g, 0int,
{
    if g <= 0 {
        Ok(empty_solver())
    } else {
        after_requests(groups, g - 1, groups[g - 1].len() as int)
    }
}

/// The state after the first `r` requests of group `g`; a group index beyond
/// 16 bits or a request index beyond 32 bits is refused.
pub open spec fn after_requests(groups: Seq<Seq<ResourceRequest>>, g: int, r: int) -> Result<
    SolverModel,
    FrameResourceError,
>
    decreases g, (if r > 0 { r } else { 0 }) + 1,
{
    if g < 0 {
        Ok(empty_solver())
    } else if r <= 0 {
        match after_groups(groups, g) {
            Err(e) => Err(e),
            Ok(m) => if g > u16::MAX {
                Err(FrameResourceError::InvalidState { reason: "request group index exceeded u16 range" })
            } else {
                Ok(m)
            },
        }
    } else {
        match after_requests(groups, g, r - 1) {
            Err(e) => Err(e),
            Ok(m) => if r - 1 > u32::MAX {
                Err(FrameResourceError::InvalidState { reason: "request index exceeded u32 range" })
            } else {
                solver_step(m, RequestTime(#[verifier::truncate] ((g * 0x1_0000_0000 + (r - 1)) as u64)), groups[g][r - 1])
            },
        }
    }
}


/// A resource instance during solving.
struct SolverInstance {
    original_tag: RenderFlowNameTag,
    desc: FrameResourceDesc,
    range: RequestRange,
    source: AllocationRequestSource,
    touched: bool,
    can_reuse_same_frame: bool,
    can_cache_across_frames: bool,
    open_use_count: u32,
}

/// A tag event during solving.
#[derive(Clone, Copy)]
struct PendingTagEvent {
    tag: RenderFlowNameTag,
    time: RequestTime,
    instance: Option<usize>,
    kind: TagLifetimeEventKind,
}

spec fn instance_matches(e: SolverInstance, m: InstanceModel) -> bool {
    &&& e.original_tag == m.original_tag
    &&& e.desc.same_as(&m.desc)
    &&& e.range == m.range
    &&& e.source == m.source
    &&& e.touched == m.touched
    &&& e.can_reuse_same_frame == m.can_reuse_same_frame
    &&& e.can_cache_across_frames == m.can_cache_across_frames
    &&& e.open_use_count == m.open_uses
}

spec fn event_matches(e: PendingTagEvent, m: PendingEventModel) -> bool {
    &&& e.tag == m.tag
    &&& e.time == m.time
    &&& match e.instance {
        Some(i) => m.instance == Some(i as int),
        None => m.instance is None,
    }
    &&& e.kind == m.kind
}

/// Whether the association list `v` holds exactly the entries of `m`, each key once.
spec fn assoc_matches(v: Seq<(RenderFlowNameTag, usize)>, m: Map<RenderFlowNameTag, int>) -> bool {
    &&& forall|i: int, j: int| 0 <= i < j < v.len() ==> (#[trigger] v[i]).0 != (#[trigger] v[j]).0
    &&& forall|i: int| 0 <= i < v.len() ==> m.contains_key((#[trigger] v[i]).0) && m[v[i].0] == v[i].1 as int
    &&& forall|t: RenderFlowNameTag| #[trigger] m.contains_key(t) ==> exists|i: int| 0 <= i < v.len() && (#[trigger] v[i]).0 == t
}

/// What every solving state keeps: alive tags name existing instances, every
/// range is well formed and every descriptor passed validation.
pub open spec fn solver_state_ok(m: SolverModel) -> bool {
    &&& forall|t: RenderFlowNameTag| #[trigger] m.current.contains_key(t) ==> 0 <= m.current[t] < m.instances.len()
    &&& forall|i: int|
        0 <= i < m.instances.len() ==> (#[trigger] m.instances[i]).range.wf() && m.instances[i].desc.validation() is Ok
            && m.instances[i].open_uses >= 0
    &&& forall|i: int|
        0 <= i < m.events.len() ==> match (#[trigger] m.events[i]).instance {
            Some(x) => 0 <= x < m.instances.len(),
            None => true,
        }
}

struct LifetimeSolver {
    current: Vec<(RenderFlowNameTag, usize)>,
    instances: Vec<SolverInstance>,
    events: Vec<PendingTagEvent>,
}

impl LifetimeSolver {
    spec fn mirrors(&self, m: SolverModel) -> bool {
        &&& self.instances@.len() == m.instances.len()
        &&& forall|i: int| 0 <= i < m.instances.len() ==> instance_matches(#[trigger] self.instances@[i], m.instances[i])
        &&& self.events@.len() == m.events.len()
        &&& forall|i: int| 0 <= i < m.events.len() ==> event_matches(#[trigger] self.events@[i], m.events[i])
        &&& assoc_matches(self.current@, m.current)
    }

    spec fn matches(&self, m: SolverModel) -> bool {
        &&& self.mirrors(m)
        &&& solver_state_ok(m)
    }

    /// The position in `current` of `tag`.
    fn find_current(&self, tag: RenderFlowNameTag, Ghost(m): Ghost<SolverModel>) -> (r: Option<usize>)
        requires
            self.matches(m),
        ensures
            r is None <==> !m.current.contains_key(tag),
            r is Some ==> r->0 < self.current@.len() && self.current@[r->0 as int].0 == tag,
    {
        let mut i: usize = 0;
        while i < self.current.len()
            invariant
                i <= self.current@.len(),
                self.matches(m),
                forall|j: int| 0 <= j < i ==> (#[trigger] self.current@[j]).0 != tag,
            decreases self.current@.len() - i,
        {
            if self.current[i].0 == tag {
                return Some(i);
            }
            i = i + 1;
        }
        proof {
            if m.current.contains_key(tag) {
                let j = choose|j: int| 0 <= j < self.current@.len() && (#[trigger] self.current@[j]).0 == tag;
                assert(self.current@[j].0 != tag);
            }
        }
        None
    }

    /// The instance `tag` names; a tag that is not alive is refused.
    fn current_instance(&self, tag: RenderFlowNameTag, Ghost(m): Ghost<SolverModel>) -> (r: FrameResourceResult<usize>)
        requires
            self.matches(m),
        ensures
            r is Ok <==> m.current.contains_key(tag),
            r is Ok ==> r->Ok_0 == m.current[tag] && r->Ok_0 < m.instances.len(),
            r is Err ==> r->Err_0 == not_alive_error(),
    {
        match self.find_current(tag, Ghost(m)) {
            Some(i) => {
                assert(m.current[self.current@[i as int].0] == self.current@[i as int].1 as int);
                Ok(self.current[i].1)
            },
            None => Err(
                FrameResourceError::InvalidOperation {
                    operation: "LifetimeSolver::current_instance",
                    reason: "resource tag is not currently alive",
                },
            ),
        }
    }
}


fn find_in(current: &Vec<(RenderFlowNameTag, usize)>, tag: RenderFlowNameTag, Ghost(map): Ghost<Map<RenderFlowNameTag, int>>) -> (r: Option<usize>)
    requires
        assoc_matches(current@, map),
    ensures
        r is None <==> !map.contains_key(tag),
        r is Some ==> r->0 < current@.len() && current@[r->0 as int].0 == tag,
{
    let mut i: usize = 0;
    while i < current.len()
        invariant
            i <= current@.len(),
            assoc_matches(current@, map),
            forall|j: int| 0 <= j < i ==> (#[trigger] current@[j]).0 != tag,
        decreases current@.len() - i,
    {
        if current[i].0 == tag {
            return Some(i);
        }
        i = i + 1;
    }
    proof {
        if map.contains_key(tag) {
            let j = choose|j: int| 0 <= j < current@.len() && (#[trigger] current@[j]).0 == tag;
            assert(current@[j].0 != tag);
        }
    }
    None
}

impl LifetimeSolver {
    /// Makes `tag` name instance `id`.
    fn set_current(&mut self, tag: RenderFlowNameTag, id: usize, Ghost(m): Ghost<SolverModel>)
        requires
            old(self).mirrors(m),
        ensures
            final(self).mirrors(SolverModel { current: m.current.insert(tag, id as int), ..m }),
            final(self).instances@ == old(self).instances@,
            final(self).events@ == old(self).events@,
    {
        let ghost nm = m.current.insert(tag, id as int);
        match find_in(&self.current, tag, Ghost(m.current)) {
            Some(i) => {
                self.current.set(i, (tag, id));
                proof {
                    assert forall|t: RenderFlowNameTag| #[trigger] nm.contains_key(t) implies exists|k: int|
                        0 <= k < self.current@.len() && (#[trigger] self.current@[k]).0 == t by {
                        if t == tag {
                            assert(self.current@[i as int].0 == t);
                        } else {
                            let k = choose|k: int| 0 <= k < old(self).current@.len() && (#[trigger] old(self).current@[k]).0 == t;
                            assert(self.current@[k].0 == t);
                        }
                    }
                }
            },
            None => {
                self.current.push((tag, id));
                proof {
                    assert forall|t: RenderFlowNameTag| #[trigger] nm.contains_key(t) implies exists|k: int|
                        0 <= k < self.current@.len() && (#[trigger] self.current@[k]).0 == t by {
                        if t == tag {
                            assert(self.current@[self.current@.len() - 1].0 == t);
                        } else {
                            let k = choose|k: int| 0 <= k < old(self).current@.len() && (#[trigger] old(self).current@[k]).0 == t;
                            assert(self.current@[k].0 == t);
                        }
                    }
                }
            },
        }
    }

    /// Makes `tag` name nothing.
    fn remove_current(&mut self, tag: RenderFlowNameTag, Ghost(m): Ghost<SolverModel>)
        requires
            old(self).mirrors(m),
        ensures
            final(self).mirrors(SolverModel { current: m.current.remove(tag), ..m }),
            final(self).instances@ == old(self).instances@,
            final(self).events@ == old(self).events@,
    {
        let ghost nm = m.current.remove(tag);
        match find_in(&self.current, tag, Ghost(m.current)) {
            Some(i) => {
                let ghost before = self.current@;
                self.current.remove(i);
                proof {
                    assert forall|a: int, b: int| 0 <= a < b < self.current@.len() implies (#[trigger] self.current@[a]).0
                        != (#[trigger] self.current@[b]).0 by {
                        let a2 = if a < i { a } else { a + 1 };
                        let b2 = if b < i { b } else { b + 1 };
                        assert(self.current@[a] == before[a2]);
                        assert(self.current@[b] == before[b2]);
                    }
                    assert forall|a: int| 0 <= a < self.current@.len() implies nm.contains_key((#[trigger] self.current@[a]).0)
                        && nm[self.current@[a].0] == self.current@[a].1 as int by {
                        let a2 = if a < i { a } else { a + 1 };
                        assert(self.current@[a] == before[a2]);
                        assert(before[a2].0 != before[i as int].0);
                    }
                    assert forall|t: RenderFlowNameTag| #[trigger] nm.contains_key(t) implies exists|k: int|
                        0 <= k < self.current@.len() && (#[trigger] self.current@[k]).0 == t by {
                        let k = choose|k: int| 0 <= k < before.len() && (#[trigger] before[k]).0 == t;
                        assert(k != i);
                        let k2 = if k < i { k } else { k - 1 };
                        assert(self.current@[k2] == before[k]);
                    }
                }
            },
            None => {
                assert(nm =~= m.current);
            },
        }
    }

    /// Widens instance `id` to `time`, marks it touched when `touch`, and opens
    /// or closes one use.
    fn adjust_instance(
        &mut self,
        id: usize,
        time: RequestTime,
        touch: bool,
        open_up: bool,
        open_down: bool,
        Ghost(m): Ghost<SolverModel>,
    )
        requires
            old(self).mirrors(m),
            id < m.instances.len(),
            m.instances[id as int].range.wf(),
            !(open_up && open_down),
            open_up ==> m.instances[id as int].open_uses < u32::MAX,
            open_down ==> m.instances[id as int].open_uses > 0,
        ensures
            final(self).mirrors(
                SolverModel {
                    instances: m.instances.update(
                        id as int,
                        adjusted(
                            m.instances[id as int],
                            time,
                            touch,
                            if open_up { 1int } else if open_down { -1int } else { 0int },
                        ),
                    ),
                    ..m
                },
            ),
            final(self).current@ == old(self).current@,
            final(self).events@ == old(self).events@,
    {
        let ghost before = self.instances@;
        let mut inst = self.instances.remove(id);
        inst.range.extend_to(time);
        if touch {
            inst.touched = true;
        }
        if open_up {
            inst.open_use_count = inst.open_use_count + 1;
        } else if open_down {
            inst.open_use_count = inst.open_use_count - 1;
        }
        self.instances.insert(id, inst);
        proof {
            assert(self.instances@ =~= before.update(id as int, inst));
        }
    }
}


/// The result of a solver operation, against the model's.
pub open spec fn step_result_ok(r: FrameResourceResult<()>, step: Result<SolverModel, FrameResourceError>) -> bool {
    match step {
        Ok(_) => r is Ok,
        Err(e) => r == Err::<(), FrameResourceError>(e),
    }
}

impl LifetimeSolver {
    fn declare(
        &mut self,
        tag: RenderFlowNameTag,
        desc: FrameResourceDesc,
        Ghost(md): Ghost<FrameResourceDesc>,
        time: RequestTime,
        kind: TagLifetimeEventKind,
        source: AllocationRequestSource,
        starts_touched: bool,
        Ghost(m): Ghost<SolverModel>,
    ) -> (r: FrameResourceResult<()>)
        requires
            old(self).matches(m),
            desc.same_as(&md),
            m.instances.len() < usize::MAX,
        ensures
            step_result_ok(r, declare_step(m, tag, md, time, kind, source, starts_touched)),
            r is Ok ==> final(self).matches(declare_step(m, tag, md, time, kind, source, starts_touched)->Ok_0),
    {
        if !tag.is_valid() {
            return Err(
                FrameResourceError::InvalidOperation {
                    operation: "LifetimeSolver::declare",
                    reason: "cannot declare an invalid resource tag",
                },
            );
        }
        if self.find_current(tag, Ghost(m)).is_some() {
            return Err(
                FrameResourceError::InvalidOperation {
                    operation: "LifetimeSolver::declare",
                    reason: "resource tag was declared while already alive",
                },
            );
        }
        match desc.validate() {
            Ok(()) => {},
            Err(e) => return Err(e),
        }
        let id = self.instances.len();
        let owned = match source {
            AllocationRequestSource::Owned => true,
            _ => false,
        };
        let range = RequestRange::single(time);
        self.instances.push(
            SolverInstance {
                original_tag: tag,
                desc,
                range,
                source,
                touched: starts_touched,
                can_reuse_same_frame: owned,
                can_cache_across_frames: owned,
                open_use_count: 0,
            },
        );
        let ghost m2 = declare_step(m, tag, md, time, kind, source, starts_touched)->Ok_0;
        let ghost ma = SolverModel { instances: m2.instances, ..m };
        assert(self.mirrors(ma)) by {
            assert forall|i: int| 0 <= i < ma.instances.len() implies instance_matches(
                #[trigger] self.instances@[i],
                ma.instances[i],
            ) by {
                if i < m.instances.len() {
                    assert(self.instances@[i] == old(self).instances@[i]);
                }
            }
        }
        self.set_current(tag, id, Ghost(ma));
        let event = PendingTagEvent { tag, time, instance: Some(id), kind };
        self.events.push(event);
        proof {
            let mb = SolverModel { current: ma.current.insert(tag, id as int), ..ma };
            assert forall|i: int| 0 <= i < m2.events.len() implies event_matches(#[trigger] self.events@[i], m2.events[i]) by {
                if i < m.events.len() {
                    assert(self.events@[i] == old(self).events@[i]);
                }
            }
            range.lemma_point_and_extended(time);
            assert(self.mirrors(m2));
            assert forall|t: RenderFlowNameTag| #[trigger] m2.current.contains_key(t) implies 0 <= m2.current[t]
                < m2.instances.len() by {
                if t != tag {
                    assert(m.current.contains_key(t));
                }
            }
            assert(solver_state_ok(m2));
        }
        Ok(())
    }
}


/// Every instance can open one more use without overflow.
pub open spec fn open_uses_below_limit(m: SolverModel) -> bool {
    forall|i: int| 0 <= i < m.instances.len() ==> (#[trigger] m.instances[i]).open_uses < u32::MAX
}

impl LifetimeSolver {
    fn use_begin(&mut self, tag: RenderFlowNameTag, usage: ResourceUsage, time: RequestTime, Ghost(m): Ghost<SolverModel>) -> (r:
        FrameResourceResult<()>)
        requires
            old(self).matches(m),
            open_uses_below_limit(m),
        ensures
            step_result_ok(r, solver_step(m, time, ResourceRequest::UseBegin { tag, usage })),
            r is Ok ==> final(self).matches(solver_step(m, time, ResourceRequest::UseBegin { tag, usage })->Ok_0),
    {
        let read_write = ResourceUsage::read().union(ResourceUsage::write());
        assert(1u8 | 2u8 == 3u8) by (bit_vector);
        if !usage.intersects(read_write) {
            return Err(
                FrameResourceError::InvalidOperation {
                    operation: "LifetimeSolver::use_begin",
                    reason: "resource use must specify read or write usage",
                },
            );
        }
        let id = match self.current_instance(tag, Ghost(m)) {
            Ok(id) => id,
            Err(e) => return Err(e),
        };
        self.adjust_instance(id, time, true, true, false, Ghost(m));
        proof {
            let m2 = solver_step(m, time, ResourceRequest::UseBegin { tag, usage })->Ok_0;
            m.instances[id as int].range.lemma_point_and_extended(time);
            assert(solver_state_ok(m2));
        }
        Ok(())
    }

    fn use_end(&mut self, tag: RenderFlowNameTag, time: RequestTime, Ghost(m): Ghost<SolverModel>) -> (r: FrameResourceResult<()>)
        requires
            old(self).matches(m),
        ensures
            step_result_ok(r, solver_step(m, time, ResourceRequest::UseEnd { tag })),
            r is Ok ==> final(self).matches(solver_step(m, time, ResourceRequest::UseEnd { tag })->Ok_0),
    {
        let id = match self.current_instance(tag, Ghost(m)) {
            Ok(id) => id,
            Err(e) => return Err(e),
        };
        if self.instances[id].open_use_count == 0 {
            return Err(
                FrameResourceError::InvalidOperation {
                    operation: "LifetimeSolver::use_end",
                    reason: "resource use end had no matching use begin",
                },
            );
        }
        self.adjust_instance(id, time, true, false, true, Ghost(m));
        proof {
            let m2 = solver_step(m, time, ResourceRequest::UseEnd { tag })->Ok_0;
            m.instances[id as int].range.lemma_point_and_extended(time);
            assert(solver_state_ok(m2));
        }
        Ok(())
    }

    fn free(&mut self, tag: RenderFlowNameTag, time: RequestTime, Ghost(m): Ghost<SolverModel>) -> (r: FrameResourceResult<()>)
        requires
            old(self).matches(m),
        ensures
            step_result_ok(r, solver_step(m, time, ResourceRequest::Free { tag })),
            r is Ok ==> final(self).matches(solver_step(m, time, ResourceRequest::Free { tag })->Ok_0),
    {
        let id = match self.current_instance(tag, Ghost(m)) {
            Ok(id) => id,
            Err(e) => return Err(e),
        };
        if self.instances[id].open_use_count != 0 {
            return Err(
                FrameResourceError::InvalidOperation {
                    operation: "LifetimeSolver::free",
                    reason: "cannot free a resource while it has an open use",
                },
            );
        }
        self.adjust_instance(id, time, false, false, false, Ghost(m));
        let ghost ma = SolverModel { instances: m.instances.update(id as int, widened_to(m.instances[id as int], time)), ..m };
        self.remove_current(tag, Ghost(ma));
        let event = PendingTagEvent { tag, time, instance: None, kind: TagLifetimeEventKind::Free };
        let ghost before = self.events@;
        self.events.push(event);
        proof {
            let m2 = solver_step(m, time, ResourceRequest::Free { tag })->Ok_0;
            assert forall|i: int| 0 <= i < m2.events.len() implies event_matches(#[trigger] self.events@[i], m2.events[i]) by {
                if i < m.events.len() {
                    assert(self.events@[i] == before[i]);
                }
            }
            m.instances[id as int].range.lemma_point_and_extended(time);
            assert(self.mirrors(m2));
            assert forall|t: RenderFlowNameTag| #[trigger] m2.current.contains_key(t) implies 0 <= m2.current[t]
                < m2.instances.len() by {
                assert(m.current.contains_key(t));
            }
            assert(solver_state_ok(m2));
        }
        Ok(())
    }
}


impl LifetimeSolver {
    fn swap(&mut self, a: RenderFlowNameTag, b: RenderFlowNameTag, time: RequestTime, Ghost(m): Ghost<SolverModel>) -> (r:
        FrameResourceResult<()>)
        requires
            old(self).matches(m),
        ensures
            step_result_ok(r, solver_step(m, time, ResourceRequest::Swap { a, b })),
            r is Ok ==> final(self).matches(solver_step(m, time, ResourceRequest::Swap { a, b })->Ok_0),
    {
        let ia = match self.current_instance(a, Ghost(m)) {
            Ok(id) => id,
            Err(e) => return Err(e),
        };
        let ib = match self.current_instance(b, Ghost(m)) {
            Ok(id) => id,
            Err(e) => return Err(e),
        };
        if !self.instances[ia].desc.is_compatible_for_swap(&self.instances[ib].desc) {
            return Err(
                FrameResourceError::InvalidOperation {
                    operation: "LifetimeSolver::swap",
                    reason: "swapped resources have incompatible descriptors",
                },
            );
        }
        if self.instances[ia].open_use_count != 0 || self.instances[ib].open_use_count != 0 {
            return Err(
                FrameResourceError::InvalidOperation {
                    operation: "LifetimeSolver::swap",
                    reason: "cannot swap resources while either tag has an open use",
                },
            );
        }
        self.adjust_instance(ia, time, false, false, false, Ghost(m));
        let ghost widened = m.instances.update(ia as int, widened_to(m.instances[ia as int], time));
        let ghost m1 = SolverModel { instances: widened, ..m };
        proof {
            m.instances[ia as int].range.lemma_point_and_extended(time);
        }
        self.adjust_instance(ib, time, false, false, false, Ghost(m1));
        let ghost m2i = widened.update(ib as int, widened_to(widened[ib as int], time));
        let ghost m3 = SolverModel { instances: m2i, ..m };
        self.set_current(a, ib, Ghost(m3));
        let ghost m4 = SolverModel { current: m.current.insert(a, ib as int), ..m3 };
        self.set_current(b, ia, Ghost(m4));
        let ghost before = self.events@;
        self.events.push(PendingTagEvent { tag: a, time, instance: Some(ib), kind: TagLifetimeEventKind::Swap });
        self.events.push(PendingTagEvent { tag: b, time, instance: Some(ia), kind: TagLifetimeEventKind::Swap });
        proof {
            let m2 = solver_step(m, time, ResourceRequest::Swap { a, b })->Ok_0;
            assert forall|i: int| 0 <= i < m2.events.len() implies event_matches(#[trigger] self.events@[i], m2.events[i]) by {
                if i < m.events.len() {
                    assert(self.events@[i] == before[i]);
                }
            }
            widened[ib as int].range.lemma_point_and_extended(time);
            assert(self.mirrors(m2));
            assert forall|t: RenderFlowNameTag| #[trigger] m2.current.contains_key(t) implies 0 <= m2.current[t]
                < m2.instances.len() by {
                if t != a && t != b {
                    assert(m.current.contains_key(t));
                }
            }
            assert forall|i: int| 0 <= i < m2.instances.len() implies (#[trigger] m2.instances[i]).range.wf()
                && m2.instances[i].desc.validation() is Ok && m2.instances[i].open_uses >= 0 by {
                m.instances[i].range.lemma_point_and_extended(time);
                widened[i].range.lemma_point_and_extended(time);
            }
            assert(solver_state_ok(m2));
        }
        Ok(())
    }

    fn swap_with_external(
        &mut self,
        tag: RenderFlowNameTag,
        resource: &ImportedFrameResource,
        time: RequestTime,
        Ghost(m): Ghost<SolverModel>,
        Ghost(request): Ghost<ResourceRequest>,
    ) -> (r: FrameResourceResult<()>)
        requires
            old(self).matches(m),
            request == (ResourceRequest::SwapWithExternal { tag, resource: *resource }),
            m.instances.len() < usize::MAX,
        ensures
            step_result_ok(r, solver_step(m, time, request)),
            r is Ok ==> final(self).matches(solver_step(m, time, request)->Ok_0),
    {
        let old_id = match self.current_instance(tag, Ghost(m)) {
            Ok(id) => id,
            Err(e) => return Err(e),
        };
        if self.instances[old_id].open_use_count != 0 {
            return Err(
                FrameResourceError::InvalidOperation {
                    operation: "LifetimeSolver::swap_with_external",
                    reason: "cannot swap an external resource while the old tag has an open use",
                },
            );
        }
        let ghost before_instances = self.instances@;
        let mut old_instance = self.instances.remove(old_id);
        old_instance.range.extend_to(time);
        old_instance.can_reuse_same_frame = false;
        old_instance.can_cache_across_frames = false;
        self.instances.insert(old_id, old_instance);
        let external_desc = resource.desc().copy();
        match external_desc.validate() {
            Ok(()) => {},
            Err(e) => return Err(e),
        }
        let id = self.instances.len();
        let range = RequestRange::single(time);
        self.instances.push(
            SolverInstance {
                original_tag: tag,
                desc: external_desc,
                range,
                source: AllocationRequestSource::ExternalSwap(resource.external_id()),
                touched: true,
                can_reuse_same_frame: false,
                can_cache_across_frames: false,
                open_use_count: 0,
            },
        );
        let ghost m2 = solver_step(m, time, request)->Ok_0;
        let ghost ma = SolverModel { instances: m2.instances, ..m };
        proof {
            let old = m.instances[old_id as int];
            old.range.lemma_point_and_extended(time);
            range.lemma_point_and_extended(time);
            assert forall|i: int| 0 <= i < ma.instances.len() implies instance_matches(
                #[trigger] self.instances@[i],
                ma.instances[i],
            ) by {
                if i < m.instances.len() && i != old_id {
                    assert(self.instances@[i] == before_instances[i]);
                }
            }
            assert(self.mirrors(ma));
        }
        self.set_current(tag, id, Ghost(ma));
        let ghost before = self.events@;
        self.events.push(
            PendingTagEvent { tag, time, instance: Some(id), kind: TagLifetimeEventKind::SwapWithExternal },
        );
        proof {
            assert forall|i: int| 0 <= i < m2.events.len() implies event_matches(#[trigger] self.events@[i], m2.events[i]) by {
                if i < m.events.len() {
                    assert(self.events@[i] == before[i]);
                }
            }
            assert(self.mirrors(m2));
            assert forall|t: RenderFlowNameTag| #[trigger] m2.current.contains_key(t) implies 0 <= m2.current[t]
                < m2.instances.len() by {
                if t != tag {
                    assert(m.current.contains_key(t));
                }
            }
            assert forall|i: int| 0 <= i < m2.instances.len() implies (#[trigger] m2.instances[i]).range.wf()
                && m2.instances[i].desc.validation() is Ok && m2.instances[i].open_uses >= 0 by {
                if i < m.instances.len() {
                    m.instances[i].range.lemma_point_and_extended(time);
                }
            }
            assert(solver_state_ok(m2));
        }
        Ok(())
    }

    fn extend_open_uses(&mut self, time: RequestTime, Ghost(m): Ghost<SolverModel>)
        requires
            old(self).matches(m),
        ensures
            final(self).matches(extend_open_uses(m, time)),
    {
        let ghost target = extend_open_uses(m, time);
        let mut i: usize = 0;
        while i < self.instances.len()
            invariant
                i <= m.instances.len(),
                solver_state_ok(m),
                self.mirrors(
                    SolverModel {
                        instances: Seq::new(
                            m.instances.len(),
                            |k: int|
                                if k < i {
                                    target.instances[k]
                                } else {
                                    m.instances[k]
                                },
                        ),
                        ..m
                    },
                ),
                target == extend_open_uses(m, time),
            decreases m.instances.len() - i,
        {
            let ghost cur = SolverModel {
                instances: Seq::new(m.instances.len(), |k: int| if k < i { target.instances[k] } else { m.instances[k] }),
                ..m
            };
            if self.instances[i].open_use_count != 0 {
                self.adjust_instance(i, time, true, false, false, Ghost(cur));
            }
            proof {
                let next = SolverModel {
                    instances: Seq::new(
                        m.instances.len(),
                        |k: int| if k < i + 1 { target.instances[k] } else { m.instances[k] },
                    ),
                    ..m
                };
                if m.instances[i as int].open_uses != 0 {
                    assert(next.instances =~= cur.instances.update(i as int, adjusted(cur.instances[i as int], time, true, 0)));
                } else {
                    assert(next.instances =~= cur.instances);
                }
            }
            i = i + 1;
        }
        proof {
            let last = SolverModel {
                instances: Seq::new(m.instances.len(), |k: int| if k < i { target.instances[k] } else { m.instances[k] }),
                ..m
            };
            assert(last.instances =~= target.instances);
            assert forall|k: int| 0 <= k < target.instances.len() implies (#[trigger] target.instances[k]).range.wf()
                && target.instances[k].desc.validation() is Ok && target.instances[k].open_uses >= 0 by {
                m.instances[k].range.lemma_point_and_extended(time);
            }
            assert(solver_state_ok(target));
        }
    }
}


impl LifetimeSolver {
    fn handle_request(&mut self, time: RequestTime, request: &ResourceRequest, Ghost(m): Ghost<SolverModel>) -> (r:
        FrameResourceResult<()>)
        requires
            old(self).matches(m),
            open_uses_below_limit(m),
            m.instances.len() < usize::MAX,
        ensures
            step_result_ok(r, solver_step(m, time, *request)),
            r is Ok ==> final(self).matches(solver_step(m, time, *request)->Ok_0),
    {
        match request {
            ResourceRequest::Declare { tag, desc } => self.declare(
                *tag,
                desc.copy(),
                Ghost(*desc),
                time,
                TagLifetimeEventKind::Declare,
                AllocationRequestSource::Owned,
                false,
                Ghost(m),
            ),
            ResourceRequest::DeclareLike { dst, src } => {
                let source = match self.current_instance(*src, Ghost(m)) {
                    Ok(id) => id,
                    Err(e) => return Err(e),
                };
                let desc = self.instances[source].desc.copy();
                assert(instance_matches(self.instances@[source as int], m.instances[source as int]));
                self.declare(
                    *dst,
                    desc,
                    Ghost(m.instances[source as int].desc),
                    time,
                    TagLifetimeEventKind::DeclareLike,
                    AllocationRequestSource::Owned,
                    false,
                    Ghost(m),
                )
            },
            ResourceRequest::Import { tag, resource } => self.declare(
                *tag,
                resource.desc().copy(),
                Ghost(resource.spec_desc()),
                time,
                TagLifetimeEventKind::Import,
                AllocationRequestSource::Imported(resource.external_id()),
                true,
                Ghost(m),
            ),
            ResourceRequest::IsDeclared { .. } => Ok(()),
            ResourceRequest::Decision { .. } => Ok(()),
            ResourceRequest::UseBegin { tag, usage } => self.use_begin(*tag, *usage, time, Ghost(m)),
            ResourceRequest::UseEnd { tag } => self.use_end(*tag, time, Ghost(m)),
            ResourceRequest::Free { tag } => self.free(*tag, time, Ghost(m)),
            ResourceRequest::Swap { a, b } => self.swap(*a, *b, time, Ghost(m)),
            ResourceRequest::SwapWithExternal { tag, resource } => self.swap_with_external(
                *tag,
                resource,
                time,
                Ghost(m),
                Ghost(*request),
            ),
            ResourceRequest::BeginQueue { .. } => {
                self.extend_open_uses(time, Ghost(m));
                Ok(())
            },
            ResourceRequest::EndQueue => {
                self.extend_open_uses(time, Ghost(m));
                Ok(())
            },
            ResourceRequest::QueueSync { .. } => {
                self.extend_open_uses(time, Ghost(m));
                Ok(())
            },
        }
    }
}

proof fn lemma_request_error_persists(groups: Seq<Seq<ResourceRequest>>, g: int, r: int, r2: int)
    requires
        0 <= g,
        0 <= r <= r2,
        after_requests(groups, g, r) is Err,
    ensures
        after_requests(groups, g, r2) == after_requests(groups, g, r),
    decreases r2 - r,
{
    if r < r2 {
        lemma_request_error_persists(groups, g, r, r2 - 1);
    }
}

proof fn lemma_group_error_persists(groups: Seq<Seq<ResourceRequest>>, g: int, g2: int)
    requires
        0 <= g <= g2,
        after_groups(groups, g) is Err,
    ensures
        after_groups(groups, g2) == after_groups(groups, g),
    decreases g2 - g,
{
    if g < g2 {
        lemma_group_error_persists(groups, g, g2 - 1);
        assert(after_requests(groups, g2 - 1, 0) == after_groups(groups, g));
        lemma_request_error_persists(groups, g2 - 1, 0, groups[g2 - 1].len() as int);
    }
}

/// An error while walking group `g` is the error of the whole walk.
proof fn lemma_walk_error(groups: Seq<Seq<ResourceRequest>>, g: int, r: int)
    requires
        0 <= g < groups.len(),
        0 <= r <= groups[g].len(),
        after_requests(groups, g, r) is Err,
    ensures
        after_groups(groups, groups.len() as int) == after_requests(groups, g, r),
{
    lemma_request_error_persists(groups, g, r, groups[g].len() as int);
    lemma_group_error_persists(groups, g + 1, groups.len() as int);
}

/// The number of requests in the first `g` groups.
pub open spec fn requests_before(groups: Seq<Seq<ResourceRequest>>, g: int) -> int
    decreases g,
{
    if g <= 0 {
        0
    } else {
        requests_before(groups, g - 1) + groups[g - 1].len()
    }
}

pub(crate) proof fn lemma_requests_before_monotonic(groups: Seq<Seq<ResourceRequest>>, g: int, g2: int)
    requires
        0 <= g <= g2 <= groups.len(),
    ensures
        requests_before(groups, g) + (if g < g2 { groups[g].len() as int } else { 0 }) <= requests_before(groups, g2),
    decreases g2 - g,
{
    if g < g2 {
        lemma_requests_before_monotonic(groups, g, g2 - 1);
        if g < g2 - 1 {
            lemma_requests_before_monotonic(groups, g + 1, g2);
        }
    }
}


/// The number of touched instances among the first `n`.
pub open spec fn touched_count(instances: Seq<InstanceModel>, n: int) -> int
    decreases n,
{
    if n <= 0 {
        0
    } else {
        touched_count(instances, n - 1) + if instances[n - 1].touched {
            1int
        } else {
            0int
        }
    }
}

/// The allocation request an instance became: touched instances are numbered
/// in order; an untouched one needs no allocation.
pub open spec fn allocation_of(instances: Seq<InstanceModel>, instance: Option<int>) -> Option<AllocationRequestId> {
    match instance {
        Some(i) => if 0 <= i < instances.len() && instances[i].touched {
            Some(AllocationRequestId(touched_count(instances, i) as u32))
        } else {
            None
        },
        None => None,
    }
}

/// The timeline entry of a tag event.
pub open spec fn lifetime_event(instances: Seq<InstanceModel>, e: PendingEventModel) -> TagLifetimeEvent {
    TagLifetimeEvent { time: e.time, allocation: allocation_of(instances, e.instance), kind: e.kind }
}

/// The timeline of `tag`: its events, in the order they happened.
pub open spec fn tag_timeline(
    instances: Seq<InstanceModel>,
    events: Seq<PendingEventModel>,
    tag: RenderFlowNameTag,
) -> Seq<TagLifetimeEvent>
    decreases events.len(),
{
    if events.len() == 0 {
        Seq::empty()
    } else {
        let rest = tag_timeline(instances, events.drop_last(), tag);
        if events.last().tag == tag {
            rest.push(lifetime_event(instances, events.last()))
        } else {
            rest
        }
    }
}

/// Whether `q` is the allocation request of instance `inst`, numbered `index`.
pub open spec fn request_of(q: AllocationRequest, inst: InstanceModel, index: int) -> bool {
    &&& q.spec_id().0 == index
    &&& q.spec_tag() == inst.original_tag
    &&& q.spec_desc().same_as(&inst.desc)
    &&& q.spec_lifetime() == inst.range
    &&& q.spec_source() == inst.source
    &&& q.spec_can_reuse_same_frame() == inst.can_reuse_same_frame
    &&& q.spec_can_cache_across_frames() == inst.can_cache_across_frames
}

/// Whether `sol` is the solution of the final solving state `m`: one
/// allocation request per touched instance, in instance order, and one
/// timeline per tag, in tag order.
pub open spec fn is_solution_of(sol: FrameLifetimeSolution, m: SolverModel) -> bool {
    let reqs = sol.spec_requests();
    let lts = sol.spec_tag_lifetimes();
    &&& reqs.len() == touched_count(m.instances, m.instances.len() as int)
    &&& forall|i: int|
        0 <= i < m.instances.len() && (#[trigger] m.instances[i]).touched ==> request_of(
            reqs[touched_count(m.instances, i)],
            m.instances[i],
            touched_count(m.instances, i),
        )
    &&& forall|a: int, b: int| 0 <= a < b < lts.len() ==> (#[trigger] lts[a]).tag.0 < (#[trigger] lts[b]).tag.0
    &&& forall|l: int|
        0 <= l < lts.len() ==> (#[trigger] lts[l]).events@ == tag_timeline(m.instances, m.events, lts[l].tag)
            && lts[l].events@.len() > 0
    &&& forall|e: int|
        0 <= e < m.events.len() ==> exists|l: int| 0 <= l < lts.len() && (#[trigger] lts[l]).tag == (#[trigger] m.events[e]).tag
}

proof fn lemma_touched_count_range(instances: Seq<InstanceModel>, i: int)
    requires
        0 <= i,
    ensures
        0 <= touched_count(instances, i) <= i,
    decreases i,
{
    if i > 0 {
        lemma_touched_count_range(instances, i - 1);
    }
}

proof fn lemma_touched_count_bounds(instances: Seq<InstanceModel>, i: int, j: int)
    requires
        0 <= i <= j <= instances.len(),
    ensures
        0 <= touched_count(instances, i) <= i,
        touched_count(instances, i) <= touched_count(instances, j),
        i < j && instances[i].touched ==> touched_count(instances, i) < touched_count(instances, j),
    decreases j - i,
{
    lemma_touched_count_range(instances, i);
    if i < j {
        lemma_touched_count_bounds(instances, i, j - 1);
        if i < j - 1 {
            lemma_touched_count_bounds(instances, i + 1, j - 1);
        }
    }
}


impl LifetimeSolver {
    /// Numbers the touched instances as allocation requests and groups the tag
    /// events into one timeline per tag, in tag order.
    fn finish(&self, Ghost(m): Ghost<SolverModel>) -> (r: FrameLifetimeSolution)
        requires
            self.matches(m),
            m.instances.len() < u32::MAX,
        ensures
            is_solution_of(r, m),
    {
        let mut instance_to_allocation: Vec<Option<AllocationRequestId>> = Vec::new();
        let mut allocation_requests: Vec<AllocationRequest> = Vec::new();
        let mut i: usize = 0;
        while i < self.instances.len()
            invariant
                self.matches(m),
                m.instances.len() < u32::MAX,
                i <= m.instances.len(),
                allocation_requests@.len() == touched_count(m.instances, i as int),
                instance_to_allocation@.len() == i,
                forall|j: int| 0 <= j < i ==> #[trigger] instance_to_allocation@[j] == allocation_of(m.instances, Some(j)),
                forall|j: int|
                    0 <= j < i && (#[trigger] m.instances[j]).touched ==> request_of(
                        allocation_requests@[touched_count(m.instances, j)],
                        m.instances[j],
                        touched_count(m.instances, j),
                    ),
                forall|k: int|
                    0 <= k < allocation_requests@.len() ==> {
                        let q = #[trigger] allocation_requests@[k];
                        &&& q.spec_id().0 == k
                        &&& q.spec_lifetime().wf()
                        &&& q.spec_desc().validation() is Ok
                    },
            decreases m.instances.len() - i,
        {
            proof {
                lemma_touched_count_range(m.instances, i as int);
            }
            assert(instance_matches(self.instances@[i as int], m.instances[i as int]));
            if !self.instances[i].touched {
                instance_to_allocation.push(None);
            } else {
                let index = allocation_requests.len();
                let id = AllocationRequestId::new(index as u32);
                let instance = &self.instances[i];
                let request = AllocationRequest::from_parts(
                    id,
                    instance.original_tag,
                    instance.desc.copy(),
                    instance.range,
                    instance.source,
                    instance.can_reuse_same_frame,
                    instance.can_cache_across_frames,
                );
                instance_to_allocation.push(Some(id));
                allocation_requests.push(request);
                proof {
                    assert forall|j: int|
                        0 <= j < i && (#[trigger] m.instances[j]).touched implies request_of(
                        allocation_requests@[touched_count(m.instances, j)],
                        m.instances[j],
                        touched_count(m.instances, j),
                    ) by {
                        lemma_touched_count_bounds(m.instances, j, i as int);
                    }
                }
            }
            i = i + 1;
        }
        let mut tag_lifetimes: Vec<TagLifetime> = Vec::new();
        let mut k: usize = 0;
        while k < self.events.len()
            invariant
                self.matches(m),
                i == m.instances.len(),
                instance_to_allocation@.len() == m.instances.len(),
                forall|j: int| 0 <= j < i ==> #[trigger] instance_to_allocation@[j] == allocation_of(m.instances, Some(j)),
                k <= m.events.len(),
                forall|a: int, b: int|
                    0 <= a < b < tag_lifetimes@.len() ==> (#[trigger] tag_lifetimes@[a]).tag.0
                        < (#[trigger] tag_lifetimes@[b]).tag.0,
                forall|l: int|
                    0 <= l < tag_lifetimes@.len() ==> (#[trigger] tag_lifetimes@[l]).events@ == tag_timeline(
                        m.instances,
                        m.events.take(k as int),
                        tag_lifetimes@[l].tag,
                    ) && tag_lifetimes@[l].events@.len() > 0,
                forall|e: int|
                    0 <= e < k ==> exists|l: int|
                        0 <= l < tag_lifetimes@.len() && (#[trigger] tag_lifetimes@[l]).tag == (#[trigger] m.events[e]).tag,
            decreases m.events.len() - k,
        {
            let event = self.events[k];
            assert(event_matches(event, m.events[k as int]));
            let allocation = match event.instance {
                Some(x) => instance_to_allocation[x],
                None => None,
            };
            let entry = TagLifetimeEvent::new(event.time, allocation, event.kind);
            let ghost me = m.events[k as int];
            assert(entry == lifetime_event(m.instances, me));
            let ghost before = tag_lifetimes@;
            proof {
                assert(m.events.take(k + 1).drop_last() =~= m.events.take(k as int));
                assert(m.events.take(k + 1).last() == me);
            }
            let mut p: usize = 0;
            while p < tag_lifetimes.len() && tag_lifetimes[p].tag.0 < event.tag.0
                invariant
                    p <= tag_lifetimes@.len(),
                    forall|a: int| 0 <= a < p ==> (#[trigger] tag_lifetimes@[a]).tag.0 < event.tag.0,
                decreases tag_lifetimes@.len() - p,
            {
                p = p + 1;
            }
            if p < tag_lifetimes.len() && tag_lifetimes[p].tag == event.tag {
                let mut lifetime = tag_lifetimes.remove(p);
                lifetime.events.push(entry);
                tag_lifetimes.insert(p, lifetime);
                proof {
                    assert(tag_lifetimes@ =~= before.update(p as int, lifetime));
                    assert forall|l: int| 0 <= l < tag_lifetimes@.len() implies (#[trigger] tag_lifetimes@[l]).events@
                        == tag_timeline(m.instances, m.events.take(k + 1), tag_lifetimes@[l].tag)
                        && tag_lifetimes@[l].events@.len() > 0 by {
                        if l != p {
                            assert(before[l].tag != event.tag) by {
                                if l < p {
                                    assert(before[l].tag.0 < before[p as int].tag.0);
                                } else {
                                    assert(before[p as int].tag.0 < before[l].tag.0);
                                }
                            }
                        }
                    }
                    assert forall|e: int| 0 <= e < k + 1 implies exists|l: int|
                        0 <= l < tag_lifetimes@.len() && (#[trigger] tag_lifetimes@[l]).tag == (#[trigger] m.events[e]).tag by {
                        if e == k {
                            assert(tag_lifetimes@[p as int].tag == m.events[e].tag);
                        } else {
                            let l = choose|l: int| 0 <= l < before.len() && (#[trigger] before[l]).tag == m.events[e].tag;
                            assert(tag_lifetimes@[l].tag == m.events[e].tag);
                        }
                    }
                }
            } else {
                let mut events: Vec<TagLifetimeEvent> = Vec::new();
                events.push(entry);
                let lifetime = TagLifetime::new(event.tag, events);
                tag_lifetimes.insert(p, lifetime);
                proof {
                    assert(tag_timeline(m.instances, m.events.take(k as int), event.tag).len() == 0) by {
                        if tag_timeline(m.instances, m.events.take(k as int), event.tag).len() != 0 {
                            lemma_timeline_has_event(m.instances, m.events.take(k as int), event.tag);
                            let e = choose|e: int| 0 <= e < k && (#[trigger] m.events.take(k as int)[e]).tag == event.tag;
                            assert(m.events[e].tag == event.tag);
                            let l = choose|l: int| 0 <= l < before.len() && (#[trigger] before[l]).tag == m.events[e].tag;
                            if l < p {
                                assert(before[l].tag.0 < event.tag.0);
                            } else if l == p {
                            } else {
                                assert(before[p as int].tag.0 < before[l].tag.0);
                            }
                        }
                    }
                    assert(lifetime.events@ =~= seq![entry]);
                    assert forall|a: int, b: int|
                        0 <= a < b < tag_lifetimes@.len() implies (#[trigger] tag_lifetimes@[a]).tag.0
                        < (#[trigger] tag_lifetimes@[b]).tag.0 by {
                        if p < before.len() {
                            assert(before[p as int].tag.0 >= event.tag.0);
                            assert(before[p as int].tag != event.tag);
                        }
                        if a < p && b == p {
                        } else if a < p && b > p {
                            assert(tag_lifetimes@[b] == before[b - 1]);
                        } else if a == p && b > p {
                            assert(tag_lifetimes@[b] == before[b - 1]);
                            if b - 1 > p {
                                assert(before[p as int].tag.0 < before[b - 1].tag.0);
                            }
                        } else if a > p {
                            assert(tag_lifetimes@[a] == before[a - 1]);
                            assert(tag_lifetimes@[b] == before[b - 1]);
                        } else {
                            assert(tag_lifetimes@[a] == before[a]);
                            assert(tag_lifetimes@[b] == before[b]);
                        }
                    }
                    assert forall|l: int| 0 <= l < tag_lifetimes@.len() implies (#[trigger] tag_lifetimes@[l]).events@
                        == tag_timeline(m.instances, m.events.take(k + 1), tag_lifetimes@[l].tag)
                        && tag_lifetimes@[l].events@.len() > 0 by {
                        if l != p {
                            let l2 = if l < p { l } else { l - 1 };
                            assert(tag_lifetimes@[l] == before[l2]);
                            assert(before[l2].tag != event.tag) by {
                                if l2 < p {
                                    assert(before[l2].tag.0 < event.tag.0);
                                } else {
                                    assert(before[p as int].tag.0 >= event.tag.0);
                                    if l2 > p {
                                        assert(before[p as int].tag.0 < before[l2].tag.0);
                                    }
                                    assert(before[p as int].tag != event.tag);
                                }
                            }
                        }
                    }
                    assert forall|e: int| 0 <= e < k + 1 implies exists|l: int|
                        0 <= l < tag_lifetimes@.len() && (#[trigger] tag_lifetimes@[l]).tag == (#[trigger] m.events[e]).tag by {
                        if e == k {
                            assert(tag_lifetimes@[p as int].tag == m.events[e].tag);
                        } else {
                            let l = choose|l: int| 0 <= l < before.len() && (#[trigger] before[l]).tag == m.events[e].tag;
                            let l2 = if l < p { l } else { l + 1 };
                            assert(tag_lifetimes@[l2] == before[l]);
                        }
                    }
                }
            }
            k = k + 1;
        }
        proof {
            assert(m.events.take(k as int) =~= m.events);
            lemma_touched_count_range(m.instances, m.instances.len() as int);
        }
        FrameLifetimeSolution::from_parts(allocation_requests, tag_lifetimes)
    }
}

proof fn lemma_timeline_has_event(
    instances: Seq<InstanceModel>,
    events: Seq<PendingEventModel>,
    tag: RenderFlowNameTag,
)
    requires
        tag_timeline(instances, events, tag).len() > 0,
    ensures
        exists|e: int| 0 <= e < events.len() && (#[trigger] events[e]).tag == tag,
    decreases events.len(),
{
    if events.last().tag != tag {
        lemma_timeline_has_event(instances, events.drop_last(), tag);
        let e = choose|e: int| 0 <= e < events.drop_last().len() && (#[trigger] events.drop_last()[e]).tag == tag;
        assert(events[e].tag == tag);
    } else {
        assert(events[events.len() - 1].tag == tag);
    }
}


/// Every instance has at most `s` open uses, and there are at most `s` instances.
pub open spec fn solver_within(m: SolverModel, s: int) -> bool {
    &&& m.instances.len() <= s
    &&& forall|i: int| 0 <= i < m.instances.len() ==> (#[trigger] m.instances[i]).open_uses <= s
}

proof fn lemma_step_growth(m: SolverModel, time: RequestTime, request: ResourceRequest, s: int)
    requires
        solver_within(m, s),
        solver_state_ok(m),
        solver_step(m, time, request) is Ok,
    ensures
        solver_within(solver_step(m, time, request)->Ok_0, s + 1),
{
    let m2 = solver_step(m, time, request)->Ok_0;
    assert(m2.instances.len() <= m.instances.len() + 1);
    assert forall|i: int| 0 <= i < m2.instances.len() implies (#[trigger] m2.instances[i]).open_uses <= s + 1 by {
        if i < m.instances.len() {
            assert(m.instances[i].open_uses <= s);
            match request {
                ResourceRequest::Swap { a, b } => {
                    let ia = m.current[a];
                    let ib = m.current[b];
                    let widened = m.instances.update(ia, widened_to(m.instances[ia], time));
                    assert(widened[i].open_uses <= s);
                },
                _ => {},
            }
        }
    }
}

/// The request sequences of the groups, in order.
pub open spec fn group_requests(groups: Seq<RequestGroup>) -> Seq<Seq<ResourceRequest>> {
    groups.map_values(|g: RequestGroup| g.spec_requests())
}

/// The error of an instance whose uses were not all ended.
pub open spec fn unbalanced_use_error() -> FrameResourceError {
    FrameResourceError::InvalidState { reason: "resource use begin was not balanced by use end" }
}

/// Whether `r` is the outcome of solving `groups`: the error of the walk, the
/// unbalanced-use error, or a solution of the walk's final state.
pub open spec fn solved_as(r: FrameResourceResult<FrameLifetimeSolution>, groups: Seq<RequestGroup>) -> bool {
    let walk = after_groups(group_requests(groups), groups.len() as int);
    &&& walk is Err ==> r == Err::<FrameLifetimeSolution, FrameResourceError>(walk->Err_0)
    &&& walk is Ok && (exists|i: int|
        0 <= i < walk->Ok_0.instances.len() && (#[trigger] walk->Ok_0.instances[i]).open_uses != 0) ==> r == Err::<
        FrameLifetimeSolution,
        FrameResourceError,
    >(unbalanced_use_error())
    &&& r is Ok <==> walk is Ok && forall|i: int|
        0 <= i < walk->Ok_0.instances.len() ==> (#[trigger] walk->Ok_0.instances[i]).open_uses == 0
    &&& r is Ok ==> is_solution_of(r->Ok_0, walk->Ok_0)
}

impl FrameLifetimeSolution {
    /// Solves the request groups of a frame, in order: request `r` of group
    /// `g` happens at time `(g, r)`. The walk fails on the first refused
    /// request, or when a use is still open at the end.
    pub fn solve_request_groups(request_groups: &[RequestGroup]) -> (r: FrameResourceResult<FrameLifetimeSolution>)
        requires
            requests_before(group_requests(request_groups@), request_groups@.len() as int) < u32::MAX,
        ensures
            solved_as(r, request_groups@),
            r is Ok ==> r->Ok_0.spec_requests().len() <= requests_before(
                group_requests(request_groups@),
                request_groups@.len() as int,
            ),
    {
        let ghost groups = group_requests(request_groups@);
        let ghost n = request_groups@.len() as int;
        let mut solver = LifetimeSolver { current: Vec::new(), instances: Vec::new(), events: Vec::new() };
        proof {
            assert(solver.current@ =~= Seq::<(RenderFlowNameTag, usize)>::empty());
            assert(solver.mirrors(empty_solver()));
        }
        let mut g: usize = 0;
        while g < request_groups.len()
            invariant
                g <= n,
                n == request_groups@.len(),
                groups == group_requests(request_groups@),
                requests_before(groups, n) < u32::MAX,
                after_groups(groups, g as int) is Ok,
                solver.matches(after_groups(groups, g as int)->Ok_0),
                solver_within(after_groups(groups, g as int)->Ok_0, requests_before(groups, g as int)),
            decreases n - g,
        {
            if g > 0xffff {
                proof {
                    lemma_walk_error(groups, g as int, 0);
                }
                return Err(FrameResourceError::InvalidState { reason: "request group index exceeded u16 range" });
            }
            let flow_group = RenderFlowGroup::new(g as u16);
            let requests = request_groups[g].requests();
            assert(requests@ == groups[g as int]);
            proof {
                lemma_requests_before_monotonic(groups, g as int, n);
                lemma_requests_before_monotonic(groups, 0, g as int);
            }
            let mut r: usize = 0;
            while r < requests.len()
                invariant
                    g < n,
                    g <= 0xffff,
                    flow_group.0 == g,
                    n == request_groups@.len(),
                    groups == group_requests(request_groups@),
                    requests@ == groups[g as int],
                    r <= requests@.len(),
                    requests_before(groups, g as int) + requests@.len() <= requests_before(groups, n),
                    requests_before(groups, g as int) >= 0,
                    requests_before(groups, n) < u32::MAX,
                    after_requests(groups, g as int, r as int) is Ok,
                    solver.matches(after_requests(groups, g as int, r as int)->Ok_0),
                    solver_within(after_requests(groups, g as int, r as int)->Ok_0, requests_before(groups, g as int) + r),
                decreases requests@.len() - r,
            {
                let ghost m = after_requests(groups, g as int, r as int)->Ok_0;
                let time = RequestTime::new(flow_group, r as u32);
                assert(0 <= (g as int) * 0x1_0000_0000 + r <= u64::MAX);
                assert(time == RequestTime(((g as int) * 0x1_0000_0000 + r) as u64));
                assert(open_uses_below_limit(m)) by {
                    assert forall|i: int| 0 <= i < m.instances.len() implies (#[trigger] m.instances[i]).open_uses < u32::MAX by {
                        assert(m.instances[i].open_uses <= requests_before(groups, g as int) + r);
                    }
                }
                match solver.handle_request(time, &requests[r], Ghost(m)) {
                    Ok(()) => {},
                    Err(e) => {
                        proof {
                            lemma_walk_error(groups, g as int, r + 1);
                        }
                        return Err(e);
                    },
                }
                proof {
                    lemma_step_growth(m, time, requests@[r as int], requests_before(groups, g as int) + r);
                }
                r = r + 1;
            }
            g = g + 1;
        }
        let ghost m = after_groups(groups, n)->Ok_0;
        assert(m.instances.len() <= requests_before(groups, n));
        let mut i: usize = 0;
        while i < solver.instances.len()
            invariant
                solver.matches(m),
                n == request_groups@.len(),
                groups == group_requests(request_groups@),
                after_groups(groups, n) is Ok,
                m == after_groups(groups, n)->Ok_0,
                m.instances.len() < u32::MAX,
                m.instances.len() <= requests_before(groups, n),
                m.instances.len() <= requests_before(groups, n),
                i <= m.instances.len(),
                forall|j: int| 0 <= j < i ==> (#[trigger] m.instances[j]).open_uses == 0,
            decreases m.instances.len() - i,
        {
            assert(instance_matches(solver.instances@[i as int], m.instances[i as int]));
            if solver.instances[i].open_use_count != 0 {
                return Err(FrameResourceError::InvalidState { reason: "resource use begin was not balanced by use end" });
            }
            i = i + 1;
        }
        proof {
            lemma_touched_count_range(m.instances, m.instances.len() as int);
        }
        Ok(solver.finish(Ghost(m)))
    }
}

} // verus!
