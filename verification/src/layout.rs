use vstd::prelude::*;
use std::collections::HashMap;
use crate::component::ErasedComponent;
use crate::dom::Dom;
use crate::geometry::{larger, saturate, Alignment, Constraints, Vec2, UNBOUNDED};
use crate::index::Index;
use crate::widgets::Direction;

verus! {

/// The geometry of one node in one frame: its size, and its position
/// relative to the origin of its parent.
#[derive(Clone, Copy, Debug, PartialEq, Eq, Structural)]
pub struct LayoutNode {
    pub size: Vec2,
    pub pos: Vec2,
}

/// The geometry of one frame: for each node that has been measured, the size
/// it committed to and the position its parent gave it.
pub struct LayoutDom {
    nodes: HashMap<u64, LayoutNode>,
}

impl View for LayoutDom {
    type V = Map<Index, LayoutNode>;

    closed spec fn view(&self) -> Map<Index, LayoutNode> {
        Map::new(|i: Index| self.nodes@.contains_key(i.bits), |i: Index| self.nodes@[i.bits])
    }
}

/// The children of a live node; a stale key has none.
pub open spec fn children_of(dom: &Dom, index: Index) -> Seq<Index> {
    if dom@.contains(index) {
        dom@.nodes[index].children
    } else {
        Seq::empty()
    }
}

/// The measure of the node that a component was made for.
pub open spec fn widget_rank(dom: &Dom, widget: ErasedComponent) -> nat {
    match widget.spec_index() {
        Some(i) => dom.rank(i),
        None => 0,
    }
}

/// The geometry after `index` was given the position `pos`. A node that has
/// not been measured has no entry, and gets none.
pub open spec fn positioned(cache: Map<Index, LayoutNode>, index: Index, pos: Vec2) -> Map<
    Index,
    LayoutNode,
> {
    if cache.contains_key(index) {
        cache.insert(index, LayoutNode { size: cache[index].size, pos })
    } else {
        cache
    }
}

/// The space that is left on an axis bounded by `limit` once `used` of it is
/// taken; of an axis without bound, all of it.
pub open spec fn remaining(limit: i32, used: i32) -> i32 {
    if limit == UNBOUNDED {
        UNBOUNDED
    } else {
        larger(saturate(limit - used), 0)
    }
}

/// The constraints that a list hands the next child: across its direction
/// its own, along it nothing asked and the space that is left allowed.
pub open spec fn child_constraints(dir: Direction, c: Constraints, used: i32) -> Constraints {
    Constraints {
        min: dir.spec_compose(0, dir.spec_cross(c.min)),
        max: dir.spec_compose(remaining(dir.spec_main(c.max), used), dir.spec_cross(c.max)),
    }
}

/// A child lies one step below its parent, so its measure is smaller.
pub proof fn lemma_child_rank(dom: &Dom, index: Index, k: int)
    requires
        dom.wf(),
        0 <= k < children_of(dom, index).len(),
    ensures
        dom@.contains(children_of(dom, index)[k]),
        dom.rank(children_of(dom, index)[k]) < dom.rank(index),
{
    assert(dom@.node_wf(index));
    assert(dom@.links(index, dom@.nodes[index].children[k]));
}

/// The geometry and the size that `calculate` leaves for the node `index`
/// under the constraints `c`: the size already in the geometry if there is
/// one; else the size that the node's component commits to, which is then
/// kept. A stale key has no extent.
pub open spec fn calculated(
    dom: &Dom,
    cache: Map<Index, LayoutNode>,
    index: Index,
    c: Constraints,
) -> (Map<Index, LayoutNode>, Vec2)
    decreases dom.rank(index), 2nat, 0nat,
    when dom.wf()
{
    if cache.contains_key(index) {
        (cache, cache[index].size)
    } else if !dom@.nodes.contains_key(index) {
        (cache, Vec2::spec_zero())
    } else {
        let (after, size) = measured(dom, dom@.nodes[index].widget, cache, c);
        (after.insert(index, LayoutNode { size, pos: Vec2::spec_zero() }), size)
    }
}

/// The geometry that a component leaves and the size it commits to.
pub open spec fn measured(
    dom: &Dom,
    widget: ErasedComponent,
    cache: Map<Index, LayoutNode>,
    c: Constraints,
) -> (Map<Index, LayoutNode>, Vec2)
    decreases widget_rank(dom, widget), 1nat, 0nat,
    when dom.wf()
{
    match widget {
        ErasedComponent::Dummy(_) => (cache, c.spec_constrain(Vec2::spec_zero())),
        ErasedComponent::FixedSizeBox(b) => (cache, c.spec_constrain(b.size)),
        ErasedComponent::List(l) => stacked(dom, l.index, l.props.direction, cache, c, 0, 0, 0),
        ErasedComponent::Align(a) => (aligned(dom, a.index, a.props.alignment, cache, c, 0), c.max),
    }
}

/// A list's children from the `k`-th on, measured and placed one after the
/// other: `used` is the extent along the direction that the children before
/// took, `cross` the largest extent across it. Each child is measured in the
/// space that is left and placed where the one before ended. The list's size
/// is what all children took, brought inside the list's own constraints.
pub open spec fn stacked(
    dom: &Dom,
    index: Index,
    dir: Direction,
    cache: Map<Index, LayoutNode>,
    c: Constraints,
    k: int,
    used: i32,
    cross: i32,
) -> (Map<Index, LayoutNode>, Vec2)
    decreases dom.rank(index), 0nat, (children_of(dom, index).len() - k) as nat,
    when dom.wf() && 0 <= k
{
    let children = children_of(dom, index);
    if k >= children.len() {
        (cache, c.spec_constrain(dir.spec_compose(used, cross)))
    } else {
        proof {
            lemma_child_rank(dom, index, k);
        }
        let (after, size) = calculated(dom, cache, children[k], child_constraints(dir, c, used));
        stacked(
            dom,
            index,
            dir,
            positioned(after, children[k], dir.spec_compose(used, 0)),
            c,
            k + 1,
            saturate(used + dir.spec_main(size)),
            larger(cross, dir.spec_cross(size)),
        )
    }
}

/// The children of an aligning node from the `k`-th on, each measured under
/// the node's own constraints and anchored inside the space that the node
/// takes, which is all that it is allowed.
pub open spec fn aligned(
    dom: &Dom,
    index: Index,
    alignment: Alignment,
    cache: Map<Index, LayoutNode>,
    c: Constraints,
    k: int,
) -> Map<Index, LayoutNode>
    decreases dom.rank(index), 0nat, (children_of(dom, index).len() - k) as nat,
    when dom.wf() && 0 <= k
{
    let children = children_of(dom, index);
    if k >= children.len() {
        cache
    } else {
        proof {
            lemma_child_rank(dom, index, k);
        }
        let (after, size) = calculated(dom, cache, children[k], c);
        aligned(
            dom,
            index,
            alignment,
            positioned(after, children[k], alignment.spec_place(c.max, size)),
            c,
            k + 1,
        )
    }
}

/// Every node that has a size in `before` has the same size in `after`.
pub open spec fn keeps(before: Map<Index, LayoutNode>, after: Map<Index, LayoutNode>) -> bool {
    forall|j: Index| #[trigger]
        before.contains_key(j) ==> after.contains_key(j) && after[j].size == before[j].size
}

/// Within a frame a size, once computed, stays: measuring any node under
/// any constraints keeps the size of every node measured before. And a live
/// node that is measured has, from then on, the size that was returned.
pub proof fn lemma_calculated_keeps(
    dom: &Dom,
    cache: Map<Index, LayoutNode>,
    index: Index,
    c: Constraints,
)
    requires
        dom.wf(),
    ensures
        keeps(cache, calculated(dom, cache, index, c).0),
        dom@.contains(index) || cache.contains_key(index) ==> calculated(
            dom,
            cache,
            index,
            c,
        ).0.contains_key(index) && calculated(dom, cache, index, c).0[index].size == calculated(
            dom,
            cache,
            index,
            c,
        ).1,
    decreases dom.rank(index), 2nat, 0nat,
{
    if !cache.contains_key(index) && dom@.nodes.contains_key(index) {
        assert(dom@.node_wf(index));
        lemma_measured_keeps(dom, dom@.nodes[index].widget, cache, c);
    }
}

/// A component that lays itself out keeps every size computed before.
pub proof fn lemma_measured_keeps(
    dom: &Dom,
    widget: ErasedComponent,
    cache: Map<Index, LayoutNode>,
    c: Constraints,
)
    requires
        dom.wf(),
    ensures
        keeps(cache, measured(dom, widget, cache, c).0),
    decreases widget_rank(dom, widget), 1nat, 0nat,
{
    match widget {
        ErasedComponent::List(l) => lemma_stacked_keeps(
            dom,
            l.index,
            l.props.direction,
            cache,
            c,
            0,
            0,
            0,
        ),
        ErasedComponent::Align(a) => lemma_aligned_keeps(
            dom,
            a.index,
            a.props.alignment,
            cache,
            c,
            0,
        ),
        _ => {},
    }
}

/// A list that lays its children out keeps every size computed before.
pub proof fn lemma_stacked_keeps(
    dom: &Dom,
    index: Index,
    dir: Direction,
    cache: Map<Index, LayoutNode>,
    c: Constraints,
    k: int,
    used: i32,
    cross: i32,
)
    requires
        dom.wf(),
        0 <= k,
    ensures
        keeps(cache, stacked(dom, index, dir, cache, c, k, used, cross).0),
    decreases dom.rank(index), 0nat, (children_of(dom, index).len() - k) as nat,
{
    let children = children_of(dom, index);
    if k < children.len() {
        lemma_child_rank(dom, index, k);
        let inner = child_constraints(dir, c, used);
        let (after, size) = calculated(dom, cache, children[k], inner);
        lemma_calculated_keeps(dom, cache, children[k], inner);
        let placed = positioned(after, children[k], dir.spec_compose(used, 0));
        lemma_stacked_keeps(
            dom,
            index,
            dir,
            placed,
            c,
            k + 1,
            saturate(used + dir.spec_main(size)),
            larger(cross, dir.spec_cross(size)),
        );
        let last = stacked(dom, index, dir, cache, c, k, used, cross).0;
        assert forall|j: Index| #[trigger] cache.contains_key(j) implies last.contains_key(j)
            && last[j].size == cache[j].size by {
            assert(after.contains_key(j));
            assert(placed.contains_key(j));
        }
    }
}

/// An aligning node that lays its children out keeps every size computed
/// before.
pub proof fn lemma_aligned_keeps(
    dom: &Dom,
    index: Index,
    alignment: Alignment,
    cache: Map<Index, LayoutNode>,
    c: Constraints,
    k: int,
)
    requires
        dom.wf(),
        0 <= k,
    ensures
        keeps(cache, aligned(dom, index, alignment, cache, c, k)),
    decreases dom.rank(index), 0nat, (children_of(dom, index).len() - k) as nat,
{
    let children = children_of(dom, index);
    if k < children.len() {
        lemma_child_rank(dom, index, k);
        let (after, size) = calculated(dom, cache, children[k], c);
        lemma_calculated_keeps(dom, cache, children[k], c);
        let placed = positioned(after, children[k], alignment.spec_place(c.max, size));
        lemma_aligned_keeps(dom, index, alignment, placed, c, k + 1);
        let last = aligned(dom, index, alignment, cache, c, k);
        assert forall|j: Index| #[trigger] cache.contains_key(j) implies last.contains_key(j)
            && last[j].size == cache[j].size by {
            assert(after.contains_key(j));
            assert(placed.contains_key(j));
        }
    }
}

/// A node is measured at most once in a frame: asking for its size again,
/// under whatever constraints, returns the size of the first time and
/// changes nothing.
pub proof fn lemma_measured_once(
    dom: &Dom,
    cache: Map<Index, LayoutNode>,
    index: Index,
    first: Constraints,
    second: Constraints,
)
    requires
        dom.wf(),
    ensures
        calculated(dom, calculated(dom, cache, index, first).0, index, second) == calculated(
            dom,
            cache,
            index,
            first,
        ),
{
    lemma_calculated_keeps(dom, cache, index, first);
}

/// The size of a list lies inside the list's constraints, whatever its
/// children took.
pub proof fn lemma_stacked_admitted(
    dom: &Dom,
    index: Index,
    dir: Direction,
    cache: Map<Index, LayoutNode>,
    c: Constraints,
    k: int,
    used: i32,
    cross: i32,
)
    requires
        dom.wf(),
        0 <= k,
        c.is_valid(),
    ensures
        c.admits(stacked(dom, index, dir, cache, c, k, used, cross).1),
    decreases children_of(dom, index).len() - k,
{
    let children = children_of(dom, index);
    if k < children.len() {
        let (after, size) = calculated(dom, cache, children[k], child_constraints(dir, c, used));
        lemma_stacked_admitted(
            dom,
            index,
            dir,
            positioned(after, children[k], dir.spec_compose(used, 0)),
            c,
            k + 1,
            saturate(used + dir.spec_main(size)),
            larger(cross, dir.spec_cross(size)),
        );
    }
}

/// The size that a node commits to when it is measured lies inside the
/// constraints it was measured under, on both axes.
pub proof fn lemma_calculated_admitted(
    dom: &Dom,
    cache: Map<Index, LayoutNode>,
    index: Index,
    c: Constraints,
)
    requires
        dom.wf(),
        dom@.contains(index),
        !cache.contains_key(index),
        c.is_valid(),
        c.spec_is_bounded(),
    ensures
        c.admits(calculated(dom, cache, index, c).1),
{
    match dom@.nodes[index].widget {
        ErasedComponent::List(l) => {
            lemma_stacked_admitted(dom, l.index, l.props.direction, cache, c, 0, 0, 0);
        },
        _ => {},
    }
}

impl LayoutDom {
    /// The geometry of a frame in which nothing has been measured yet.
    pub fn new() -> (r: LayoutDom)
        ensures
            r@ == Map::<Index, LayoutNode>::empty(),
    {
        let r = LayoutDom { nodes: HashMap::new() };
        assert(r@ =~= Map::<Index, LayoutNode>::empty());
        r
    }

    /// Forgets the geometry of the frame before: no geometry outlives a frame.
    pub fn clear(&mut self)
        ensures
            final(self)@ == Map::<Index, LayoutNode>::empty(),
    {
        self.nodes.clear();
        assert(self@ =~= Map::<Index, LayoutNode>::empty());
    }

    /// The geometry of `index`, if the node has been measured in this frame.
    pub fn get(&self, index: Index) -> (r: Option<LayoutNode>)
        ensures
            r == (if self@.contains_key(index) {
                Some(self@[index])
            } else {
                None
            }),
    {
        match self.nodes.get(&index.bits) {
            Some(entry) => Some(*entry),
            None => None,
        }
    }

    /// Records the position of `index` relative to the origin of its parent.
    /// The parent calls this while it lays itself out, after it has measured
    /// the child; for a node that has not been measured nothing is recorded.
    pub fn set_pos(&mut self, index: Index, pos: Vec2)
        ensures
            final(self)@ == positioned(old(self)@, index, pos),
    {
        let size = match self.nodes.get(&index.bits) {
            Some(entry) => Some(entry.size),
            None => None,
        };
        match size {
            Some(size) => {
                self.nodes.insert(index.bits, LayoutNode { size, pos });
            },
            None => {},
        }
        assert(self@ =~= positioned(old(self)@, index, pos));
    }

    /// The size of the node `index` under `constraints`. A node that has been
    /// measured in this frame is not measured again: the size it committed to
    /// is returned and nothing changes. Any other live node is measured by its
    /// component, which may measure and place its own children, and the size
    /// is kept for the rest of the frame. Under constraints that are valid and
    /// bounded, the size of a node measured now lies inside them.
    pub fn calculate(&mut self, dom: &Dom, index: Index, constraints: Constraints) -> (r: Vec2)
        requires
            dom.wf(),
        ensures
            (final(self)@, r) == calculated(dom, old(self)@, index, constraints),
            old(self)@.contains_key(index) ==> r == old(self)@[index].size && final(self)@ == old(
                self,
            )@,
            !old(self)@.contains_key(index) && dom@.contains(index) && constraints.is_valid()
                && constraints.spec_is_bounded() ==> constraints.admits(r),
        decreases dom.rank(index), 2nat, 0nat,
    {
        proof {
            if !self@.contains_key(index) && dom@.contains(index) && constraints.is_valid()
                && constraints.spec_is_bounded() {
                lemma_calculated_admitted(dom, self@, index, constraints);
            }
        }
        match self.nodes.get(&index.bits) {
            Some(entry) => {
                return entry.size;
            },
            None => {},
        }
        match dom.get(index) {
            None => Vec2::zero(),
            Some(node) => {
                assert(dom@.node_wf(index));
                let size = node.widget.size(dom, self, constraints);
                let ghost after = self@;
                self.nodes.insert(index.bits, LayoutNode { size, pos: Vec2::zero() });
                assert(self@ =~= after.insert(index, LayoutNode { size, pos: Vec2::spec_zero() }));
                size
            },
        }
    }
}

} // verus!
