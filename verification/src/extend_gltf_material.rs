//! Deferred material extension: once a spawned sub-tree is ready, every mesh
//! under its root gets its base material replaced by an extended one.
//!
//! The walk is a state machine. It names the next node to look at, the caller
//! reports what the scene graph holds for that node, and the walk answers with
//! the swap to perform there, if any. Nodes are kept on an explicit stack, so
//! the depth of a sub-tree is not bounded by the call stack.

use bevy::prelude::{Entity, StandardMaterial};
use vstd::prelude::*;

verus! {

/// Marks a freshly requested node: its sub-tree is to receive the extension
/// `MATERIAL` as soon as it is ready.
#[derive(Debug)]
pub struct WithMaterialExtension<MATERIAL>(pub MATERIAL);

/// What the scene graph holds for one node at the moment the walk reaches it.
pub struct NodeReport<'a> {
    /// The parameters of the base material if the node carries a mesh bound
    /// to one.
    pub material: Option<&'a StandardMaterial>,
    /// The direct children of the node.
    pub children: Vec<Entity>,
}

/// The mathematical content of a [`NodeReport`].
pub ghost struct NodeFacts {
    pub material: Option<StandardMaterial>,
    pub children: Seq<Entity>,
}

impl<'a> View for NodeReport<'a> {
    type V = NodeFacts;

    open spec fn view(&self) -> NodeFacts {
        NodeFacts {
            material: match self.material {
                Some(material) => Some(*material),
                None => None,
            },
            children: self.children@,
        }
    }
}

/// One replacement: `node` loses its binding to the base material and is
/// bound to an extended material made of `base` and `extension`.
#[derive(Debug)]
pub struct MaterialSwap<MATERIAL> {
    pub node: Entity,
    pub base: StandardMaterial,
    pub extension: MATERIAL,
}

/// The state of one walk: the extension to apply and the nodes still to be
/// visited, the next one last.
pub struct MaterialWalk<MATERIAL> {
    extension: MATERIAL,
    pending: Vec<Entity>,
}

/// The mathematical content of a [`MaterialWalk`].
pub ghost struct MaterialWalkView<MATERIAL> {
    pub extension: MATERIAL,
    pub pending: Seq<Entity>,
}

impl<MATERIAL> View for MaterialWalk<MATERIAL> {
    type V = MaterialWalkView<MATERIAL>;

    closed spec fn view(&self) -> MaterialWalkView<MATERIAL> {
        MaterialWalkView { extension: self.extension, pending: self.pending@ }
    }
}

/// The facts of an optional report.
pub open spec fn reported(report: Option<NodeReport<'_>>) -> Option<NodeFacts> {
    match report {
        Some(report) => Some(report@),
        None => None,
    }
}

/// The stack after its last node was visited and found to hold `facts`:
/// the node is gone and its children are on top, the first child last.
/// A node that no longer exists (`None`) leaves nothing behind.
pub open spec fn pending_after(pending: Seq<Entity>, facts: Option<NodeFacts>) -> Seq<Entity>
    recommends
        pending.len() > 0,
{
    match facts {
        Some(facts) => pending.drop_last() + facts.children.reverse(),
        None => pending.drop_last(),
    }
}

/// The base material to replace on a visited node, if it has one.
pub open spec fn swapped_base(facts: Option<NodeFacts>) -> Option<StandardMaterial> {
    match facts {
        Some(facts) => facts.material,
        None => None,
    }
}

impl<MATERIAL: Clone> MaterialWalk<MATERIAL> {
    /// A walk over the sub-tree under `root`.
    pub fn new(root: Entity, extension: MATERIAL) -> (walk: Self)
        ensures
            walk@ == (MaterialWalkView { extension, pending: seq![root] }),
    {
        let mut pending = Vec::new();
        pending.push(root);
        MaterialWalk { extension, pending }
    }

    /// The node to report on next, or `None` once the walk is over.
    pub fn next_node(&self) -> (node: Option<Entity>)
        ensures
            node == if self@.pending.len() > 0 {
                Some(self@.pending.last())
            } else {
                None::<Entity>
            },
    {
        let n = self.pending.len();
        if n > 0 {
            Some(self.pending[n - 1])
        } else {
            None
        }
    }

    /// Visits the node that [`next_node`](Self::next_node) named. `report` is
    /// what the scene graph holds for it, `None` if the node is gone.
    ///
    /// The node leaves the stack and its children enter it, so that they are
    /// visited next and in their own order. If the node has a base material
    /// the result is the swap to perform on it. Once the walk is over nothing
    /// changes and nothing is returned.
    pub fn visit(&mut self, report: Option<NodeReport<'_>>) -> (swap: Option<MaterialSwap<MATERIAL>>)
        ensures
            final(self)@.extension == old(self)@.extension,
            old(self)@.pending.len() == 0 ==> final(self)@ == old(self)@ && swap is None,
            old(self)@.pending.len() > 0 ==> final(self)@.pending == pending_after(
                old(self)@.pending,
                reported(report),
            ),
            old(self)@.pending.len() > 0 ==> match swapped_base(reported(report)) {
                Some(base) => swap matches Some(s) && s.node == old(self)@.pending.last() && s.base
                    == base && cloned(old(self)@.extension, s.extension),
                None => swap is None,
            },
    {
        let node = match self.pending.pop() {
            Some(node) => node,
            None => {
                return None;
            },
        };
        let report = match report {
            Some(report) => report,
            None => {
                return None;
            },
        };
        let ghost below = self.pending@;
        let mut i: usize = report.children.len();
        while i > 0
            invariant
                i <= report.children.len(),
                self.extension == old(self).extension,
                self.pending@ == below + report.children@.subrange(
                    i as int,
                    report.children.len() as int,
                ).reverse(),
            decreases i,
        {
            i -= 1;
            self.pending.push(report.children[i]);
        }
        assert(report.children@.subrange(0, report.children.len() as int) == report.children@);
        match report.material {
            Some(material) => Some(
                MaterialSwap { node, base: material.clone(), extension: self.extension.clone() },
            ),
            None => None,
        }
    }
}

/// The marker left on a node once its ready signal has been handled: none.
pub open spec fn tag_after_ready<MATERIAL>(
    tag: Option<WithMaterialExtension<MATERIAL>>,
) -> Option<WithMaterialExtension<MATERIAL>> {
    None
}

/// The walk that a ready signal for `target` starts, given the marker found
/// on `target`.
pub open spec fn walk_started<MATERIAL>(
    target: Entity,
    tag: Option<WithMaterialExtension<MATERIAL>>,
) -> Option<MaterialWalkView<MATERIAL>> {
    match tag {
        Some(marker) => Some(MaterialWalkView { extension: marker.0, pending: seq![target] }),
        None => None,
    }
}

/// Handles the signal that the sub-tree under `target` is ready. `tag` is the
/// marker found on `target`, if any.
///
/// The marker is taken off the node before anything else happens. With a
/// marker the result is the walk that applies its extension to the sub-tree;
/// without one nothing is to be done.
pub fn replace_material<MATERIAL: Clone>(
    target: Entity,
    tag: &mut Option<WithMaterialExtension<MATERIAL>>,
) -> (walk: Option<MaterialWalk<MATERIAL>>)
    ensures
        *final(tag) == tag_after_ready(*old(tag)),
        match walk {
            Some(w) => walk_started(target, *old(tag)) == Some(w@),
            None => walk_started(target, *old(tag)) is None,
        },
{
    match tag.take() {
        Some(marker) => Some(MaterialWalk::new(target, marker.0)),
        None => None,
    }
}

/// A second ready signal for the same node finds no marker, starts no walk
/// and leaves the node as it is.
pub proof fn lemma_second_signal_is_ignored<MATERIAL>(
    target: Entity,
    tag: Option<WithMaterialExtension<MATERIAL>>,
)
    ensures
        walk_started(target, tag_after_ready(tag)) is None,
        tag_after_ready(tag_after_ready(tag)) == tag_after_ready(tag),
{
}

/// What a scene holds for `node`: its facts, or nothing if it does not exist.
pub open spec fn report_in(scene: Map<Entity, NodeFacts>, node: Entity) -> Option<NodeFacts> {
    if scene.contains_key(node) {
        Some(scene[node])
    } else {
        None
    }
}

/// The nodes of the sub-trees under `roots`, one sub-tree after the other,
/// each node before its children, children followed for `depth` levels.
pub open spec fn forest_nodes(scene: Map<Entity, NodeFacts>, roots: Seq<Entity>, depth: nat) -> Seq<
    Entity,
>
    decreases depth, roots.len(),
{
    if roots.len() == 0 {
        Seq::empty()
    } else {
        let below = if depth > 0 && scene.contains_key(roots[0]) {
            forest_nodes(scene, scene[roots[0]].children, (depth - 1) as nat)
        } else {
            Seq::empty()
        };
        seq![roots[0]] + below + forest_nodes(scene, roots.drop_first(), depth)
    }
}

/// No sub-tree under `roots` is deeper than `depth` levels of children.
pub open spec fn depth_at_most(scene: Map<Entity, NodeFacts>, roots: Seq<Entity>, depth: nat) -> bool
    decreases depth, roots.len(),
{
    roots.len() == 0 || {
        &&& scene.contains_key(roots[0]) && scene[roots[0]].children.len() > 0 ==> depth > 0
            && depth_at_most(scene, scene[roots[0]].children, (depth - 1) as nat)
        &&& depth_at_most(scene, roots.drop_first(), depth)
    }
}

/// `to` is `from` or lies under it, at most `depth` levels down.
pub open spec fn reaches(scene: Map<Entity, NodeFacts>, from: Entity, to: Entity, depth: nat) -> bool
    decreases depth,
{
    from == to || (depth > 0 && scene.contains_key(from) && exists|i: int|
        0 <= i < scene[from].children.len() && reaches(
            scene,
            #[trigger] scene[from].children[i],
            to,
            (depth - 1) as nat,
        ))
}

/// The stack of a walk that started with `pending` and made `steps` visits,
/// each answered by what `scene` holds.
pub open spec fn walk_after(scene: Map<Entity, NodeFacts>, pending: Seq<Entity>, steps: nat) -> Seq<
    Entity,
>
    decreases steps,
{
    if steps == 0 || pending.len() == 0 {
        pending
    } else {
        walk_after(
            scene,
            pending_after(pending, report_in(scene, pending.last())),
            (steps - 1) as nat,
        )
    }
}

/// The nodes that such a walk visits in its first `steps` visits, in order.
pub open spec fn walk_visits(scene: Map<Entity, NodeFacts>, pending: Seq<Entity>, steps: nat) -> Seq<
    Entity,
>
    decreases steps,
{
    if steps == 0 || pending.len() == 0 {
        Seq::empty()
    } else {
        seq![pending.last()] + walk_visits(
            scene,
            pending_after(pending, report_in(scene, pending.last())),
            (steps - 1) as nat,
        )
    }
}

/// The swap that a visit of `node` yields in `scene`: the node with its base
/// material, or nothing for a node without one.
pub open spec fn swap_at(scene: Map<Entity, NodeFacts>, node: Entity) -> Seq<
    (Entity, StandardMaterial),
> {
    match swapped_base(report_in(scene, node)) {
        Some(base) => seq![(node, base)],
        None => Seq::empty(),
    }
}

/// The swaps that such a walk yields in its first `steps` visits, in order.
pub open spec fn walk_swaps(scene: Map<Entity, NodeFacts>, pending: Seq<Entity>, steps: nat) -> Seq<
    (Entity, StandardMaterial),
>
    decreases steps,
{
    if steps == 0 || pending.len() == 0 {
        Seq::empty()
    } else {
        swap_at(scene, pending.last()) + walk_swaps(
            scene,
            pending_after(pending, report_in(scene, pending.last())),
            (steps - 1) as nat,
        )
    }
}

/// The nodes of `order` that have a base material, each with that material,
/// in the order given.
pub open spec fn mesh_nodes(scene: Map<Entity, NodeFacts>, order: Seq<Entity>) -> Seq<
    (Entity, StandardMaterial),
>
    decreases order.len(),
{
    if order.len() == 0 {
        Seq::empty()
    } else {
        swap_at(scene, order[0]) + mesh_nodes(scene, order.drop_first())
    }
}

/// How many nodes of `order` have a base material.
pub open spec fn mesh_count(scene: Map<Entity, NodeFacts>, order: Seq<Entity>) -> nat
    decreases order.len(),
{
    if order.len() == 0 {
        0
    } else {
        swap_at(scene, order[0]).len() + mesh_count(scene, order.drop_first())
    }
}

/// `parent` and `level` show that `scene` is a tree: every child has its
/// parent one level above it and stands only once among its siblings.
pub open spec fn is_tree(
    scene: Map<Entity, NodeFacts>,
    parent: spec_fn(Entity) -> Entity,
    level: spec_fn(Entity) -> nat,
) -> bool {
    &&& forall|node: Entity, i: int|
        scene.contains_key(node) && 0 <= i < scene[node].children.len() ==> {
            let child = #[trigger] scene[node].children[i];
            &&& parent(child) == node
            &&& level(child) == level(node) + 1
        }
    &&& forall|node: Entity|
        scene.contains_key(node) ==> (#[trigger] scene[node]).children.no_duplicates()
}

spec fn ancestor(parent: spec_fn(Entity) -> Entity, node: Entity, steps: nat) -> Entity
    decreases steps,
{
    if steps == 0 {
        node
    } else {
        parent(ancestor(parent, node, (steps - 1) as nat))
    }
}

spec fn all_on_level(level: spec_fn(Entity) -> nat, roots: Seq<Entity>, base: nat) -> bool {
    forall|i: int| 0 <= i < roots.len() ==> level(#[trigger] roots[i]) == base
}

spec fn below_roots(
    parent: spec_fn(Entity) -> Entity,
    level: spec_fn(Entity) -> nat,
    roots: Seq<Entity>,
    base: nat,
    node: Entity,
) -> bool {
    level(node) >= base && roots.contains(ancestor(parent, node, (level(node) - base) as nat))
}

proof fn lemma_forest_concat(
    scene: Map<Entity, NodeFacts>,
    left: Seq<Entity>,
    right: Seq<Entity>,
    depth: nat,
)
    ensures
        forest_nodes(scene, left + right, depth) == forest_nodes(scene, left, depth) + forest_nodes(
            scene,
            right,
            depth,
        ),
        depth_at_most(scene, left + right, depth) == (depth_at_most(scene, left, depth)
            && depth_at_most(scene, right, depth)),
    decreases left.len(),
{
    if left.len() == 0 {
        assert(left + right == right);
    } else {
        assert((left + right)[0] == left[0]);
        assert((left + right).drop_first() == left.drop_first() + right);
        lemma_forest_concat(scene, left.drop_first(), right, depth);
    }
}

proof fn lemma_depth_to_spare(scene: Map<Entity, NodeFacts>, roots: Seq<Entity>, depth: nat)
    requires
        depth_at_most(scene, roots, depth),
    ensures
        depth_at_most(scene, roots, depth + 1),
        forest_nodes(scene, roots, depth + 1) == forest_nodes(scene, roots, depth),
    decreases depth, roots.len(),
{
    if roots.len() > 0 {
        let first = roots[0];
        let rest = roots.drop_first();
        lemma_depth_to_spare(scene, rest, depth);
        let deeper = if scene.contains_key(first) {
            forest_nodes(scene, scene[first].children, depth)
        } else {
            Seq::empty()
        };
        let below = if depth > 0 && scene.contains_key(first) {
            forest_nodes(scene, scene[first].children, (depth - 1) as nat)
        } else {
            Seq::empty()
        };
        if scene.contains_key(first) && scene[first].children.len() > 0 {
            lemma_depth_to_spare(scene, scene[first].children, (depth - 1) as nat);
            assert(((depth - 1) as nat) + 1 == depth);
        }
        assert(deeper == below);
        assert(forest_nodes(scene, roots, depth + 1) == seq![first] + deeper + forest_nodes(
            scene,
            rest,
            depth + 1,
        ));
    }
}

proof fn lemma_walk_follows_forest(scene: Map<Entity, NodeFacts>, pending: Seq<Entity>, depth: nat)
    requires
        depth_at_most(scene, pending.reverse(), depth),
    ensures
        walk_visits(scene, pending, forest_nodes(scene, pending.reverse(), depth).len())
            == forest_nodes(scene, pending.reverse(), depth),
        walk_after(scene, pending, forest_nodes(scene, pending.reverse(), depth).len()).len() == 0,
    decreases forest_nodes(scene, pending.reverse(), depth).len(),
{
    let roots = pending.reverse();
    let order = forest_nodes(scene, roots, depth);
    if pending.len() > 0 {
        let top = pending.last();
        let rest = roots.drop_first();
        assert(roots[0] == top);
        assert(rest == pending.drop_last().reverse());
        let children = if scene.contains_key(top) {
            scene[top].children
        } else {
            Seq::empty()
        };
        let next = pending_after(pending, report_in(scene, top));
        assert(next.reverse() == children + rest);
        let below = if depth > 0 && scene.contains_key(top) {
            forest_nodes(scene, children, (depth - 1) as nat)
        } else {
            Seq::empty()
        };
        assert(order == seq![top] + below + forest_nodes(scene, rest, depth));
        if children.len() > 0 {
            lemma_depth_to_spare(scene, children, (depth - 1) as nat);
            assert(((depth - 1) as nat) + 1 == depth);
        }
        assert(below == forest_nodes(scene, children, depth));
        assert(depth_at_most(scene, children, depth));
        lemma_forest_concat(scene, children, rest, depth);
        assert(order == seq![top] + forest_nodes(scene, next.reverse(), depth));
        lemma_walk_follows_forest(scene, next, depth);
    }
}

proof fn lemma_swaps_follow_visits(scene: Map<Entity, NodeFacts>, pending: Seq<Entity>, steps: nat)
    ensures
        walk_swaps(scene, pending, steps) == mesh_nodes(scene, walk_visits(scene, pending, steps)),
    decreases steps,
{
    if steps > 0 && pending.len() > 0 {
        let next = pending_after(pending, report_in(scene, pending.last()));
        let later = walk_visits(scene, next, (steps - 1) as nat);
        lemma_swaps_follow_visits(scene, next, (steps - 1) as nat);
        assert((seq![pending.last()] + later).drop_first() == later);
    }
}

proof fn lemma_reached_is_listed(
    scene: Map<Entity, NodeFacts>,
    from: Entity,
    to: Entity,
    depth: nat,
)
    requires
        reaches(scene, from, to, depth),
    ensures
        forest_nodes(scene, seq![from], depth).contains(to),
    decreases depth,
{
    let listed = forest_nodes(scene, seq![from], depth);
    assert(listed[0] == from);
    if from != to {
        let children = scene[from].children;
        let i = choose|i: int|
            0 <= i < children.len() && reaches(
                scene,
                #[trigger] children[i],
                to,
                (depth - 1) as nat,
            );
        let before = children.subrange(0, i);
        let after = children.subrange(i + 1, children.len() as int);
        lemma_reached_is_listed(scene, children[i], to, (depth - 1) as nat);
        assert(children == before + (seq![children[i]] + after));
        lemma_forest_concat(scene, before, seq![children[i]] + after, (depth - 1) as nat);
        lemma_forest_concat(scene, seq![children[i]], after, (depth - 1) as nat);
        let under = forest_nodes(scene, seq![children[i]], (depth - 1) as nat);
        let k = choose|k: int| 0 <= k < under.len() && under[k] == to;
        let offset = 1 + forest_nodes(scene, before, (depth - 1) as nat).len();
        assert(seq![from].drop_first() == Seq::<Entity>::empty());
        assert(listed[offset + k] == to);
    }
}

/// The walk is complete. In a scene whose sub-tree under `root` is at most
/// `depth` levels deep, a walk that starts at `root` and is told what the
/// scene holds visits the nodes of that sub-tree, each before its children,
/// and is over after as many visits as the sub-tree has nodes. Every node
/// that can be reached from `root` is among them. The swaps are those of the
/// visited nodes that have a base material, in the order of the visits.
pub proof fn lemma_walk_is_complete(scene: Map<Entity, NodeFacts>, root: Entity, depth: nat)
    requires
        depth_at_most(scene, seq![root], depth),
    ensures
        walk_visits(scene, seq![root], forest_nodes(scene, seq![root], depth).len())
            == forest_nodes(scene, seq![root], depth),
        walk_after(scene, seq![root], forest_nodes(scene, seq![root], depth).len()).len() == 0,
        walk_swaps(scene, seq![root], forest_nodes(scene, seq![root], depth).len()) == mesh_nodes(
            scene,
            forest_nodes(scene, seq![root], depth),
        ),
        forall|node: Entity|
            reaches(scene, root, node, depth) ==> forest_nodes(scene, seq![root], depth).contains(
                node,
            ),
{
    assert(seq![root].reverse() == seq![root]);
    lemma_walk_follows_forest(scene, seq![root], depth);
    lemma_swaps_follow_visits(scene, seq![root], forest_nodes(scene, seq![root], depth).len());
    assert forall|node: Entity| reaches(scene, root, node, depth) implies forest_nodes(
        scene,
        seq![root],
        depth,
    ).contains(node) by {
        lemma_reached_is_listed(scene, root, node, depth);
    }
}

/// Swaps touch mesh nodes only, and all of them. Every swap listed for
/// `order` names a node of `order` that exists and holds exactly that base
/// material, and every node of `order` that has a base material is listed
/// with it. There are as many swaps as `order` has such nodes, and where no
/// node stands twice in `order` no node is swapped twice.
pub proof fn lemma_swaps_are_the_meshes(scene: Map<Entity, NodeFacts>, order: Seq<Entity>)
    ensures
        forall|j: int|
            0 <= j < mesh_nodes(scene, order).len() ==> {
                let swap = #[trigger] mesh_nodes(scene, order)[j];
                &&& order.contains(swap.0)
                &&& scene.contains_key(swap.0)
                &&& scene[swap.0].material == Some(swap.1)
            },
        forall|i: int|
            0 <= i < order.len() ==> match swapped_base(report_in(scene, #[trigger] order[i])) {
                Some(base) => mesh_nodes(scene, order).contains((order[i], base)),
                None => true,
            },
        mesh_nodes(scene, order).len() == mesh_count(scene, order),
        order.no_duplicates() ==> forall|j: int, k: int|
            0 <= j < k < mesh_nodes(scene, order).len() ==> (#[trigger] mesh_nodes(
                scene,
                order,
            )[j]).0 != (#[trigger] mesh_nodes(scene, order)[k]).0,
    decreases order.len(),
{
    if order.len() > 0 {
        let rest = order.drop_first();
        let here = swap_at(scene, order[0]);
        let listed = mesh_nodes(scene, order);
        lemma_swaps_are_the_meshes(scene, rest);
        if order.no_duplicates() {
            let inner = mesh_nodes(scene, rest);
            assert forall|j: int, k: int| 0 <= j < k < listed.len() implies (#[trigger] listed[j]).0
                != (#[trigger] listed[k]).0 by {
                if j < here.len() {
                    let later = inner[k - here.len()];
                    assert(listed[k] == later);
                    let m = choose|m: int| 0 <= m < rest.len() && rest[m] == later.0;
                    assert(order[m + 1] == later.0);
                } else {
                    assert(listed[j] == inner[j - here.len()]);
                    assert(listed[k] == inner[k - here.len()]);
                }
            }
        }
        assert forall|j: int| 0 <= j < listed.len() implies {
            let swap = #[trigger] listed[j];
            &&& order.contains(swap.0)
            &&& scene.contains_key(swap.0)
            &&& scene[swap.0].material == Some(swap.1)
        } by {
            if j < here.len() {
                assert(order[0] == listed[j].0);
            } else {
                let swap = mesh_nodes(scene, rest)[j - here.len()];
                assert(listed[j] == swap);
                let k = choose|k: int| 0 <= k < rest.len() && rest[k] == swap.0;
                assert(order[k + 1] == swap.0);
            }
        }
        assert forall|i: int| 0 <= i < order.len() implies match swapped_base(
            report_in(scene, #[trigger] order[i]),
        ) {
            Some(base) => listed.contains((order[i], base)),
            None => true,
        } by {
            match swapped_base(report_in(scene, order[i])) {
                Some(base) => {
                    if i == 0 {
                        assert(listed[0] == (order[0], base));
                    } else {
                        assert(rest[i - 1] == order[i]);
                        let inner = mesh_nodes(scene, rest);
                        let k = choose|k: int|
                            0 <= k < inner.len() && inner[k] == (order[i], base);
                        assert(listed[here.len() + k] == (order[i], base));
                    }
                },
                None => {},
            }
        }
    }
}

proof fn lemma_listed_is_below_roots(
    scene: Map<Entity, NodeFacts>,
    parent: spec_fn(Entity) -> Entity,
    level: spec_fn(Entity) -> nat,
    roots: Seq<Entity>,
    depth: nat,
    base: nat,
)
    requires
        is_tree(scene, parent, level),
        all_on_level(level, roots, base),
    ensures
        forall|k: int|
            0 <= k < forest_nodes(scene, roots, depth).len() ==> below_roots(
                parent,
                level,
                roots,
                base,
                #[trigger] forest_nodes(scene, roots, depth)[k],
            ),
    decreases depth, roots.len(),
{
    if roots.len() > 0 {
        let first = roots[0];
        let rest = roots.drop_first();
        let listed = forest_nodes(scene, roots, depth);
        let children = if depth > 0 && scene.contains_key(first) {
            scene[first].children
        } else {
            Seq::empty()
        };
        let below = if depth > 0 && scene.contains_key(first) {
            forest_nodes(scene, children, (depth - 1) as nat)
        } else {
            Seq::empty()
        };
        let tail = forest_nodes(scene, rest, depth);
        assert(listed == seq![first] + below + tail);
        assert(all_on_level(level, rest, base)) by {
            assert forall|i: int| 0 <= i < rest.len() implies level(#[trigger] rest[i]) == base by {
                assert(rest[i] == roots[i + 1]);
            }
        }
        lemma_listed_is_below_roots(scene, parent, level, rest, depth, base);
        if depth > 0 && scene.contains_key(first) {
            assert(all_on_level(level, children, base + 1)) by {
                assert forall|i: int| 0 <= i < children.len() implies level(
                    #[trigger] children[i],
                ) == base + 1 by {
                    assert(children[i] == scene[first].children[i]);
                }
            }
            lemma_listed_is_below_roots(
                scene,
                parent,
                level,
                children,
                (depth - 1) as nat,
                base + 1,
            );
        }
        assert forall|k: int| 0 <= k < listed.len() implies below_roots(
            parent,
            level,
            roots,
            base,
            #[trigger] listed[k],
        ) by {
            let node = listed[k];
            if k == 0 {
                assert(node == roots[0]);
                assert(ancestor(parent, node, 0) == node);
            } else if k < 1 + below.len() {
                assert(node == below[k - 1]);
                assert(below_roots(parent, level, children, base + 1, node));
                let up = (level(node) - base - 1) as nat;
                let child = ancestor(parent, node, up);
                let i = choose|i: int| 0 <= i < children.len() && children[i] == child;
                assert(child == scene[first].children[i]);
                assert(ancestor(parent, node, up + 1) == parent(child));
                assert(ancestor(parent, node, (level(node) - base) as nat) == roots[0]);
            } else {
                assert(node == tail[k - 1 - below.len()]);
                assert(below_roots(parent, level, rest, base, node));
                let top = ancestor(parent, node, (level(node) - base) as nat);
                let i = choose|i: int| 0 <= i < rest.len() && rest[i] == top;
                assert(roots[i + 1] == top);
            }
        }
    }
}

proof fn lemma_tree_listing_is_distinct(
    scene: Map<Entity, NodeFacts>,
    parent: spec_fn(Entity) -> Entity,
    level: spec_fn(Entity) -> nat,
    roots: Seq<Entity>,
    depth: nat,
    base: nat,
)
    requires
        is_tree(scene, parent, level),
        all_on_level(level, roots, base),
        roots.no_duplicates(),
    ensures
        forest_nodes(scene, roots, depth).no_duplicates(),
    decreases depth, roots.len(),
{
    if roots.len() > 0 {
        let first = roots[0];
        let rest = roots.drop_first();
        let listed = forest_nodes(scene, roots, depth);
        let children = if depth > 0 && scene.contains_key(first) {
            scene[first].children
        } else {
            Seq::empty()
        };
        let below = if depth > 0 && scene.contains_key(first) {
            forest_nodes(scene, children, (depth - 1) as nat)
        } else {
            Seq::empty()
        };
        let tail = forest_nodes(scene, rest, depth);
        assert(listed == seq![first] + below + tail);
        assert(all_on_level(level, rest, base)) by {
            assert forall|i: int| 0 <= i < rest.len() implies level(#[trigger] rest[i]) == base by {
                assert(rest[i] == roots[i + 1]);
            }
        }
        assert(rest.no_duplicates()) by {
            assert forall|i: int, j: int|
                0 <= i < rest.len() && 0 <= j < rest.len() && i != j implies rest[i]
                != rest[j] by {
                assert(rest[i] == roots[i + 1]);
                assert(rest[j] == roots[j + 1]);
            }
        }
        lemma_tree_listing_is_distinct(scene, parent, level, rest, depth, base);
        lemma_listed_is_below_roots(scene, parent, level, rest, depth, base);
        if depth > 0 && scene.contains_key(first) {
            assert(all_on_level(level, children, base + 1)) by {
                assert forall|i: int| 0 <= i < children.len() implies level(
                    #[trigger] children[i],
                ) == base + 1 by {
                    assert(children[i] == scene[first].children[i]);
                }
            }
            assert(scene[first].children.no_duplicates());
            lemma_tree_listing_is_distinct(
                scene,
                parent,
                level,
                children,
                (depth - 1) as nat,
                base + 1,
            );
            lemma_listed_is_below_roots(
                scene,
                parent,
                level,
                children,
                (depth - 1) as nat,
                base + 1,
            );
        }
        assert forall|i: int, j: int| 0 <= i < j < listed.len() implies listed[i] != listed[j] by {
            let later = listed[j];
            if i == 0 {
                if j < 1 + below.len() {
                    assert(later == below[j - 1]);
                    assert(below_roots(parent, level, children, base + 1, later));
                    assert(level(roots[0]) == base);
                } else {
                    assert(later == tail[j - 1 - below.len()]);
                    assert(below_roots(parent, level, rest, base, later));
                    if later == first {
                        assert(level(roots[0]) == base);
                        assert(ancestor(parent, later, 0) == later);
                        let m = choose|m: int| 0 <= m < rest.len() && rest[m] == later;
                        assert(roots[m + 1] == roots[0]);
                    }
                }
            } else if j < 1 + below.len() {
                assert(listed[i] == below[i - 1]);
                assert(later == below[j - 1]);
            } else if i < 1 + below.len() {
                assert(listed[i] == below[i - 1]);
                assert(later == tail[j - 1 - below.len()]);
                if listed[i] == later {
                    assert(below_roots(parent, level, children, base + 1, later));
                    assert(below_roots(parent, level, rest, base, later));
                    let up = (level(later) - base - 1) as nat;
                    let child = ancestor(parent, later, up);
                    let c = choose|c: int| 0 <= c < children.len() && children[c] == child;
                    assert(child == scene[first].children[c]);
                    assert(ancestor(parent, later, up + 1) == parent(child));
                    let top = ancestor(parent, later, (level(later) - base) as nat);
                    assert(top == first);
                    let m = choose|m: int| 0 <= m < rest.len() && rest[m] == top;
                    assert(roots[m + 1] == roots[0]);
                }
            } else {
                assert(listed[i] == tail[i - 1 - below.len()]);
                assert(later == tail[j - 1 - below.len()]);
            }
        }
        assert(listed.no_duplicates()) by {
            assert forall|i: int, j: int|
                0 <= i < listed.len() && 0 <= j < listed.len() && i != j implies listed[i]
                != listed[j] by {
                if i < j {
                    assert(listed[i] != listed[j]);
                } else {
                    assert(listed[j] != listed[i]);
                }
            }
        }
    }
}

/// In a tree the walk visits no node twice: the nodes of the sub-tree under
/// `root`, as the walk lists them, are all different.
pub proof fn lemma_tree_is_visited_once(
    scene: Map<Entity, NodeFacts>,
    root: Entity,
    depth: nat,
    parent: spec_fn(Entity) -> Entity,
    level: spec_fn(Entity) -> nat,
)
    requires
        is_tree(scene, parent, level),
    ensures
        forest_nodes(scene, seq![root], depth).no_duplicates(),
{
    lemma_tree_listing_is_distinct(scene, parent, level, seq![root], depth, level(root));
}

} // verus!
