use vstd::prelude::*;
use crate::buttons::UiPanelButton;
use crate::style::{Color, Interaction, Style};
use crate::{UiPanel, UiPanelContent, UiPanelTitlebar};

verus! {

/// A text label carried by a node: the string shown, an opaque handle to a
/// host-loaded font, the font size in pixels, and the text color.
#[derive(Debug, PartialEq, Eq)]
pub struct TextNode {
    pub text: String,
    pub font: u64,
    pub font_size: i64,
    pub color: Color,
}

/// One entity of the modeled entity store, together with the components the
/// panel logic reads or writes: the parent link, the layout style slice, the
/// paint color, the host-resolved interaction state (plus the flag that it
/// changed since the previous frame), and the optional panel, titlebar,
/// content, root-container and button components.
pub struct UiNode {
    pub id: u64,
    pub parent: Option<u64>,
    pub style: Style,
    pub color: Color,
    pub interaction: Interaction,
    pub interaction_changed: bool,
    pub panel: Option<UiPanel>,
    pub titlebar: Option<UiPanelTitlebar>,
    pub content: Option<UiPanelContent>,
    pub panel_parent: bool,
    pub button: Option<UiPanelButton>,
    pub text: Option<TextNode>,
}

/// The index of the first node carrying `id`, or -1 if none does.
pub open spec fn idx_of(s: Seq<UiNode>, id: u64) -> int
    decreases s.len(),
{
    if s.len() == 0 {
        -1
    } else if s[0].id == id {
        0
    } else {
        let r = idx_of(s.subrange(1, s.len() as int), id);
        if r < 0 {
            -1
        } else {
            r + 1
        }
    }
}

pub open spec fn has_node(s: Seq<UiNode>, id: u64) -> bool {
    idx_of(s, id) >= 0
}

/// The node carrying `id` (meaningful only when `has_node`).
pub open spec fn node_of(s: Seq<UiNode>, id: u64) -> UiNode {
    s[idx_of(s, id)]
}

/// No two nodes share an id.
pub open spec fn unique_ids(s: Seq<UiNode>) -> bool {
    forall|i: int, j: int|
        #![trigger s[i], s[j]]
        0 <= i < j < s.len() ==> s[i].id != s[j].id
}

/// What `idx_of` returns: a valid index of the first node with the id, or
/// -1 exactly when no node carries it.
pub proof fn lemma_idx_of(s: Seq<UiNode>, id: u64)
    ensures
        idx_of(s, id) >= 0 ==> 0 <= idx_of(s, id) < s.len() && s[idx_of(s, id)].id == id,
        idx_of(s, id) < 0 ==> forall|k: int| 0 <= k < s.len() ==> (#[trigger] s[k]).id != id,
        idx_of(s, id) >= 0 ==> forall|k: int|
            0 <= k < idx_of(s, id) ==> (#[trigger] s[k]).id != id,
    decreases s.len(),
{
    if s.len() > 0 && s[0].id != id {
        let tail = s.subrange(1, s.len() as int);
        lemma_idx_of(tail, id);
        assert forall|k: int| 1 <= k < s.len() implies s[k] == tail[k - 1] by {}
    }
}

/// `idx_of` depends only on the ids, so replacing a node by one with the
/// same id leaves every lookup unchanged.
pub proof fn lemma_idx_of_update(s: Seq<UiNode>, k: int, n2: UiNode, id: u64)
    requires
        0 <= k < s.len(),
        n2.id == s[k].id,
    ensures
        idx_of(s.update(k, n2), id) == idx_of(s, id),
    decreases s.len(),
{
    let s2 = s.update(k, n2);
    if k == 0 {
        if s[0].id != id {
            assert(s2.subrange(1, s2.len() as int) =~= s.subrange(1, s.len() as int));
        }
    } else {
        if s[0].id != id {
            let tail = s.subrange(1, s.len() as int);
            assert(s2.subrange(1, s2.len() as int) =~= tail.update(k - 1, n2));
            lemma_idx_of_update(tail, k - 1, n2, id);
        }
    }
}

/// Moving the node at `i` to the end (with its id kept) preserves id
/// uniqueness.
pub proof fn lemma_move_preserves_unique(s: Seq<UiNode>, i: int, n2: UiNode)
    requires
        unique_ids(s),
        0 <= i < s.len(),
        n2.id == s[i].id,
    ensures
        unique_ids(s.remove(i).push(n2)),
{
    let t = s.remove(i).push(n2);
    assert(t.len() == s.len());
    assert forall|a: int, b: int|
        #![trigger t[a], t[b]]
        0 <= a < b < t.len() implies t[a].id != t[b].id by {
        let fa: int = if a < i {
            a
        } else if a < s.len() - 1 {
            a + 1
        } else {
            i
        };
        let fb: int = if b < i {
            b
        } else if b < s.len() - 1 {
            b + 1
        } else {
            i
        };
        assert(t[a].id == s[fa].id);
        assert(t[b].id == s[fb].id);
    }
}

/// Updating a node in place (id kept) preserves id uniqueness.
pub proof fn lemma_update_preserves_unique(s: Seq<UiNode>, i: int, n2: UiNode)
    requires
        unique_ids(s),
        0 <= i < s.len(),
        n2.id == s[i].id,
    ensures
        unique_ids(s.update(i, n2)),
{
}

/// Appending a node: every present id keeps its lookup, and a fresh id
/// looks up to the appended node.
pub proof fn lemma_idx_of_push(s: Seq<UiNode>, n: UiNode, y: u64)
    ensures
        idx_of(s.push(n), y) == if idx_of(s, y) >= 0 {
            idx_of(s, y)
        } else if n.id == y {
            s.len() as int
        } else {
            -1
        },
    decreases s.len(),
{
    let t = s.push(n);
    if s.len() == 0 {
        assert(t.subrange(1, 1) =~= Seq::<UiNode>::empty());
        assert(idx_of(Seq::<UiNode>::empty(), y) == -1);
    } else {
        assert(t[0] == s[0]);
        if t[0].id != y {
            let st = s.subrange(1, s.len() as int);
            let tt = t.subrange(1, t.len() as int);
            assert(tt =~= st.push(n));
            lemma_idx_of_push(st, n, y);
            assert(idx_of(t, y) == if idx_of(tt, y) < 0 {
                -1
            } else {
                idx_of(tt, y) + 1
            });
            assert(idx_of(s, y) == if idx_of(st, y) < 0 {
                -1
            } else {
                idx_of(st, y) + 1
            });
        }
    }
}

/// With unique ids, each node is exactly what its own id looks up to.
pub proof fn lemma_node_of_self(t: Seq<UiNode>, k: int)
    requires
        unique_ids(t),
        0 <= k < t.len(),
    ensures
        idx_of(t, t[k].id) == k,
        node_of(t, t[k].id) == t[k],
{
    lemma_idx_of(t, t[k].id);
    let j = idx_of(t, t[k].id);
    assert(j >= 0) by {
        if j < 0 {
            assert(t[k].id != t[k].id);
        }
    }
    if j != k {
        assert(t[j].id == t[k].id);
    }
}

/// Replacing the node at `k` by one with the same id leaves every other
/// node's lookup result unchanged, and the id's own lookup yields the new
/// node.
pub proof fn lemma_update_preserves_nodes(s: Seq<UiNode>, k: int, n2: UiNode, y: u64)
    requires
        unique_ids(s),
        0 <= k < s.len(),
        n2.id == s[k].id,
    ensures
        has_node(s.update(k, n2), y) == has_node(s, y),
        has_node(s, y) && y != s[k].id ==> node_of(s.update(k, n2), y) == node_of(s, y),
        y == s[k].id ==> node_of(s.update(k, n2), y) == n2,
{
    let t = s.update(k, n2);
    lemma_idx_of_update(s, k, n2, y);
    lemma_idx_of(s, y);
    lemma_idx_of(t, y);
    if has_node(s, y) {
        let j = idx_of(s, y);
        if y == s[k].id {
            // uniqueness: the only index with this id is k
            assert(j == k) by {
                if j != k {
                    assert(s[j].id == s[k].id);
                }
            }
        }
    }
}

/// Moving the node at `ci` to the end (id kept) leaves every other node's
/// lookup result unchanged, and the moved id looks up to the new node.
pub proof fn lemma_move_preserves_nodes(s: Seq<UiNode>, ci: int, n2: UiNode, y: u64)
    requires
        unique_ids(s),
        0 <= ci < s.len(),
        n2.id == s[ci].id,
    ensures
        has_node(s.remove(ci).push(n2), y) == has_node(s, y),
        has_node(s, y) && y != s[ci].id ==> node_of(s.remove(ci).push(n2), y) == node_of(s, y),
        y == s[ci].id ==> (has_node(s.remove(ci).push(n2), y) && node_of(
            s.remove(ci).push(n2),
            y,
        ) == n2),
{
    let t = s.remove(ci).push(n2);
    lemma_move_preserves_unique(s, ci, n2);
    lemma_idx_of(s, y);
    lemma_idx_of(t, y);
    assert(t.len() == s.len());
    assert forall|k: int| 0 <= k < t.len() implies #[trigger] t[k] == s[
        if k < ci {
            k
        } else if k < s.len() - 1 {
            k + 1
        } else {
            ci
        }
    ] || (k == s.len() - 1 && t[k] == n2) by {
        if k < ci {
            assert(t[k] == s[k]);
        } else if k < s.len() - 1 {
            assert(t[k] == s[k + 1]);
        } else {
            assert(t[k] == n2);
        }
    }
    if y == s[ci].id {
        assert(t[t.len() - 1] == n2);
        assert(has_node(t, y)) by {
            if idx_of(t, y) < 0 {
                assert(t[t.len() - 1].id != y);
            }
        }
        let j2 = idx_of(t, y);
        assert(j2 == t.len() - 1) by {
            if j2 < t.len() - 1 {
                assert(t[j2].id == y);
                let orig: int = if j2 < ci {
                    j2
                } else {
                    j2 + 1
                };
                assert(t[j2] == s[orig]);
                assert(s[orig].id == s[ci].id);
                assert(orig != ci);
            }
        }
    } else {
        if has_node(s, y) {
            let j = idx_of(s, y);
            assert(j != ci);
            let j2: int = if j < ci {
                j
            } else {
                j - 1
            };
            assert(t[j2] == s[j]);
            assert(has_node(t, y)) by {
                if idx_of(t, y) < 0 {
                    assert(t[j2].id != y);
                }
            }
            let jt = idx_of(t, y);
            assert(t[jt].id == y);
            assert(jt == j2) by {
                if jt != j2 {
                    assert(t[jt].id != t[j2].id || jt == j2);
                }
            }
            assert(node_of(t, y) == s[j]);
        } else {
            if has_node(t, y) {
                let jt = idx_of(t, y);
                assert(t[jt].id == y);
                if jt == t.len() - 1 {
                    assert(t[jt] == n2);
                } else {
                    let orig: int = if jt < ci {
                        jt
                    } else {
                        jt + 1
                    };
                    assert(t[jt] == s[orig]);
                    assert(s[orig].id != y);
                }
            }
        }
    }
}

/// The node `n` with its parent link set to `parent`.
pub open spec fn reparented(n: UiNode, parent: u64) -> UiNode {
    UiNode { parent: Some(parent), ..n }
}

/// The effect of attaching `child` as the last child of `parent`: the
/// child's node moves to the end of the store with its parent link set, so
/// it also becomes the topmost in paint order; a missing child leaves the
/// store unchanged.
pub open spec fn add_child_spec(s: Seq<UiNode>, parent: u64, child: u64) -> Seq<UiNode> {
    let ci = idx_of(s, child);
    if ci < 0 {
        s
    } else {
        s.remove(ci).push(reparented(s[ci], parent))
    }
}

/// The ordered child list of `parent`: the ids of the nodes whose parent
/// link names it, in store order.
pub open spec fn children_of(s: Seq<UiNode>, parent: u64) -> Seq<u64>
    decreases s.len(),
{
    if s.len() == 0 {
        Seq::empty()
    } else {
        let rest = children_of(s.drop_last(), parent);
        if s.last().parent == Some(parent) {
            rest.push(s.last().id)
        } else {
            rest
        }
    }
}

/// `children_of` distributes over concatenation.
pub proof fn lemma_children_of_add(a: Seq<UiNode>, b: Seq<UiNode>, parent: u64)
    ensures
        children_of(a + b, parent) == children_of(a, parent) + children_of(b, parent),
    decreases b.len(),
{
    if b.len() == 0 {
        assert(a + b =~= a);
        assert(children_of(a, parent) + children_of(b, parent) =~= children_of(a, parent));
    } else {
        lemma_children_of_add(a, b.drop_last(), parent);
        assert((a + b).drop_last() =~= a + b.drop_last());
        assert((a + b).last() == b.last());
        if b.last().parent == Some(parent) {
            assert(children_of(a, parent) + children_of(b, parent) =~= (children_of(a, parent)
                + children_of(b.drop_last(), parent)).push(b.last().id));
        } else {
            assert(children_of(a, parent) + children_of(b, parent) =~= children_of(a, parent)
                + children_of(b.drop_last(), parent));
        }
    }
}

/// Whether following parent links from `x` reaches `target` within `fuel`
/// steps. `x` itself counts: `reaches(s, x, x, fuel)` always holds.
pub open spec fn reaches(s: Seq<UiNode>, x: u64, target: u64, fuel: nat) -> bool
    decreases fuel,
{
    if x == target {
        true
    } else if fuel == 0 {
        false
    } else {
        let xi = idx_of(s, x);
        if xi < 0 {
            false
        } else {
            match s[xi].parent {
                Option::None => false,
                Option::Some(p) => reaches(s, p, target, (fuel - 1) as nat),
            }
        }
    }
}

/// The nodes of `prefix` that survive a recursive despawn of `target`,
/// judged against the full store `s`: exactly those from whose id the
/// parent chain does not reach `target`.
pub open spec fn surviving(s: Seq<UiNode>, prefix: Seq<UiNode>, target: u64) -> Seq<UiNode>
    decreases prefix.len(),
{
    if prefix.len() == 0 {
        Seq::empty()
    } else {
        let rest = surviving(s, prefix.drop_last(), target);
        if reaches(s, prefix.last().id, target, s.len() as nat) {
            rest
        } else {
            rest.push(prefix.last())
        }
    }
}

/// The store after a recursive despawn of `target`: the surviving nodes in
/// their old order.
pub open spec fn despawn_spec(s: Seq<UiNode>, target: u64) -> Seq<UiNode> {
    surviving(s, s, target)
}

/// Every survivor is a node of the prefix whose chain misses the target,
/// and every such node survives, in order; so uniqueness of ids carries
/// over.
pub proof fn lemma_surviving_membership(s: Seq<UiNode>, prefix: Seq<UiNode>, target: u64)
    ensures
        forall|n: UiNode|
            #[trigger] surviving(s, prefix, target).contains(n) <==> prefix.contains(n) && !reaches(
                s,
                n.id,
                target,
                s.len() as nat,
            ),
    decreases prefix.len(),
{
    let res = surviving(s, prefix, target);
    if prefix.len() > 0 {
        let pre = prefix.drop_last();
        let rest = surviving(s, pre, target);
        lemma_surviving_membership(s, pre, target);
        let lastn = prefix.last();
        let keep_last = !reaches(s, lastn.id, target, s.len() as nat);
        assert forall|n: UiNode| #[trigger] res.contains(n) implies prefix.contains(n) && !reaches(
            s,
            n.id,
            target,
            s.len() as nat,
        ) by {
            let w = choose|w: int| 0 <= w < res.len() && res[w] == n;
            if keep_last && w == res.len() - 1 {
                assert(n == lastn);
                assert(prefix[prefix.len() - 1] == n);
            } else {
                assert(rest[w] == n);
                assert(rest.contains(n));
                let v = choose|v: int| 0 <= v < pre.len() && pre[v] == n;
                assert(prefix[v] == n);
            }
        }
        assert forall|n: UiNode|
            prefix.contains(n) && !reaches(s, n.id, target, s.len() as nat) implies #[trigger] res.contains(
            n,
        ) by {
            let w = choose|w: int| 0 <= w < prefix.len() && prefix[w] == n;
            if w == prefix.len() - 1 {
                assert(res[res.len() - 1] == n);
            } else {
                assert(pre[w] == n);
                assert(pre.contains(n));
                assert(rest.contains(n));
                let v = choose|v: int| 0 <= v < rest.len() && rest[v] == n;
                if keep_last {
                    assert(res[v] == rest[v]);
                }
                assert(res.contains(n));
            }
        }
    }
}

/// The modeled entity store: the nodes in paint order (later nodes paint
/// above earlier siblings), and the next fresh entity id.
pub struct UiWorld {
    pub nodes: Vec<UiNode>,
    pub next_id: u64,
}

impl UiWorld {
    /// Well-formedness: ids are unique, and every id is below the fresh-id
    /// counter.
    pub open spec fn wf(self) -> bool {
        &&& unique_ids(self.nodes@)
        &&& forall|k: int| 0 <= k < self.nodes@.len() ==> (#[trigger] self.nodes@[k]).id
            < self.next_id
    }

    pub fn new() -> (r: UiWorld)
        ensures
            r.wf(),
            r.nodes@ =~= Seq::<UiNode>::empty(),
            r.next_id == 0,
    {
        UiWorld { nodes: Vec::new(), next_id: 0 }
    }

    /// Creates a new entity from `node`, with a fresh id in place of the
    /// one given; the node is appended, so it paints above its siblings.
    pub fn spawn_node(&mut self, node: UiNode) -> (id: u64)
        requires
            old(self).wf(),
            old(self).next_id < u64::MAX,
        ensures
            final(self).wf(),
            id == old(self).next_id,
            final(self).next_id == old(self).next_id + 1,
            final(self).nodes@ == old(self).nodes@.push(UiNode { id, ..node }),
    {
        let id = self.next_id;
        self.next_id = self.next_id + 1;
        let mut n = node;
        n.id = id;
        self.nodes.push(n);
        proof {
            let s = old(self).nodes@;
            let t = self.nodes@;
            assert forall|i: int, j: int|
                #![trigger t[i], t[j]]
                0 <= i < j < t.len() implies t[i].id != t[j].id by {
                if j < s.len() {
                } else {
                    assert(t[i].id < id);
                }
            }
        }
        id
    }

    /// The index of the node carrying `id`, if any: a linear scan of the
    /// store.
    pub fn find(&self, id: u64) -> (r: Option<usize>)
        ensures
            match r {
                Option::Some(j) => j < self.nodes@.len() && idx_of(self.nodes@, id) == j
                    && self.nodes@[j as int].id == id,
                Option::None => idx_of(self.nodes@, id) < 0,
            },
    {
        let mut i: usize = 0;
        while i < self.nodes.len()
            invariant
                i <= self.nodes@.len(),
                forall|k: int| 0 <= k < i ==> (#[trigger] self.nodes@[k]).id != id,
            decreases self.nodes@.len() - i,
        {
            if self.nodes[i].id == id {
                proof {
                    lemma_idx_of(self.nodes@, id);
                }
                return Some(i);
            }
            i = i + 1;
        }
        proof {
            lemma_idx_of(self.nodes@, id);
        }
        None
    }

    /// Whether an entity with this id exists.
    pub fn contains(&self, id: u64) -> (r: bool)
        ensures
            r == has_node(self.nodes@, id),
    {
        self.find(id).is_some()
    }

    /// Attaches `child` as the last child of `parent`: its parent link is
    /// set and its node moves to the end of the store, the top of the paint
    /// order. A missing child id leaves the store unchanged.
    pub fn add_child(&mut self, parent: u64, child: u64)
        requires
            old(self).wf(),
        ensures
            final(self).wf(),
            final(self).next_id == old(self).next_id,
            final(self).nodes@ == add_child_spec(old(self).nodes@, parent, child),
    {
        match self.find(child) {
            None => {},
            Some(ci) => {
                let mut n = self.nodes.remove(ci);
                n.parent = Some(parent);
                self.nodes.push(n);
                proof {
                    lemma_move_preserves_unique(old(self).nodes@, ci as int, reparented(
                        old(self).nodes@[ci as int],
                        parent,
                    ));
                }
            },
        }
    }

    /// Sets the interaction state the host's hit-testing resolved for the
    /// node this frame, and flags the change for the change-filtered
    /// systems. A missing id leaves the store unchanged.
    pub fn set_interaction(&mut self, id: u64, interaction: Interaction)
        requires
            old(self).wf(),
        ensures
            final(self).wf(),
            final(self).next_id == old(self).next_id,
            final(self).nodes@ == set_interaction_spec(old(self).nodes@, id, interaction),
    {
        match self.find(id) {
            None => {},
            Some(i) => {
                let mut n = self.nodes.remove(i);
                n.interaction = interaction;
                n.interaction_changed = true;
                self.nodes.insert(i, n);
                proof {
                    let s = old(self).nodes@;
                    let n2 = UiNode { interaction, interaction_changed: true, ..s[i as int] };
                    assert(self.nodes@ =~= s.update(i as int, n2));
                    lemma_update_preserves_unique(s, i as int, n2);
                }
            },
        }
    }

    /// Whether the parent chain from `x` reaches `target` within as many
    /// steps as there are nodes. A chain corrupted into a cycle that never
    /// touches `target` simply exhausts the bound.
    pub fn chain_reaches(&self, x: u64, target: u64) -> (r: bool)
        ensures
            r == reaches(self.nodes@, x, target, self.nodes@.len() as nat),
    {
        let mut cur = x;
        let mut fuel = self.nodes.len();
        loop
            invariant
                reaches(self.nodes@, x, target, self.nodes@.len() as nat) == reaches(
                    self.nodes@,
                    cur,
                    target,
                    fuel as nat,
                ),
            decreases fuel,
        {
            if cur == target {
                return true;
            }
            if fuel == 0 {
                return false;
            }
            match self.find(cur) {
                None => {
                    return false;
                },
                Some(i) => {
                    match self.nodes[i].parent {
                        None => {
                            return false;
                        },
                        Some(p) => {
                            cur = p;
                            fuel = fuel - 1;
                        },
                    }
                },
            }
        }
    }

    /// Destroys the entity `target` and, recursively, every entity whose
    /// parent chain leads to it; the survivors keep their order. A missing
    /// target id removes nothing.
    pub fn despawn_recursive(&mut self, target: u64)
        requires
            old(self).wf(),
        ensures
            final(self).wf(),
            final(self).next_id == old(self).next_id,
            final(self).nodes@ == despawn_spec(old(self).nodes@, target),
    {
        let ghost s0 = self.nodes@;
        let n = self.nodes.len();
        let mut keep: Vec<bool> = Vec::new();
        let mut i: usize = 0;
        while i < n
            invariant
                n == self.nodes@.len(),
                self.nodes@ == s0,
                i <= n,
                keep@.len() == i,
                forall|k: int|
                    0 <= k < i ==> keep@[k] == !reaches(s0, s0[k].id, target, s0.len() as nat),
            decreases n - i,
        {
            let r = self.chain_reaches(self.nodes[i].id, target);
            keep.push(!r);
            i = i + 1;
        }
        let mut out: Vec<UiNode> = Vec::new();
        let mut j: usize = 0;
        while j < n
            invariant
                n == s0.len(),
                keep@.len() == n,
                forall|k: int|
                    0 <= k < n ==> keep@[k] == !reaches(s0, s0[k].id, target, s0.len() as nat),
                j <= n,
                self.next_id == old(self).next_id,
                self.nodes@ =~= s0.subrange(j as int, n as int),
                out@ == surviving(s0, s0.subrange(0, j as int), target),
            decreases n - j,
        {
            let nd = self.nodes.remove(0);
            proof {
                assert(nd == s0[j as int]);
                assert(self.nodes@ =~= s0.subrange(j as int + 1, n as int));
                let pre = s0.subrange(0, j as int + 1);
                assert(pre.drop_last() =~= s0.subrange(0, j as int));
                assert(pre.last() == s0[j as int]);
            }
            if keep[j] {
                out.push(nd);
            }
            j = j + 1;
        }
        proof {
            assert(s0.subrange(0, n as int) =~= s0);
        }
        self.nodes = out;
        proof {
            lemma_surviving_wf(s0, s0, target, old(self).next_id);
        }
    }
}

impl UiWorld {
    /// The number of live entities.
    pub fn node_count(&self) -> (r: usize)
        ensures
            r == self.nodes@.len(),
    {
        self.nodes.len()
    }

    /// The ordered child list of `parent`, topmost-painted last.
    pub fn children_of(&self, parent: u64) -> (r: Vec<u64>)
        ensures
            r@ == children_of(self.nodes@, parent),
    {
        let ghost s0 = self.nodes@;
        let mut xs: Vec<u64> = Vec::new();
        let mut i: usize = 0;
        while i < self.nodes.len()
            invariant
                i <= s0.len(),
                self.nodes@ == s0,
                xs@ == children_of(s0.subrange(0, i as int), parent),
            decreases s0.len() - i,
        {
            let is_child = match self.nodes[i].parent {
                Some(p) => p == parent,
                None => false,
            };
            if is_child {
                let id = self.nodes[i].id;
                xs.push(id);
            }
            i = i + 1;
            proof {
                let pre = s0.subrange(0, i as int);
                assert(pre.drop_last() =~= s0.subrange(0, i as int - 1));
                assert(pre.last() == s0[i as int - 1]);
            }
        }
        proof {
            assert(s0.subrange(0, s0.len() as int) =~= s0);
        }
        xs
    }

    /// The node's parent link: `None` for a missing or parentless entity.
    pub fn node_parent(&self, id: u64) -> (r: Option<u64>)
        ensures
            r == if has_node(self.nodes@, id) {
                node_of(self.nodes@, id).parent
            } else {
                None
            },
    {
        match self.find(id) {
            Some(j) => self.nodes[j].parent,
            None => None,
        }
    }

    /// The node's layout style slice, if the entity exists.
    pub fn node_style(&self, id: u64) -> (r: Option<Style>)
        ensures
            r == if has_node(self.nodes@, id) {
                Some(node_of(self.nodes@, id).style)
            } else {
                None::<Style>
            },
    {
        match self.find(id) {
            Some(j) => Some(self.nodes[j].style),
            None => None,
        }
    }

    /// The node's paint color, if the entity exists.
    pub fn node_color(&self, id: u64) -> (r: Option<Color>)
        ensures
            r == if has_node(self.nodes@, id) {
                Some(node_of(self.nodes@, id).color)
            } else {
                None::<Color>
            },
    {
        match self.find(id) {
            Some(j) => Some(self.nodes[j].color),
            None => None,
        }
    }

    /// The logical position of the panel carried by `id`, if any.
    pub fn panel_position(&self, id: u64) -> (r: Option<crate::geom::Vec2i>)
        ensures
            r == if has_node(self.nodes@, id) && node_of(self.nodes@, id).panel is Some {
                Some(node_of(self.nodes@, id).panel->Some_0.spec_position())
            } else {
                None::<crate::geom::Vec2i>
            },
    {
        match self.find(id) {
            Some(j) => match &self.nodes[j].panel {
                Some(p) => Some(p.position()),
                None => None,
            },
            None => None,
        }
    }

    /// The mouse offset of the panel's drag record: `Some` exactly while
    /// the panel is being dragged.
    pub fn panel_drag_offset(&self, id: u64) -> (r: Option<crate::geom::Vec2i>)
        ensures
            r == if has_node(self.nodes@, id) && node_of(self.nodes@, id).panel is Some && node_of(
                self.nodes@,
                id,
            ).panel->Some_0.drag_state is Some {
                Some(node_of(self.nodes@, id).panel->Some_0.drag_state->Some_0.mouse_offset)
            } else {
                None::<crate::geom::Vec2i>
            },
    {
        match self.find(id) {
            Some(j) => match &self.nodes[j].panel {
                Some(p) => match &p.drag_state {
                    Some(ds) => Some(ds.mouse_offset),
                    None => None,
                },
                None => None,
            },
            None => None,
        }
    }

    /// Whether the entity carries the titlebar marker.
    pub fn has_titlebar(&self, id: u64) -> (r: bool)
        ensures
            r == (has_node(self.nodes@, id) && node_of(self.nodes@, id).titlebar is Some),
    {
        match self.find(id) {
            Some(j) => self.nodes[j].titlebar.is_some(),
            None => false,
        }
    }

    /// Whether the entity carries the content marker.
    pub fn has_content(&self, id: u64) -> (r: bool)
        ensures
            r == (has_node(self.nodes@, id) && node_of(self.nodes@, id).content is Some),
    {
        match self.find(id) {
            Some(j) => self.nodes[j].content.is_some(),
            None => false,
        }
    }

    /// Whether the entity carries a button component.
    pub fn has_button(&self, id: u64) -> (r: bool)
        ensures
            r == (has_node(self.nodes@, id) && node_of(self.nodes@, id).button is Some),
    {
        match self.find(id) {
            Some(j) => self.nodes[j].button.is_some(),
            None => false,
        }
    }
}

/// The store after the host reports a new interaction state for `id`: that
/// node's interaction replaced and its change flag set.
pub open spec fn set_interaction_spec(s: Seq<UiNode>, id: u64, interaction: Interaction) -> Seq<
    UiNode,
> {
    let i = idx_of(s, id);
    if i < 0 {
        s
    } else {
        s.update(i, UiNode { interaction, interaction_changed: true, ..s[i] })
    }
}

/// Surviving nodes keep unique, bounded ids.
pub proof fn lemma_surviving_wf(s: Seq<UiNode>, prefix: Seq<UiNode>, target: u64, bound: u64)
    requires
        unique_ids(prefix),
        forall|k: int| 0 <= k < prefix.len() ==> (#[trigger] prefix[k]).id < bound,
    ensures
        unique_ids(surviving(s, prefix, target)),
        forall|k: int|
            0 <= k < surviving(s, prefix, target).len() ==> (#[trigger] surviving(
                s,
                prefix,
                target,
            )[k]).id < bound,
        forall|k: int|
            0 <= k < surviving(s, prefix, target).len() ==> prefix.contains(
                #[trigger] surviving(s, prefix, target)[k],
            ),
    decreases prefix.len(),
{
    if prefix.len() > 0 {
        let pre = prefix.drop_last();
        assert(unique_ids(pre)) by {
            assert forall|i: int, j: int|
                #![trigger pre[i], pre[j]]
                0 <= i < j < pre.len() implies pre[i].id != pre[j].id by {
                assert(pre[i] == prefix[i]);
                assert(pre[j] == prefix[j]);
            }
        }
        lemma_surviving_wf(s, pre, target, bound);
        let res = surviving(s, prefix, target);
        let rest = surviving(s, pre, target);
        assert forall|k: int| 0 <= k < pre.len() implies prefix.contains(#[trigger] pre[k]) by {
            assert(prefix[k] == pre[k]);
        }
        if !reaches(s, prefix.last().id, target, s.len() as nat) {
            // the appended node's id differs from every id already present
            assert forall|i: int, j: int|
                #![trigger res[i], res[j]]
                0 <= i < j < res.len() implies res[i].id != res[j].id by {
                if j < res.len() - 1 {
                } else {
                    assert(res[j] == prefix.last());
                    assert(rest.contains(res[i]));
                    let w = choose|w: int| 0 <= w < pre.len() && pre[w] == res[i];
                    assert(prefix[w] == res[i]);
                    assert(prefix[prefix.len() - 1] == prefix.last());
                }
            }
            assert forall|k: int| 0 <= k < res.len() implies prefix.contains(#[trigger] res[k]) by {
                if k < res.len() - 1 {
                    assert(pre.contains(res[k]));
                    let w = choose|w: int| 0 <= w < pre.len() && pre[w] == res[k];
                    assert(prefix[w] == res[k]);
                } else {
                    assert(res[k] == prefix[prefix.len() - 1]);
                }
            }
        } else {
            assert forall|k: int| 0 <= k < res.len() implies prefix.contains(#[trigger] res[k]) by {
                assert(pre.contains(res[k]));
                let w = choose|w: int| 0 <= w < pre.len() && pre[w] == res[k];
                assert(prefix[w] == res[k]);
            }
        }
    }
}

} // verus!
