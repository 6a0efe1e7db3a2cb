//! A draggable, closable floating-panel widget set for a host game engine's
//! entity/layout/input runtime. The host engine owns rendering, layout and
//! input resolution; this crate owns the panel logic: building a panel's node
//! hierarchy, reparenting fresh panels under a single root container, the
//! titlebar grab/drag/release state machine with raise-to-top on grab, the
//! per-frame projection of panel positions into layout styles, and the Close
//! button's ancestor walk and recursive despawn. The logic runs against a
//! modeled entity store; a thin adapter feeds it from the host engine.

pub mod buttons;
pub mod geom;
pub mod style;
pub mod util;
pub mod world;
pub mod laws;

use vstd::prelude::*;
use crate::geom::{add_fits, sub_fits, Vec2i};
use crate::world::{
    add_child_spec, despawn_spec, idx_of, unique_ids, UiNode, UiWorld,
};
use crate::util::{climb_spec, UiMarker};
use crate::buttons::UiPanelButton;
use crate::style::Interaction;

verus! {

/// Marks the child node of a panel root that is its drag handle and the
/// click target for raising: the titlebar is always a direct child of the
/// panel root.
#[derive(Clone, Copy, Debug, PartialEq, Eq, Structural)]
pub struct UiPanelTitlebar;

/// Marks the content container of a panel, the node callers attach their
/// own body content under.
#[derive(Clone, Copy, Debug, PartialEq, Eq, Structural)]
pub struct UiPanelContent;

/// The transient drag record of a panel: the fixed offset between the panel
/// position and the cursor at grab time. Present only while the titlebar is
/// held; while present, the panel position is recomputed each frame as
/// cursor plus this offset, so the panel moves rigidly with the cursor.
#[derive(Clone, Copy, Debug, PartialEq, Eq, Structural)]
pub struct UiPanelDragState {
    pub mouse_offset: Vec2i,
}

/// The kind of a panel; the one kind so far is a floating window with a
/// logical position in UI coordinates.
#[derive(Clone, Copy, Debug, PartialEq, Eq, Structural)]
pub enum UiPanelType {
    Window { position: Vec2i },
}

/// The state of one floating panel: its titlebar text, whether it carries a
/// Close button, its kind with the logical position, and the transient drag
/// record, present exactly while the titlebar is grabbed.
#[derive(Debug, PartialEq, Eq)]
pub struct UiPanel {
    pub title: String,
    pub can_close: bool,
    pub panel_type: UiPanelType,
    pub drag_state: Option<UiPanelDragState>,
}

impl UiPanel {
    /// The panel's logical position.
    pub open spec fn spec_position(self) -> Vec2i {
        match self.panel_type {
            UiPanelType::Window { position } => position,
        }
    }

    pub fn position(&self) -> (r: Vec2i)
        ensures
            r == self.spec_position(),
    {
        match self.panel_type {
            UiPanelType::Window { position } => position,
        }
    }

    pub open spec fn dragging(self) -> bool {
        self.drag_state is Some
    }

    /// The panel after a grab at `cursor`: the drag record holds exactly
    /// position minus cursor. If that difference does not fit the
    /// coordinate type, the grab is skipped and the panel is unchanged.
    pub open spec fn after_grab(self, cursor: Vec2i) -> UiPanel {
        if sub_fits(self.spec_position(), cursor) {
            UiPanel {
                drag_state: Some(
                    UiPanelDragState {
                        mouse_offset: Vec2i {
                            x: (self.spec_position().x - cursor.x) as i64,
                            y: (self.spec_position().y - cursor.y) as i64,
                        },
                    },
                ),
                ..self
            }
        } else {
            self
        }
    }

    /// The panel after a release: the drag record cleared, all else kept.
    pub open spec fn after_release(self) -> UiPanel {
        UiPanel { drag_state: None, ..self }
    }

    /// The panel after one dragging step at `cursor`: while the drag record
    /// is present, the position becomes exactly cursor plus the recorded
    /// offset; a panel not being dragged is untouched, as is one whose new
    /// position would not fit the coordinate type.
    pub open spec fn after_drag(self, cursor: Vec2i) -> UiPanel {
        match self.drag_state {
            Option::None => self,
            Option::Some(ds) => {
                if add_fits(cursor, ds.mouse_offset) {
                    UiPanel {
                        panel_type: UiPanelType::Window {
                            position: Vec2i {
                                x: (cursor.x + ds.mouse_offset.x) as i64,
                                y: (cursor.y + ds.mouse_offset.y) as i64,
                            },
                        },
                        ..self
                    }
                } else {
                    self
                }
            },
        }
    }

    /// The panel after its titlebar's interaction state changed to `i` with
    /// the cursor at `cursor`: a transition to pressed grabs; a transition
    /// away from pressed releases if a drag was in progress; anything else
    /// leaves the panel alone.
    pub open spec fn after_titlebar_change(self, i: crate::style::Interaction, cursor: Vec2i) -> UiPanel {
        match i {
            crate::style::Interaction::Pressed => self.after_grab(cursor),
            _ => {
                if self.drag_state is Some {
                    self.after_release()
                } else {
                    self
                }
            },
        }
    }

    pub fn new(title: String, can_close: bool, position: Vec2i) -> (r: UiPanel)
        ensures
            r.title == title,
            r.can_close == can_close,
            r.panel_type == (UiPanelType::Window { position }),
            r.drag_state is None,
    {
        UiPanel { title, can_close, panel_type: UiPanelType::Window { position }, drag_state: None }
    }

    /// Begins a drag: records position minus cursor as the mouse offset.
    pub fn grab(&mut self, cursor: Vec2i)
        ensures
            *final(self) == old(self).after_grab(cursor),
    {
        match self.position().checked_sub(cursor) {
            Some(offset) => {
                self.drag_state = Some(UiPanelDragState { mouse_offset: offset });
            },
            None => {},
        }
    }

    /// Ends a drag: clears the drag record.
    pub fn release(&mut self)
        ensures
            *final(self) == old(self).after_release(),
    {
        self.drag_state = None;
    }

    /// One dragging step: while dragging, moves the panel to cursor plus
    /// the recorded offset.
    pub fn drag_to(&mut self, cursor: Vec2i)
        ensures
            *final(self) == old(self).after_drag(cursor),
    {
        let offset = match &self.drag_state {
            Some(ds) => ds.mouse_offset,
            None => {
                return;
            },
        };
        match cursor.checked_add(offset) {
            Some(position) => {
                self.panel_type = UiPanelType::Window { position };
            },
            None => {},
        }
    }

    /// Applies one observed change of the titlebar's interaction state.
    pub fn apply_titlebar_change(&mut self, i: &crate::style::Interaction, cursor: Vec2i)
        ensures
            *final(self) == old(self).after_titlebar_change(*i, cursor),
    {
        match i {
            crate::style::Interaction::Pressed => self.grab(cursor),
            _ => {
                if self.drag_state.is_some() {
                    self.release();
                }
            },
        }
    }
}

/// The ids of the panels that have no parent yet, in store (creation)
/// order: the ones the parenting pass will attach under the root container.
pub open spec fn unparented_panels(s: Seq<UiNode>) -> Seq<u64>
    decreases s.len(),
{
    if s.len() == 0 {
        Seq::empty()
    } else {
        let rest = unparented_panels(s.drop_last());
        if s.last().panel is Some && s.last().parent is None {
            rest.push(s.last().id)
        } else {
            rest
        }
    }
}

/// The ids of the root-container nodes, in store order; the systems act
/// only when exactly one exists.
pub open spec fn root_ids(s: Seq<UiNode>) -> Seq<u64>
    decreases s.len(),
{
    if s.len() == 0 {
        Seq::empty()
    } else {
        let rest = root_ids(s.drop_last());
        if s.last().panel_parent {
            rest.push(s.last().id)
        } else {
            rest
        }
    }
}

/// The single root container, if exactly one exists. Zero or several make
/// the panel systems opt out silently for the frame: absence and
/// duplication are recoverable by waiting for correct setup, not faults.
pub open spec fn sole_root(s: Seq<UiNode>) -> Option<u64> {
    if root_ids(s).len() == 1 {
        Some(root_ids(s)[0])
    } else {
        None
    }
}

/// The ids of the titlebars whose interaction state changed this frame, in
/// store order: the grab/drop pass processes exactly these.
pub open spec fn changed_titlebars(s: Seq<UiNode>) -> Seq<u64>
    decreases s.len(),
{
    if s.len() == 0 {
        Seq::empty()
    } else {
        let rest = changed_titlebars(s.drop_last());
        if s.last().titlebar is Some && s.last().interaction_changed {
            rest.push(s.last().id)
        } else {
            rest
        }
    }
}

/// Attaching each id of `xs` in turn as the last child of `r`.
pub open spec fn attach_all_spec(s: Seq<UiNode>, xs: Seq<u64>, r: u64) -> Seq<UiNode>
    decreases xs.len(),
{
    if xs.len() == 0 {
        s
    } else {
        attach_all_spec(add_child_spec(s, r, xs[0]), xs.subrange(1, xs.len() as int), r)
    }
}

pub proof fn lemma_attach_all_snoc(s: Seq<UiNode>, xs: Seq<u64>, x: u64, r: u64)
    ensures
        attach_all_spec(s, xs.push(x), r) == add_child_spec(attach_all_spec(s, xs, r), r, x),
    decreases xs.len(),
{
    if xs.len() == 0 {
        assert(xs.push(x)[0] == x);
        assert(xs.push(x).subrange(1, 1) =~= Seq::<u64>::empty());
        assert(attach_all_spec(s, xs.push(x), r) == attach_all_spec(
            add_child_spec(s, r, x),
            Seq::<u64>::empty(),
            r,
        ));
        assert(attach_all_spec(add_child_spec(s, r, x), Seq::<u64>::empty(), r) == add_child_spec(
            s,
            r,
            x,
        ));
    } else {
        let tail = xs.subrange(1, xs.len() as int);
        assert(xs.push(x)[0] == xs[0]);
        assert(xs.push(x).subrange(1, xs.len() as int + 1) =~= tail.push(x));
        assert(attach_all_spec(s, xs.push(x), r) == attach_all_spec(
            add_child_spec(s, r, xs[0]),
            tail.push(x),
            r,
        ));
        assert(attach_all_spec(s, xs, r) == attach_all_spec(add_child_spec(s, r, xs[0]), tail, r));
        lemma_attach_all_snoc(add_child_spec(s, r, xs[0]), tail, x, r);
    }
}

/// The store after one parenting pass: every parentless panel is attached
/// as a child of the single root container, in creation order; with no such
/// panel, or without exactly one root, nothing changes.
pub open spec fn parenting_spec(s: Seq<UiNode>) -> Seq<UiNode> {
    if unparented_panels(s).len() == 0 {
        s
    } else {
        match sole_root(s) {
            Option::None => s,
            Option::Some(r) => attach_all_spec(s, unparented_panels(s), r),
        }
    }
}

/// One panel node after the dragging pass at cursor `c`.
pub open spec fn drag_node_spec(n: UiNode, c: Vec2i) -> UiNode {
    match n.panel {
        Option::None => n,
        Option::Some(p) => UiNode { panel: Some(p.after_drag(c)), ..n },
    }
}

/// The store after the dragging pass: with a cursor on screen, every
/// dragging panel moves to cursor plus its recorded offset; without one,
/// drags freeze for the frame rather than jump to a stale position.
pub open spec fn drag_system_spec(s: Seq<UiNode>, cursor: Option<Vec2i>) -> Seq<UiNode> {
    match cursor {
        Option::None => s,
        Option::Some(c) => s.map_values(|n: UiNode| drag_node_spec(n, c)),
    }
}

/// One node after the style-sync pass: a panel's logical position is
/// written into its style's absolute left/top offsets; other nodes are
/// untouched.
pub open spec fn sync_node_spec(n: UiNode) -> UiNode {
    match n.panel {
        Option::None => n,
        Option::Some(p) => UiNode { style: n.style.with_offsets(p.spec_position()), ..n },
    }
}

/// The store after the style-sync pass: a pure projection of panel
/// positions into styles.
pub open spec fn sync_system_spec(s: Seq<UiNode>) -> Seq<UiNode> {
    s.map_values(|n: UiNode| sync_node_spec(n))
}

/// A node with its change flag lowered: the end-of-frame state.
pub open spec fn clear_changed_node(n: UiNode) -> UiNode {
    UiNode { interaction_changed: false, ..n }
}

pub open spec fn clear_changed_spec(s: Seq<UiNode>) -> Seq<UiNode> {
    s.map_values(|n: UiNode| clear_changed_node(n))
}

impl UiWorld {
    /// One startup pass: spawns the single root container that every panel
    /// is reparented under, a full-window transparent node. Returns its id.
    pub fn setup(&mut self) -> (id: u64)
        requires
            old(self).wf(),
            old(self).next_id < u64::MAX,
        ensures
            final(self).wf(),
            id == old(self).next_id,
            final(self).next_id == old(self).next_id + 1,
            final(self).nodes@ == old(self).nodes@.push(root_container_node(id)),
    {
        let mut style = crate::style::Style::base();
        style.width = crate::style::Val::Percent(100);
        style.height = crate::style::Val::Percent(100);
        let node = UiNode {
            id: 0,
            parent: None,
            style,
            color: crate::style::Color::none(),
            interaction: Interaction::Idle,
            interaction_changed: false,
            panel: None,
            titlebar: None,
            content: None,
            panel_parent: true,
            button: None,
            text: None,
        };
        self.spawn_node(node)
    }

    /// Collects the parentless panel ids, in store order.
    fn collect_unparented_panels(&self) -> (r: Vec<u64>)
        ensures
            r@ == unparented_panels(self.nodes@),
    {
        let ghost s0 = self.nodes@;
        let mut xs: Vec<u64> = Vec::new();
        let mut i: usize = 0;
        while i < self.nodes.len()
            invariant
                i <= s0.len(),
                self.nodes@ == s0,
                xs@ == unparented_panels(s0.subrange(0, i as int)),
            decreases s0.len() - i,
        {
            let nd = &self.nodes[i];
            if nd.panel.is_some() && nd.parent.is_none() {
                xs.push(nd.id);
            }
            i = i + 1;
            proof {
                let pre = s0.subrange(0, i as int);
                assert(pre.drop_last() =~= s0.subrange(0, i as int - 1));
                assert(pre.last() == s0[i as int - 1]);
            }
        }
        proof {
            assert(s0.subrange(0, s0.len() as int) =~= s0);
        }
        xs
    }

    /// Collects the root-container ids, in store order.
    fn collect_roots(&self) -> (r: Vec<u64>)
        ensures
            r@ == root_ids(self.nodes@),
    {
        let ghost s0 = self.nodes@;
        let mut xs: Vec<u64> = Vec::new();
        let mut i: usize = 0;
        while i < self.nodes.len()
            invariant
                i <= s0.len(),
                self.nodes@ == s0,
                xs@ == root_ids(s0.subrange(0, i as int)),
            decreases s0.len() - i,
        {
            if self.nodes[i].panel_parent {
                let id = self.nodes[i].id;
                xs.push(id);
            }
            i = i + 1;
            proof {
                let pre = s0.subrange(0, i as int);
                assert(pre.drop_last() =~= s0.subrange(0, i as int - 1));
                assert(pre.last() == s0[i as int - 1]);
            }
        }
        proof {
            assert(s0.subrange(0, s0.len() as int) =~= s0);
        }
        xs
    }

    /// Collects the ids of titlebars whose interaction changed this frame.
    fn collect_changed_titlebars(&self) -> (r: Vec<u64>)
        ensures
            r@ == changed_titlebars(self.nodes@),
    {
        let ghost s0 = self.nodes@;
        let mut xs: Vec<u64> = Vec::new();
        let mut i: usize = 0;
        while i < self.nodes.len()
            invariant
                i <= s0.len(),
                self.nodes@ == s0,
                xs@ == changed_titlebars(s0.subrange(0, i as int)),
            decreases s0.len() - i,
        {
            let nd = &self.nodes[i];
            if nd.titlebar.is_some() && nd.interaction_changed {
                xs.push(nd.id);
            }
            i = i + 1;
            proof {
                let pre = s0.subrange(0, i as int);
                assert(pre.drop_last() =~= s0.subrange(0, i as int - 1));
                assert(pre.last() == s0[i as int - 1]);
            }
        }
        proof {
            assert(s0.subrange(0, s0.len() as int) =~= s0);
        }
        xs
    }

    /// The parenting pass: finds all panel entities lacking a parent and
    /// attaches them as children of the single root container, preserving
    /// creation order. A no-op when no such panel exists, and — silently —
    /// when zero or several root containers exist.
    pub fn panel_parenting(&mut self)
        requires
            old(self).wf(),
        ensures
            final(self).wf(),
            final(self).next_id == old(self).next_id,
            final(self).nodes@ == parenting_spec(old(self).nodes@),
    {
        let ghost s0 = self.nodes@;
        let xs = self.collect_unparented_panels();
        if xs.len() == 0 {
            return;
        }
        let roots = self.collect_roots();
        if roots.len() != 1 {
            return;
        }
        let r = roots[0];
        let mut k: usize = 0;
        while k < xs.len()
            invariant
                old(self).wf(),
                self.wf(),
                k <= xs@.len(),
                self.next_id == old(self).next_id,
                xs@ == unparented_panels(s0),
                xs@.len() > 0,
                root_ids(s0).len() == 1,
                r == root_ids(s0)[0],
                s0 == old(self).nodes@,
                self.nodes@ == attach_all_spec(s0, xs@.subrange(0, k as int), r),
            decreases xs@.len() - k,
        {
            let x = xs[k];
            self.add_child(r, x);
            k = k + 1;
            proof {
                assert(xs@.subrange(0, k as int) =~= xs@.subrange(0, k as int - 1).push(x));
                lemma_attach_all_snoc(s0, xs@.subrange(0, k as int - 1), x, r);
            }
        }
        proof {
            assert(xs@.subrange(0, xs@.len() as int) =~= xs@);
        }
    }

    /// The dragging pass: every frame, every panel holding a drag record
    /// moves to the cursor position plus its recorded offset; panels with
    /// no drag record are untouched. With no cursor available this frame,
    /// drags freeze rather than jump.
    pub fn panel_dragging(&mut self, cursor: Option<Vec2i>)
        requires
            old(self).wf(),
        ensures
            final(self).wf(),
            final(self).next_id == old(self).next_id,
            final(self).nodes@ == drag_system_spec(old(self).nodes@, cursor),
    {
        let c = match cursor {
            Some(c) => c,
            None => {
                return;
            },
        };
        let ghost s0 = self.nodes@;
        let mut i: usize = 0;
        while i < self.nodes.len()
            invariant
                i <= s0.len(),
                self.nodes@.len() == s0.len(),
                self.next_id == old(self).next_id,
                old(self).wf(),
                s0 == old(self).nodes@,
                forall|k: int| 0 <= k < i ==> self.nodes@[k] == drag_node_spec(s0[k], c),
                forall|k: int| i <= k < s0.len() ==> self.nodes@[k] == s0[k],
            decreases s0.len() - i,
        {
            if self.nodes[i].panel.is_some() {
                let ghost scur = self.nodes@;
                let mut nd = self.nodes.remove(i);
                let mut p = nd.panel.take().unwrap();
                p.drag_to(c);
                nd.panel = Some(p);
                self.nodes.insert(i, nd);
                proof {
                    assert(self.nodes@ =~= scur.update(i as int, drag_node_spec(s0[i as int], c)));
                }
            }
            i = i + 1;
        }
        proof {
            assert(self.nodes@ =~= s0.map_values(|n: UiNode| drag_node_spec(n, c)));
            assert forall|a: int, b: int|
                #![trigger self.nodes@[a], self.nodes@[b]]
                0 <= a < b < self.nodes@.len() implies self.nodes@[a].id != self.nodes@[b].id by {
                assert(self.nodes@[a].id == s0[a].id);
                assert(self.nodes@[b].id == s0[b].id);
            }
            assert forall|k: int| 0 <= k < self.nodes@.len() implies (#[trigger] self.nodes@[k]).id
                < self.next_id by {
                assert(self.nodes@[k].id == s0[k].id);
            }
        }
    }

    /// The style-sync pass: every frame, every panel's logical position is
    /// written into its layout style's absolute left/top offsets. A pure,
    /// idempotent projection with no other effect, kept separate from
    /// dragging so that positions set by other means are reflected too.
    pub fn panel_updating(&mut self)
        requires
            old(self).wf(),
        ensures
            final(self).wf(),
            final(self).next_id == old(self).next_id,
            final(self).nodes@ == sync_system_spec(old(self).nodes@),
    {
        let ghost s0 = self.nodes@;
        let mut i: usize = 0;
        while i < self.nodes.len()
            invariant
                i <= s0.len(),
                self.nodes@.len() == s0.len(),
                self.next_id == old(self).next_id,
                old(self).wf(),
                s0 == old(self).nodes@,
                forall|k: int| 0 <= k < i ==> self.nodes@[k] == sync_node_spec(s0[k]),
                forall|k: int| i <= k < s0.len() ==> self.nodes@[k] == s0[k],
            decreases s0.len() - i,
        {
            if self.nodes[i].panel.is_some() {
                let ghost scur = self.nodes@;
                let mut nd = self.nodes.remove(i);
                let position = match &nd.panel {
                    Some(p) => p.position(),
                    None => Vec2i { x: 0, y: 0 },
                };
                nd.style.left = crate::style::Val::Px(position.x);
                nd.style.top = crate::style::Val::Px(position.y);
                self.nodes.insert(i, nd);
                proof {
                    assert(self.nodes@ =~= scur.update(i as int, sync_node_spec(s0[i as int])));
                }
            }
            i = i + 1;
        }
        proof {
            assert(self.nodes@ =~= s0.map_values(|n: UiNode| sync_node_spec(n)));
            assert forall|a: int, b: int|
                #![trigger self.nodes@[a], self.nodes@[b]]
                0 <= a < b < self.nodes@.len() implies self.nodes@[a].id != self.nodes@[b].id by {
                assert(self.nodes@[a].id == s0[a].id);
                assert(self.nodes@[b].id == s0[b].id);
            }
            assert forall|k: int| 0 <= k < self.nodes@.len() implies (#[trigger] self.nodes@[k]).id
                < self.next_id by {
                assert(self.nodes@[k].id == s0[k].id);
            }
        }
    }

    /// Lowers every node's interaction-change flag: the end-of-frame step
    /// that makes "changed" mean "changed since the previous frame".
    pub fn clear_interaction_changed(&mut self)
        requires
            old(self).wf(),
        ensures
            final(self).wf(),
            final(self).next_id == old(self).next_id,
            final(self).nodes@ == clear_changed_spec(old(self).nodes@),
    {
        let ghost s0 = self.nodes@;
        let mut i: usize = 0;
        while i < self.nodes.len()
            invariant
                i <= s0.len(),
                self.nodes@.len() == s0.len(),
                self.next_id == old(self).next_id,
                old(self).wf(),
                s0 == old(self).nodes@,
                forall|k: int| 0 <= k < i ==> self.nodes@[k] == clear_changed_node(s0[k]),
                forall|k: int| i <= k < s0.len() ==> self.nodes@[k] == s0[k],
            decreases s0.len() - i,
        {
            let ghost scur = self.nodes@;
            let mut nd = self.nodes.remove(i);
            nd.interaction_changed = false;
            self.nodes.insert(i, nd);
            proof {
                assert(self.nodes@ =~= scur.update(i as int, clear_changed_node(s0[i as int])));
            }
            i = i + 1;
        }
        proof {
            assert(self.nodes@ =~= s0.map_values(|n: UiNode| clear_changed_node(n)));
            assert forall|a: int, b: int|
                #![trigger self.nodes@[a], self.nodes@[b]]
                0 <= a < b < self.nodes@.len() implies self.nodes@[a].id != self.nodes@[b].id by {
                assert(self.nodes@[a].id == s0[a].id);
                assert(self.nodes@[b].id == s0[b].id);
            }
            assert forall|k: int| 0 <= k < self.nodes@.len() implies (#[trigger] self.nodes@[k]).id
                < self.next_id by {
                assert(self.nodes@[k].id == s0[k].id);
            }
        }
    }
}

/// The node `n` carrying panel state `p`.
pub open spec fn with_panel(n: UiNode, p: UiPanel) -> UiNode {
    UiNode { panel: Some(p), ..n }
}

/// The store after processing one changed titlebar `t_id` at cursor `c`,
/// with `r` the single root container. The titlebar's panel is its direct
/// parent; the panel must currently be a child of the root. A transition to
/// pressed grabs the panel and raises it to the top of the root's child
/// list (the end of the store); a transition away from pressed releases a
/// held panel; anything else is a no-op, as is any malformed chain.
pub open spec fn grab_one_spec(s: Seq<UiNode>, t_id: u64, c: Vec2i, r: u64) -> Seq<UiNode> {
    let ti = idx_of(s, t_id);
    if ti < 0 {
        s
    } else {
        match s[ti].parent {
            Option::None => s,
            Option::Some(pid) => {
                let pi = idx_of(s, pid);
                if pi < 0 {
                    s
                } else {
                    match s[pi].panel {
                        Option::None => s,
                        Option::Some(panel) => {
                            if s[pi].parent != Some(r) {
                                s
                            } else {
                                match s[ti].interaction {
                                    Interaction::Pressed => add_child_spec(
                                        s.update(pi, with_panel(s[pi], panel.after_grab(c))),
                                        r,
                                        pid,
                                    ),
                                    _ => {
                                        if panel.drag_state is Some {
                                            s.update(pi, with_panel(s[pi], panel.after_release()))
                                        } else {
                                            s
                                        }
                                    },
                                }
                            }
                        },
                    }
                }
            },
        }
    }
}

/// Processing each changed titlebar of `ts` in turn.
pub open spec fn grab_all_spec(s: Seq<UiNode>, ts: Seq<u64>, c: Vec2i, r: u64) -> Seq<UiNode>
    decreases ts.len(),
{
    if ts.len() == 0 {
        s
    } else {
        grab_all_spec(grab_one_spec(s, ts[0], c, r), ts.subrange(1, ts.len() as int), c, r)
    }
}

pub proof fn lemma_grab_all_snoc(s: Seq<UiNode>, ts: Seq<u64>, t: u64, c: Vec2i, r: u64)
    ensures
        grab_all_spec(s, ts.push(t), c, r) == grab_one_spec(grab_all_spec(s, ts, c, r), t, c, r),
    decreases ts.len(),
{
    if ts.len() == 0 {
        assert(ts.push(t)[0] == t);
        assert(ts.push(t).subrange(1, 1) =~= Seq::<u64>::empty());
        assert(grab_all_spec(s, ts.push(t), c, r) == grab_all_spec(
            grab_one_spec(s, t, c, r),
            Seq::<u64>::empty(),
            c,
            r,
        ));
        assert(grab_all_spec(grab_one_spec(s, t, c, r), Seq::<u64>::empty(), c, r) == grab_one_spec(
            s,
            t,
            c,
            r,
        ));
    } else {
        let tail = ts.subrange(1, ts.len() as int);
        assert(ts.push(t)[0] == ts[0]);
        assert(ts.push(t).subrange(1, ts.len() as int + 1) =~= tail.push(t));
        assert(grab_all_spec(s, ts.push(t), c, r) == grab_all_spec(
            grab_one_spec(s, ts[0], c, r),
            tail.push(t),
            c,
            r,
        ));
        assert(grab_all_spec(s, ts, c, r) == grab_all_spec(grab_one_spec(s, ts[0], c, r), tail, c, r));
        lemma_grab_all_snoc(grab_one_spec(s, ts[0], c, r), tail, t, c, r);
    }
}

/// The store after the grab/drop pass: nothing happens without a cursor on
/// screen (grabs and drags freeze rather than jump) or without exactly one
/// root container; otherwise each titlebar whose interaction changed is
/// processed in store order.
pub open spec fn grab_system_spec(s: Seq<UiNode>, cursor: Option<Vec2i>) -> Seq<UiNode> {
    match cursor {
        Option::None => s,
        Option::Some(c) => {
            match sole_root(s) {
                Option::None => s,
                Option::Some(r) => grab_all_spec(s, changed_titlebars(s), c, r),
            }
        },
    }
}

impl UiWorld {
    /// Processes one changed titlebar: the exec counterpart of
    /// `grab_one_spec`.
    fn grab_step(&mut self, t_id: u64, c: Vec2i, r: u64)
        requires
            old(self).wf(),
        ensures
            final(self).wf(),
            final(self).next_id == old(self).next_id,
            final(self).nodes@ == grab_one_spec(old(self).nodes@, t_id, c, r),
    {
        let ghost s = self.nodes@;
        let ti = match self.find(t_id) {
            Some(ti) => ti,
            None => {
                return;
            },
        };
        let pid = match self.nodes[ti].parent {
            Some(p) => p,
            None => {
                return;
            },
        };
        let tb_interaction = self.nodes[ti].interaction;
        let pi = match self.find(pid) {
            Some(pi) => pi,
            None => {
                return;
            },
        };
        if self.nodes[pi].panel.is_none() {
            return;
        }
        let is_child_of_root = match self.nodes[pi].parent {
            Some(pp) => pp == r,
            None => false,
        };
        if !is_child_of_root {
            proof {
                assert(s[pi as int].parent != Some(r));
            }
            return;
        }
        match tb_interaction {
            Interaction::Pressed => {
                let mut nd = self.nodes.remove(pi);
                let mut p = nd.panel.take().unwrap();
                p.grab(c);
                nd.panel = Some(p);
                self.nodes.push(nd);
                proof {
                    let pnl = s[pi as int].panel->Some_0;
                    let nd2 = with_panel(s[pi as int], pnl.after_grab(c));
                    let s1 = s.update(pi as int, nd2);
                    crate::world::lemma_idx_of_update(s, pi as int, nd2, pid);
                    assert(s1.remove(pi as int) =~= s.remove(pi as int));
                    assert(crate::world::reparented(nd2, r) == nd2);
                    assert(self.nodes@ =~= s.remove(pi as int).push(nd2));
                    assert(add_child_spec(s1, r, pid) == s1.remove(pi as int).push(
                        crate::world::reparented(s1[pi as int], r),
                    ));
                    crate::world::lemma_update_preserves_unique(s, pi as int, nd2);
                    crate::world::lemma_move_preserves_unique(s1, pi as int, nd2);
                    assert forall|k: int|
                        0 <= k < self.nodes@.len() implies (#[trigger] self.nodes@[k]).id
                        < self.next_id by {
                        if k < pi as int {
                            assert(self.nodes@[k] == s[k]);
                        } else if k < s.len() - 1 {
                            assert(self.nodes@[k] == s[k + 1]);
                        } else {
                            assert(self.nodes@[k] == nd2);
                        }
                    }
                }
            },
            _ => {
                let has_drag = match &self.nodes[pi].panel {
                    Some(p) => p.drag_state.is_some(),
                    None => false,
                };
                if has_drag {
                    let mut nd = self.nodes.remove(pi);
                    let mut p = nd.panel.take().unwrap();
                    p.release();
                    nd.panel = Some(p);
                    self.nodes.insert(pi, nd);
                    proof {
                        let pnl = s[pi as int].panel->Some_0;
                        let nd2 = with_panel(s[pi as int], pnl.after_release());
                        assert(self.nodes@ =~= s.update(pi as int, nd2));
                        crate::world::lemma_update_preserves_unique(s, pi as int, nd2);
                    }
                }
            },
        }
    }

    /// The grab/drop pass: observes each titlebar whose interaction state
    /// changed this frame, in store order. A transition to pressed records
    /// the drag offset (panel position minus cursor position) and raises
    /// the panel to the top of the root container's child list, keeping the
    /// relative order of all other children; a transition away from pressed
    /// clears the drag record. With no cursor position this frame, or
    /// without exactly one root container, the pass does nothing.
    pub fn panel_grabbing_and_dropping(&mut self, cursor: Option<Vec2i>)
        requires
            old(self).wf(),
        ensures
            final(self).wf(),
            final(self).next_id == old(self).next_id,
            final(self).nodes@ == grab_system_spec(old(self).nodes@, cursor),
    {
        let c = match cursor {
            Some(c) => c,
            None => {
                return;
            },
        };
        let ghost s0 = self.nodes@;
        let roots = self.collect_roots();
        if roots.len() != 1 {
            return;
        }
        let r = roots[0];
        let ts = self.collect_changed_titlebars();
        let mut k: usize = 0;
        while k < ts.len()
            invariant
                old(self).wf(),
                self.wf(),
                k <= ts@.len(),
                self.next_id == old(self).next_id,
                s0 == old(self).nodes@,
                ts@ == changed_titlebars(s0),
                root_ids(s0).len() == 1,
                r == root_ids(s0)[0],
                self.nodes@ == grab_all_spec(s0, ts@.subrange(0, k as int), c, r),
            decreases ts@.len() - k,
        {
            let t_id = ts[k];
            self.grab_step(t_id, c, r);
            k = k + 1;
            proof {
                assert(ts@.subrange(0, k as int) =~= ts@.subrange(0, k as int - 1).push(t_id));
                lemma_grab_all_snoc(s0, ts@.subrange(0, k as int - 1), t_id, c, r);
            }
        }
        proof {
            assert(ts@.subrange(0, ts@.len() as int) =~= ts@);
        }
    }
}

/// Whether this node is a Close button whose interaction just changed to
/// pressed: the click that closes the owning panel.
pub open spec fn clicked_close(n: UiNode) -> bool {
    &&& n.button is Some
    &&& n.button->Some_0 is Close
    &&& n.interaction_changed
    &&& n.interaction is Pressed
}

/// The panels to despawn for the clicked Close buttons of `prefix`, in
/// store order: for each such button, the nearest ancestor carrying panel
/// state, when one exists; a button with no panel ancestor removes nothing.
pub open spec fn close_targets_in(s: Seq<UiNode>, prefix: Seq<UiNode>) -> Seq<u64>
    decreases prefix.len(),
{
    if prefix.len() == 0 {
        Seq::empty()
    } else {
        let rest = close_targets_in(s, prefix.drop_last());
        if clicked_close(prefix.last()) {
            match climb_spec(s, prefix.last().id, UiMarker::Panel, s.len() as nat) {
                Option::Some(t) => rest.push(t),
                Option::None => rest,
            }
        } else {
            rest
        }
    }
}

pub open spec fn close_targets(s: Seq<UiNode>) -> Seq<u64> {
    close_targets_in(s, s)
}

/// One node after the button color write: a button whose interaction
/// changed takes its variant's color for the new state.
pub open spec fn color_node_spec(n: UiNode) -> UiNode {
    if n.button is Some && n.interaction_changed {
        UiNode { color: n.button->Some_0.color_spec(n.interaction), ..n }
    } else {
        n
    }
}

/// Despawning each target in turn, recursively.
pub open spec fn despawn_all_spec(s: Seq<UiNode>, ts: Seq<u64>) -> Seq<UiNode>
    decreases ts.len(),
{
    if ts.len() == 0 {
        s
    } else {
        despawn_all_spec(despawn_spec(s, ts[0]), ts.subrange(1, ts.len() as int))
    }
}

pub proof fn lemma_despawn_all_snoc(s: Seq<UiNode>, ts: Seq<u64>, t: u64)
    ensures
        despawn_all_spec(s, ts.push(t)) == despawn_spec(despawn_all_spec(s, ts), t),
    decreases ts.len(),
{
    if ts.len() == 0 {
        assert(ts.push(t)[0] == t);
        assert(ts.push(t).subrange(1, 1) =~= Seq::<u64>::empty());
        assert(despawn_all_spec(s, ts.push(t)) == despawn_all_spec(
            despawn_spec(s, t),
            Seq::<u64>::empty(),
        ));
        assert(despawn_all_spec(despawn_spec(s, t), Seq::<u64>::empty()) == despawn_spec(s, t));
    } else {
        let tail = ts.subrange(1, ts.len() as int);
        assert(ts.push(t)[0] == ts[0]);
        assert(ts.push(t).subrange(1, ts.len() as int + 1) =~= tail.push(t));
        assert(despawn_all_spec(s, ts.push(t)) == despawn_all_spec(
            despawn_spec(s, ts[0]),
            tail.push(t),
        ));
        assert(despawn_all_spec(s, ts) == despawn_all_spec(despawn_spec(s, ts[0]), tail));
        lemma_despawn_all_snoc(despawn_spec(s, ts[0]), tail, t);
    }
}

/// The store after the button pass: every button whose interaction changed
/// repaints to its state color, and each clicked Close button destroys the
/// nearest ancestor panel (with its whole subtree), found by walking parent
/// links; the despawns apply after the whole pass, like deferred commands.
pub open spec fn buttons_system_spec(s: Seq<UiNode>) -> Seq<UiNode> {
    despawn_all_spec(s.map_values(|n: UiNode| color_node_spec(n)), close_targets(s))
}

impl UiWorld {
    /// The button pass: repaints each changed button from its interaction
    /// state, and for each clicked Close button walks the parent chain to
    /// the nearest panel and destroys that panel's entire subtree. A click
    /// with no panel ancestor is a no-op.
    pub fn panel_button_interaction(&mut self)
        requires
            old(self).wf(),
        ensures
            final(self).wf(),
            final(self).next_id == old(self).next_id,
            final(self).nodes@ == buttons_system_spec(old(self).nodes@),
    {
        let ghost s0 = self.nodes@;
        // collect despawn targets first: the deferred commands of the pass
        let mut targets: Vec<u64> = Vec::new();
        let mut i: usize = 0;
        while i < self.nodes.len()
            invariant
                i <= s0.len(),
                self.nodes@ == s0,
                targets@ == close_targets_in(s0, s0.subrange(0, i as int)),
            decreases s0.len() - i,
        {
            let changed = self.nodes[i].interaction_changed;
            let is_pressed = match self.nodes[i].interaction {
                Interaction::Pressed => true,
                _ => false,
            };
            let is_close_button = match self.nodes[i].button {
                Some(UiPanelButton::Close) => true,
                None => false,
            };
            let is_clicked_close = is_close_button && changed && is_pressed;
            proof {
                assert(clicked_close(s0[i as int]) == is_clicked_close);
            }
            if is_clicked_close {
                let id = self.nodes[i].id;
                proof {
                    assert(id == s0[i as int].id);
                }
                match crate::util::climb_parents(self, id, UiMarker::Panel) {
                    Some(t) => {
                        targets.push(t);
                    },
                    None => {},
                }
            }
            proof {
                let pre = s0.subrange(0, i as int + 1);
                assert(pre.drop_last() =~= s0.subrange(0, i as int));
                assert(pre.last() == s0[i as int]);
            }
            i = i + 1;
        }
        proof {
            assert(s0.subrange(0, s0.len() as int) =~= s0);
        }
        // repaint changed buttons
        let mut j: usize = 0;
        while j < self.nodes.len()
            invariant
                j <= s0.len(),
                self.nodes@.len() == s0.len(),
                self.next_id == old(self).next_id,
                old(self).wf(),
                s0 == old(self).nodes@,
                targets@ == close_targets(s0),
                forall|k: int| 0 <= k < j ==> self.nodes@[k] == color_node_spec(s0[k]),
                forall|k: int| j <= k < s0.len() ==> self.nodes@[k] == s0[k],
            decreases s0.len() - j,
        {
            let repaint = self.nodes[j].button.is_some() && self.nodes[j].interaction_changed;
            if repaint {
                let ghost scur = self.nodes@;
                let mut nd = self.nodes.remove(j);
                let color = match &nd.button {
                    Some(b) => b.color(&nd.interaction),
                    None => crate::style::Color::none(),
                };
                nd.color = color;
                self.nodes.insert(j, nd);
                proof {
                    assert(self.nodes@ =~= scur.update(j as int, color_node_spec(s0[j as int])));
                }
            }
            j = j + 1;
        }
        let ghost s1 = s0.map_values(|n: UiNode| color_node_spec(n));
        proof {
            assert(self.nodes@ =~= s1);
            assert forall|a: int, b: int|
                #![trigger self.nodes@[a], self.nodes@[b]]
                0 <= a < b < self.nodes@.len() implies self.nodes@[a].id != self.nodes@[b].id by {
                assert(self.nodes@[a].id == s0[a].id);
                assert(self.nodes@[b].id == s0[b].id);
            }
            assert forall|k: int| 0 <= k < self.nodes@.len() implies (#[trigger] self.nodes@[k]).id
                < self.next_id by {
                assert(self.nodes@[k].id == s0[k].id);
            }
        }
        // apply the deferred despawns
        let mut k: usize = 0;
        while k < targets.len()
            invariant
                k <= targets@.len(),
                self.wf(),
                self.next_id == old(self).next_id,
                targets@ == close_targets(s0),
                s1 == s0.map_values(|n: UiNode| color_node_spec(n)),
                s0 == old(self).nodes@,
                self.nodes@ == despawn_all_spec(s1, targets@.subrange(0, k as int)),
            decreases targets@.len() - k,
        {
            let t = targets[k];
            self.despawn_recursive(t);
            k = k + 1;
            proof {
                assert(targets@.subrange(0, k as int) =~= targets@.subrange(0, k as int - 1).push(
                    t,
                ));
                lemma_despawn_all_snoc(s1, targets@.subrange(0, k as int - 1), t);
            }
        }
        proof {
            assert(targets@.subrange(0, targets@.len() as int) =~= targets@);
        }
    }
}

/// What the panel factory spawns for one panel: the style and paint color
/// of the panel's root node together with its panel state.
pub struct UiPanelBundle {
    pub style: crate::style::Style,
    pub color: crate::style::Color,
    pub panel: UiPanel,
}

/// A node carrying no components, with the engine's default style, fully
/// transparent: the base the factory's nodes start from.
pub open spec fn blank_node(id: u64) -> UiNode {
    UiNode {
        id,
        parent: None,
        style: crate::style::Style::base_spec(),
        color: crate::style::Color { red: 0, green: 0, blue: 0, alpha: 0 },
        interaction: Interaction::Idle,
        interaction_changed: false,
        panel: None,
        titlebar: None,
        content: None,
        panel_parent: false,
        button: None,
        text: None,
    }
}

/// The panel's content container: the node returned to the caller, who
/// attaches arbitrary body content as its children.
pub open spec fn content_node(id: u64) -> UiNode {
    UiNode { color: crate::style::panel_background_color(), content: Some(UiPanelContent), ..blank_node(id) }
}

/// The panel's root node: positioned absolutely, sized to the requested
/// size, carrying the panel state with an empty drag record.
pub open spec fn panel_node(
    id: u64,
    title: String,
    position: Vec2i,
    size: Vec2i,
    can_close: bool,
) -> UiNode {
    UiNode {
        style: crate::style::Style {
            position_type: crate::style::PositionType::Absolute,
            left: crate::style::Val::Undefined,
            top: crate::style::Val::Undefined,
            width: crate::style::Val::Px(size.x),
            height: crate::style::Val::Px(size.y),
        },
        color: crate::style::panel_titlebar_color(),
        panel: Some(
            UiPanel {
                title,
                can_close,
                panel_type: UiPanelType::Window { position },
                drag_state: None,
            },
        ),
        ..blank_node(id)
    }
}

/// The titlebar bar: full width, fixed height, a direct child of the panel
/// root, carrying the titlebar marker.
pub open spec fn titlebar_node(id: u64, panel: u64) -> UiNode {
    UiNode {
        parent: Some(panel),
        style: crate::style::Style {
            position_type: crate::style::PositionType::Relative,
            left: crate::style::Val::Undefined,
            top: crate::style::Val::Undefined,
            width: crate::style::Val::Percent(100),
            height: crate::style::Val::Px(24),
        },
        color: crate::style::panel_titlebar_color(),
        titlebar: Some(UiPanelTitlebar),
        ..blank_node(id)
    }
}

/// The transparent container centering the titlebar's label.
pub open spec fn label_node(id: u64, titlebar: u64) -> UiNode {
    UiNode { parent: Some(titlebar), ..blank_node(id) }
}

/// The titlebar's text label: the panel title in white.
pub open spec fn text_node(id: u64, label: u64, title: String, font: u64) -> UiNode {
    UiNode {
        parent: Some(label),
        text: Some(
            crate::world::TextNode {
                text: title,
                font,
                font_size: 16,
                color: crate::style::Color { red: 1000, green: 1000, blue: 1000, alpha: 1000 },
            },
        ),
        ..blank_node(id)
    }
}

/// The nodes the titlebar helper appends: the bar itself, its label
/// container and text, and — for a closable panel — the Close button.
pub open spec fn titlebar_suffix(
    t0: u64,
    panel: u64,
    font: u64,
    title: String,
    can_close: bool,
) -> Seq<UiNode> {
    let head = seq![
        titlebar_node(t0, panel),
        label_node((t0 + 1) as u64, t0),
        text_node((t0 + 2) as u64, (t0 + 1) as u64, title, font),
    ];
    if can_close {
        head.push(
            UiPanelButton::Close.spawn_node_spec(
                (t0 + 3) as u64,
                t0,
                crate::style::Val::Px(16),
            ),
        )
    } else {
        head
    }
}

/// The nodes one factory call appends, in store order: the panel root, the
/// titlebar and its children, and — last, so it paints above the titlebar's
/// plane and is the top child — the content container, attached under the
/// panel root.
pub open spec fn spawn_panel_suffix(
    c0: u64,
    font: u64,
    title: String,
    position: Vec2i,
    size: Vec2i,
    can_close: bool,
) -> Seq<UiNode> {
    let head = seq![panel_node((c0 + 1) as u64, title, position, size, can_close)] + titlebar_suffix(
        (c0 + 2) as u64,
        (c0 + 1) as u64,
        font,
        title,
        can_close,
    );
    head.push(crate::world::reparented(content_node(c0), (c0 + 1) as u64))
}

/// Spawns the titlebar bar of a panel with its label and, for a closable
/// panel, its Close button; returns the titlebar's entity id.
fn spawn_ui_panel_titlebar(
    world: &mut UiWorld,
    panel: u64,
    font: u64,
    title: String,
    can_close: bool,
) -> (tb: u64)
    requires
        old(world).wf(),
        old(world).next_id <= u64::MAX - 4,
    ensures
        final(world).wf(),
        tb == old(world).next_id,
        final(world).next_id == old(world).next_id + (if can_close { 4int } else { 3int }),
        final(world).nodes@ == old(world).nodes@ + titlebar_suffix(
            old(world).next_id,
            panel,
            font,
            title,
            can_close,
        ),
{
    let ghost s0 = world.nodes@;
    let mut tb_style = crate::style::Style::base();
    tb_style.width = crate::style::Val::Percent(100);
    tb_style.height = crate::style::Val::Px(24);
    let tb = world.spawn_node(
        UiNode {
            id: 0,
            parent: Some(panel),
            style: tb_style,
            color: crate::style::Color::rgb(300, 300, 600),
            interaction: Interaction::Idle,
            interaction_changed: false,
            panel: None,
            titlebar: Some(UiPanelTitlebar),
            content: None,
            panel_parent: false,
            button: None,
            text: None,
        },
    );
    let label = world.spawn_node(
        UiNode { id: 0, parent: Some(tb), ..blank_node_exec() },
    );
    let text = world.spawn_node(
        UiNode {
            id: 0,
            parent: Some(label),
            text: Some(
                crate::world::TextNode {
                    text: title,
                    font,
                    font_size: 16,
                    color: crate::style::Color::rgb(1000, 1000, 1000),
                },
            ),
            ..blank_node_exec()
        },
    );
    proof {
        assert(world.nodes@ =~= s0 + seq![
            titlebar_node(tb, panel),
            label_node(label, tb),
            text_node(text, label, title, font),
        ]);
    }
    if can_close {
        let b = UiPanelButton::Close.spawn(world, tb, crate::style::Val::Px(16));
        proof {
            assert(world.nodes@ =~= s0 + titlebar_suffix(tb, panel, font, title, true));
        }
    } else {
        proof {
            assert(world.nodes@ =~= s0 + titlebar_suffix(tb, panel, font, title, false));
        }
    }
    tb
}

/// A blank node value for the factory to extend.
fn blank_node_exec() -> (r: UiNode)
    ensures
        r == blank_node(0),
{
    UiNode {
        id: 0,
        parent: None,
        style: crate::style::Style::base(),
        color: crate::style::Color { red: 0, green: 0, blue: 0, alpha: 0 },
        interaction: Interaction::Idle,
        interaction_changed: false,
        panel: None,
        titlebar: None,
        content: None,
        panel_parent: false,
        button: None,
        text: None,
    }
}

/// The panel factory: builds the node hierarchy of one floating panel — a
/// background content container, a titlebar with a left-aligned label and
/// an optional trailing Close button, and the panel root positioned
/// absolutely at `position` with `size` — and attaches the panel state with
/// an empty drag record.
///
/// Returns the **content** entity, not the panel root, so callers can
/// attach arbitrary body content as children of it. Malformed inputs such
/// as a negative size are accepted and passed through to layout.
///
/// The panel root is spawned without a parent: the parenting pass adopts it
/// under the root container on the next frame.
pub fn spawn_ui_panel(
    world: &mut UiWorld,
    font: u64,
    title: String,
    position: Vec2i,
    size: Vec2i,
    can_close: bool,
) -> (content_entity: u64)
    requires
        old(world).wf(),
        old(world).next_id <= u64::MAX - 6,
    ensures
        final(world).wf(),
        content_entity == old(world).next_id,
        final(world).next_id == old(world).next_id + (if can_close { 6int } else { 5int }),
        final(world).nodes@ == old(world).nodes@ + spawn_panel_suffix(
            old(world).next_id,
            font,
            title,
            position,
            size,
            can_close,
        ),
{
    let ghost s0 = world.nodes@;
    let ghost c0 = world.next_id;
    let ghost title0 = title;
    let title_for_label = title.clone();
    let content_entity = world.spawn_node(
        UiNode {
            id: 0,
            color: crate::style::Color::rgb(500, 500, 800),
            content: Some(UiPanelContent),
            ..blank_node_exec()
        },
    );
    let bundle = UiPanelBundle {
        style: crate::style::Style {
            position_type: crate::style::PositionType::Absolute,
            left: crate::style::Val::Undefined,
            top: crate::style::Val::Undefined,
            width: crate::style::Val::Px(size.x),
            height: crate::style::Val::Px(size.y),
        },
        color: crate::style::Color::rgb(300, 300, 600),
        panel: UiPanel::new(title, can_close, position),
    };
    let panel_entity = world.spawn_node(
        UiNode {
            id: 0,
            style: bundle.style,
            color: bundle.color,
            panel: Some(bundle.panel),
            ..blank_node_exec()
        },
    );
    let _titlebar = spawn_ui_panel_titlebar(world, panel_entity, font, title_for_label, can_close);
    let ghost mid = world.nodes@;
    world.add_child(panel_entity, content_entity);
    proof {
        let tail = seq![panel_node(panel_entity, title0, position, size, can_close)]
            + titlebar_suffix((c0 + 2) as u64, panel_entity, font, title0, can_close);
        assert(mid =~= s0 + seq![content_node(c0)] + tail);
        // the content node sits at index s0.len() and carries the only
        // occurrence of its id, so the attach moves exactly it to the end
        crate::world::lemma_idx_of(mid, content_entity);
        assert(mid[s0.len() as int] == content_node(c0));
        assert forall|k: int| 0 <= k < s0.len() implies (#[trigger] mid[k]).id != content_entity by {
            assert(mid[k] == s0[k]);
            assert(s0[k].id < c0);
        }
        let ci = idx_of(mid, content_entity);
        assert(ci >= 0) by {
            if ci < 0 {
                assert(mid[s0.len() as int].id != content_entity);
            }
        }
        assert(ci == s0.len() as int) by {
            if ci < s0.len() as int {
                assert(mid[ci].id != content_entity);
            }
            if ci > s0.len() as int {
                assert(mid[s0.len() as int].id != content_entity);
            }
        }
        assert(world.nodes@ == mid.remove(ci).push(
            crate::world::reparented(mid[ci], panel_entity),
        ));
        assert(mid.remove(ci) =~= s0 + tail);
        assert(world.nodes@ =~= s0 + spawn_panel_suffix(c0, font, title0, position, size, can_close));
    }
    content_entity
}

/// The store after one whole frame of the panel systems, in the order the
/// plugin schedules them: reparenting first (so a fresh panel can be raised
/// in the same frame), then grab/drop, then dragging before the style sync
/// (so the style reflects this frame's drag), then the button pass; at the
/// end of the frame every interaction-change flag is lowered.
pub open spec fn frame_spec(s: Seq<UiNode>, cursor: Option<Vec2i>) -> Seq<UiNode> {
    clear_changed_spec(
        buttons_system_spec(
            sync_system_spec(
                drag_system_spec(grab_system_spec(parenting_spec(s), cursor), cursor),
            ),
        ),
    )
}

/// The panel plugin: the schedule of the per-frame panel systems. The host
/// adapter calls `run_frame` once per rendered frame with the cursor
/// position in UI coordinates (or `None` when no primary window exists or
/// the cursor is off screen), after reporting interaction changes through
/// `UiWorld::set_interaction`.
pub struct UiPanelsPlugin;

impl UiPanelsPlugin {
    pub fn run_frame(&self, world: &mut UiWorld, cursor: Option<Vec2i>)
        requires
            old(world).wf(),
        ensures
            final(world).wf(),
            final(world).next_id == old(world).next_id,
            final(world).nodes@ == frame_spec(old(world).nodes@, cursor),
    {
        world.panel_parenting();
        world.panel_grabbing_and_dropping(cursor);
        world.panel_dragging(cursor);
        world.panel_updating();
        world.panel_button_interaction();
        world.clear_interaction_changed();
    }
}

/// The node the startup pass spawns: the single root container, a
/// full-window transparent node under which all panels live.
pub open spec fn root_container_node(id: u64) -> UiNode {
    UiNode {
        id,
        parent: None,
        style: crate::style::Style {
            position_type: crate::style::PositionType::Relative,
            left: crate::style::Val::Undefined,
            top: crate::style::Val::Undefined,
            width: crate::style::Val::Percent(100),
            height: crate::style::Val::Percent(100),
        },
        color: crate::style::Color { red: 0, green: 0, blue: 0, alpha: 0 },
        interaction: Interaction::Idle,
        interaction_changed: false,
        panel: None,
        titlebar: None,
        content: None,
        panel_parent: true,
        button: None,
        text: None,
    }
}

} // verus!
