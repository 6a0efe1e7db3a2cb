//! The behavioral laws of the panel systems, stated and proved against the
//! spec functions that the systems' own contracts use.

use vstd::prelude::*;
use crate::geom::{add_fits, sub_fits, Vec2i};
use crate::style::Interaction;
use crate::util::{climb_spec, has_marker, UiMarker};
use crate::world::{
    children_of, has_node, idx_of, node_of, reaches, unique_ids, UiNode,
};
use crate::{
    attach_all_spec, clicked_close, drag_system_spec, grab_one_spec, sync_node_spec,
    sync_system_spec, unparented_panels, UiPanel,
};

verus! {

/// Grab-then-move: a grab at cursor `c0` with the panel at `p0` records the
/// offset `p0 - c0` exactly, and any later dragging step at cursor `c1`
/// while still held puts the panel at exactly `c1 + (p0 - c0)`, with the
/// drag record unchanged — the original grab point is preserved rigidly.
pub proof fn lemma_grab_then_move(p: UiPanel, c0: Vec2i, c1: Vec2i)
    requires
        sub_fits(p.spec_position(), c0),
        add_fits(
            c1,
            Vec2i {
                x: (p.spec_position().x - c0.x) as i64,
                y: (p.spec_position().y - c0.y) as i64,
            },
        ),
    ensures
        p.after_grab(c0).drag_state->Some_0.mouse_offset.x == p.spec_position().x - c0.x,
        p.after_grab(c0).drag_state->Some_0.mouse_offset.y == p.spec_position().y - c0.y,
        p.after_grab(c0).after_drag(c1).spec_position().x == c1.x + (p.spec_position().x - c0.x),
        p.after_grab(c0).after_drag(c1).spec_position().y == c1.y + (p.spec_position().y - c0.y),
        p.after_grab(c0).after_drag(c1).drag_state == p.after_grab(c0).drag_state,
{
}

/// Any dragging step preserves the drag record itself, so the offset
/// recorded at grab time keeps governing every later frame until release.
pub proof fn lemma_drag_keeps_offset(p: UiPanel, c: Vec2i)
    ensures
        p.after_drag(c).drag_state == p.drag_state,
{
}

/// Release: when the pressed state ends while a drag is in progress, the
/// drag record becomes empty, the position holds at its last computed
/// value, and further dragging passes leave the panel entirely unchanged.
pub proof fn lemma_release_freezes(p: UiPanel, i: Interaction, c_change: Vec2i, c_later: Vec2i)
    requires
        !(i is Pressed),
        p.drag_state is Some,
    ensures
        p.after_titlebar_change(i, c_change).drag_state is None,
        p.after_titlebar_change(i, c_change).spec_position() == p.spec_position(),
        p.after_titlebar_change(i, c_change).after_drag(c_later) == p.after_titlebar_change(
            i,
            c_change,
        ),
{
}

/// Style-sync idempotence: running the style-sync pass twice in a row with
/// no intervening state change produces exactly the same store as running
/// it once.
pub proof fn lemma_style_sync_idempotent(s: Seq<UiNode>)
    ensures
        sync_system_spec(sync_system_spec(s)) == sync_system_spec(s),
{
    let s1 = sync_system_spec(s);
    assert forall|k: int| 0 <= k < s1.len() implies #[trigger] sync_system_spec(s1)[k] == s1[k] by {
        assert(s1[k] == sync_node_spec(s[k]));
        assert(sync_system_spec(s1)[k] == sync_node_spec(sync_node_spec(s[k])));
    }
    assert(sync_system_spec(s1) =~= s1);
}

/// The dragging pass with no cursor, or over panels with no drag record,
/// changes nothing: panels not being dragged are untouched.
pub proof fn lemma_drag_untouched(s: Seq<UiNode>, cursor: Option<Vec2i>, k: int)
    requires
        0 <= k < s.len(),
        s[k].panel is Some ==> s[k].panel->Some_0.drag_state is None,
    ensures
        drag_system_spec(s, cursor)[k] == s[k],
{
    match cursor {
        Option::None => {},
        Option::Some(c) => {
            assert(drag_system_spec(s, cursor)[k] == crate::drag_node_spec(s[k], c));
        },
    }
}

/// Ancestor search finds nothing when no node at all carries the marker —
/// in particular it never returns the start entity.
pub proof fn lemma_climb_no_match(s: Seq<UiNode>, e: u64, marker: UiMarker, fuel: nat)
    requires
        forall|k: int| 0 <= k < s.len() ==> !has_marker(#[trigger] s[k], marker),
    ensures
        climb_spec(s, e, marker, fuel) is None,
    decreases fuel,
{
    let ei = idx_of(s, e);
    crate::world::lemma_idx_of(s, e);
    if ei >= 0 {
        match s[ei].parent {
            Option::None => {},
            Option::Some(p) => {
                let pi = idx_of(s, p);
                crate::world::lemma_idx_of(s, p);
                if pi >= 0 && fuel > 0 {
                    lemma_climb_no_match(s, p, marker, (fuel - 1) as nat);
                }
            },
        }
    }
}

/// Ancestor search returns the direct parent when it matches: the nearest
/// matching ancestor wins.
pub proof fn lemma_climb_direct(s: Seq<UiNode>, e: u64, marker: UiMarker, fuel: nat)
    requires
        has_node(s, e),
        node_of(s, e).parent is Some,
        has_node(s, node_of(s, e).parent->Some_0),
        has_marker(node_of(s, node_of(s, e).parent->Some_0), marker),
    ensures
        climb_spec(s, e, marker, fuel) == Some(node_of(s, e).parent->Some_0),
{
}

/// Ancestor search skips a non-matching parent and continues from it:
/// intervening non-matching ancestors do not hide a match further up.
pub proof fn lemma_climb_skip(s: Seq<UiNode>, e: u64, marker: UiMarker, fuel: nat)
    requires
        fuel > 0,
        has_node(s, e),
        node_of(s, e).parent is Some,
        has_node(s, node_of(s, e).parent->Some_0),
        !has_marker(node_of(s, node_of(s, e).parent->Some_0), marker),
    ensures
        climb_spec(s, e, marker, fuel) == climb_spec(
            s,
            node_of(s, e).parent->Some_0,
            marker,
            (fuel - 1) as nat,
        ),
{
}

/// Whatever ancestor search returns carries the marker.
pub proof fn lemma_climb_matches(s: Seq<UiNode>, e: u64, marker: UiMarker, fuel: nat)
    requires
        climb_spec(s, e, marker, fuel) is Some,
    ensures
        has_node(s, climb_spec(s, e, marker, fuel)->Some_0),
        has_marker(node_of(s, climb_spec(s, e, marker, fuel)->Some_0), marker),
    decreases fuel,
{
    let ei = idx_of(s, e);
    crate::world::lemma_idx_of(s, e);
    match s[ei].parent {
        Option::None => {},
        Option::Some(p) => {
            let pi = idx_of(s, p);
            crate::world::lemma_idx_of(s, p);
            if pi >= 0 && !has_marker(s[pi], marker) && fuel > 0 {
                lemma_climb_matches(s, p, marker, (fuel - 1) as nat);
            }
        },
    }
}

/// The panel a titlebar belongs to: its direct parent.
pub open spec fn titlebar_panel(s: Seq<UiNode>, t_id: u64) -> u64 {
    node_of(s, t_id).parent->Some_0
}

/// Raise-to-top: when a titlebar's interaction changes to pressed, the
/// grab/drop step moves the grabbed panel to the end of the root
/// container's ordered child list, and the relative order of all other
/// children is unchanged. Splitting the store at the panel's old slot, the
/// old child list reads `before + panel + after` and the new one
/// `before + after + panel`.
pub proof fn lemma_raise_to_top(s: Seq<UiNode>, t_id: u64, c: Vec2i, r: u64)
    requires
        unique_ids(s),
        has_node(s, t_id),
        node_of(s, t_id).parent is Some,
        node_of(s, t_id).interaction is Pressed,
        has_node(s, titlebar_panel(s, t_id)),
        node_of(s, titlebar_panel(s, t_id)).panel is Some,
        node_of(s, titlebar_panel(s, t_id)).parent == Some(r),
    ensures
        children_of(s, r) == children_of(s.subrange(0, idx_of(s, titlebar_panel(s, t_id))), r)
            + seq![titlebar_panel(s, t_id)] + children_of(
            s.subrange(idx_of(s, titlebar_panel(s, t_id)) + 1, s.len() as int),
            r,
        ),
        children_of(grab_one_spec(s, t_id, c, r), r) == children_of(
            s.subrange(0, idx_of(s, titlebar_panel(s, t_id))),
            r,
        ) + children_of(s.subrange(idx_of(s, titlebar_panel(s, t_id)) + 1, s.len() as int), r)
            + seq![titlebar_panel(s, t_id)],
{
    let pid = titlebar_panel(s, t_id);
    let ti = idx_of(s, t_id);
    let pi = idx_of(s, pid);
    crate::world::lemma_idx_of(s, t_id);
    crate::world::lemma_idx_of(s, pid);
    let panel = s[pi].panel->Some_0;
    let nd2 = crate::with_panel(s[pi], panel.after_grab(c));
    let s1 = s.update(pi, nd2);
    crate::world::lemma_idx_of_update(s, pi, nd2, pid);
    let a = s.subrange(0, pi);
    let b = s.subrange(pi + 1, s.len() as int);
    let mid = seq![s[pi]];
    // old child list: before + panel + after
    assert(s =~= (a + mid) + b);
    crate::world::lemma_children_of_add(a + mid, b, r);
    crate::world::lemma_children_of_add(a, mid, r);
    assert(children_of(mid, r) == seq![pid]) by {
        assert(mid.drop_last() =~= Seq::<UiNode>::empty());
        assert(children_of(Seq::<UiNode>::empty(), r) == Seq::<u64>::empty());
        assert(mid.last() == s[pi]);
        assert(s[pi].parent == Some(r));
        assert(children_of(mid, r) == Seq::<u64>::empty().push(pid));
        assert(Seq::<u64>::empty().push(pid) =~= seq![pid]);
    }
    assert(children_of(s, r) == children_of(a, r) + seq![pid] + children_of(b, r)) by {
        assert(children_of((a + mid) + b, r) == (children_of(a, r) + children_of(mid, r))
            + children_of(b, r));
        assert((children_of(a, r) + seq![pid]) + children_of(b, r) =~= children_of(a, r)
            + seq![pid] + children_of(b, r));
    }
    // new store: before + after + panel, with the panel node regrabbed
    let t = grab_one_spec(s, t_id, c, r);
    assert(t == crate::world::add_child_spec(s1, r, pid));
    assert(t =~= (a + b) + seq![nd2]) by {
        assert(idx_of(s1, pid) == pi);
        assert(crate::world::reparented(s1[pi], r) == nd2);
        assert(s1.remove(pi) =~= a + b);
        assert(t == s1.remove(pi).push(crate::world::reparented(s1[pi], r)));
    }
    crate::world::lemma_children_of_add(a + b, seq![nd2], r);
    crate::world::lemma_children_of_add(a, b, r);
    assert(children_of(seq![nd2], r) == seq![pid]) by {
        assert(seq![nd2].drop_last() =~= Seq::<UiNode>::empty());
        assert(children_of(Seq::<UiNode>::empty(), r) == Seq::<u64>::empty());
        assert(seq![nd2].last() == nd2);
        assert(nd2.parent == Some(r));
        assert(nd2.id == pid);
        assert(Seq::<u64>::empty().push(pid) =~= seq![pid]);
    }
    assert(children_of(t, r) == children_of(a, r) + children_of(b, r) + seq![pid]) by {
        assert(children_of((a + b) + seq![nd2], r) == (children_of(a, r) + children_of(b, r))
            + children_of(seq![nd2], r));
        assert((children_of(a, r) + children_of(b, r)) + seq![pid] =~= children_of(a, r)
            + children_of(b, r) + seq![pid]);
    }
}

/// Grab-then-move at store level: a pressed titlebar with the cursor at
/// `c0` and its panel at position `p0` leaves the panel holding the drag
/// offset `p0 - c0`; the dragging pass of any later frame with the cursor
/// at `c1` then puts that panel at exactly `c1 + (p0 - c0)`, still held.
pub proof fn lemma_world_grab_then_move(s: Seq<UiNode>, t_id: u64, c0: Vec2i, c1: Vec2i, r: u64)
    requires
        unique_ids(s),
        has_node(s, t_id),
        node_of(s, t_id).parent is Some,
        node_of(s, t_id).interaction is Pressed,
        has_node(s, titlebar_panel(s, t_id)),
        node_of(s, titlebar_panel(s, t_id)).panel is Some,
        node_of(s, titlebar_panel(s, t_id)).parent == Some(r),
        sub_fits(node_of(s, titlebar_panel(s, t_id)).panel->Some_0.spec_position(), c0),
        add_fits(
            c1,
            Vec2i {
                x: (node_of(s, titlebar_panel(s, t_id)).panel->Some_0.spec_position().x - c0.x)
                    as i64,
                y: (node_of(s, titlebar_panel(s, t_id)).panel->Some_0.spec_position().y - c0.y)
                    as i64,
            },
        ),
    ensures
        has_node(grab_one_spec(s, t_id, c0, r), titlebar_panel(s, t_id)),
        node_of(grab_one_spec(s, t_id, c0, r), titlebar_panel(s, t_id)).panel
            == Some(node_of(s, titlebar_panel(s, t_id)).panel->Some_0.after_grab(c0)),
        node_of(
            drag_system_spec(grab_one_spec(s, t_id, c0, r), Some(c1)),
            titlebar_panel(s, t_id),
        ).panel->Some_0.spec_position().x == c1.x + (node_of(
            s,
            titlebar_panel(s, t_id),
        ).panel->Some_0.spec_position().x - c0.x),
        node_of(
            drag_system_spec(grab_one_spec(s, t_id, c0, r), Some(c1)),
            titlebar_panel(s, t_id),
        ).panel->Some_0.spec_position().y == c1.y + (node_of(
            s,
            titlebar_panel(s, t_id),
        ).panel->Some_0.spec_position().y - c0.y),
        node_of(
            drag_system_spec(grab_one_spec(s, t_id, c0, r), Some(c1)),
            titlebar_panel(s, t_id),
        ).panel->Some_0.drag_state is Some,
{
    let pid = titlebar_panel(s, t_id);
    crate::world::lemma_idx_of(s, t_id);
    crate::world::lemma_idx_of(s, pid);
    let pi = idx_of(s, pid);
    let panel = s[pi].panel->Some_0;
    let nd2 = crate::with_panel(s[pi], panel.after_grab(c0));
    let s1 = s.update(pi, nd2);
    crate::world::lemma_idx_of_update(s, pi, nd2, pid);
    let sg = grab_one_spec(s, t_id, c0, r);
    assert(sg == s1.remove(pi).push(crate::world::reparented(s1[pi], r)));
    assert(crate::world::reparented(s1[pi], r) == nd2);
    crate::world::lemma_update_preserves_unique(s, pi, nd2);
    crate::world::lemma_move_preserves_nodes(s1, pi, nd2, pid);
    assert(has_node(sg, pid) && node_of(sg, pid) == nd2);
    let fd = |n: UiNode| crate::drag_node_spec(n, c1);
    let sd = drag_system_spec(sg, Some(c1));
    assert(sd == sg.map_values(fd));
    assert forall|n: UiNode| (#[trigger] fd(n)).id == n.id by {}
    lemma_map_node_of(sg, fd, pid);
    assert(node_of(sd, pid) == fd(nd2));
    lemma_grab_then_move(panel, c0, c1);
}

/// Release at store level: when a held panel's titlebar leaves the pressed
/// state, the grab/drop step clears the drag record and keeps the position
/// at its last computed value — and the dragging pass of any later frame
/// no longer moves the panel.
pub proof fn lemma_world_release_freezes(s: Seq<UiNode>, t_id: u64, c0: Vec2i, c1: Vec2i, r: u64)
    requires
        unique_ids(s),
        has_node(s, t_id),
        node_of(s, t_id).parent is Some,
        !(node_of(s, t_id).interaction is Pressed),
        has_node(s, titlebar_panel(s, t_id)),
        node_of(s, titlebar_panel(s, t_id)).panel is Some,
        node_of(s, titlebar_panel(s, t_id)).panel->Some_0.drag_state is Some,
        node_of(s, titlebar_panel(s, t_id)).parent == Some(r),
    ensures
        has_node(grab_one_spec(s, t_id, c0, r), titlebar_panel(s, t_id)),
        node_of(grab_one_spec(s, t_id, c0, r), titlebar_panel(s, t_id)).panel->Some_0.drag_state
            is None,
        node_of(grab_one_spec(s, t_id, c0, r), titlebar_panel(s, t_id)).panel->Some_0
            .spec_position() == node_of(s, titlebar_panel(s, t_id)).panel->Some_0.spec_position(),
        node_of(
            drag_system_spec(grab_one_spec(s, t_id, c0, r), Some(c1)),
            titlebar_panel(s, t_id),
        ).panel == node_of(grab_one_spec(s, t_id, c0, r), titlebar_panel(s, t_id)).panel,
{
    let pid = titlebar_panel(s, t_id);
    crate::world::lemma_idx_of(s, t_id);
    crate::world::lemma_idx_of(s, pid);
    let pi = idx_of(s, pid);
    let panel = s[pi].panel->Some_0;
    let nd2 = crate::with_panel(s[pi], panel.after_release());
    let sg = grab_one_spec(s, t_id, c0, r);
    assert(sg == s.update(pi, nd2));
    crate::world::lemma_update_preserves_nodes(s, pi, nd2, pid);
    assert(has_node(sg, pid) && node_of(sg, pid) == nd2);
    crate::world::lemma_update_preserves_unique(s, pi, nd2);
    let fd = |n: UiNode| crate::drag_node_spec(n, c1);
    let sd = drag_system_spec(sg, Some(c1));
    assert(sd == sg.map_values(fd));
    assert forall|n: UiNode| (#[trigger] fd(n)).id == n.id by {}
    lemma_map_node_of(sg, fd, pid);
    assert(node_of(sd, pid) == fd(nd2));
}

/// Every entry of `unparented_panels` is the id of a present node that is
/// a parentless panel, and the entries are pairwise distinct.
pub proof fn lemma_unparented_props(s: Seq<UiNode>)
    requires
        unique_ids(s),
    ensures
        forall|i: int|
            0 <= i < unparented_panels(s).len() ==> has_node(s, #[trigger] unparented_panels(s)[i])
                && node_of(s, unparented_panels(s)[i]).panel is Some && node_of(
                s,
                unparented_panels(s)[i],
            ).parent is None,
        forall|i: int, j: int|
            0 <= i < j < unparented_panels(s).len() ==> unparented_panels(s)[i]
                != unparented_panels(s)[j],
    decreases s.len(),
{
    if s.len() > 0 {
        let pre = s.drop_last();
        assert(unique_ids(pre)) by {
            assert forall|i: int, j: int|
                #![trigger pre[i], pre[j]]
                0 <= i < j < pre.len() implies pre[i].id != pre[j].id by {
                assert(pre[i] == s[i]);
                assert(pre[j] == s[j]);
            }
        }
        lemma_unparented_props(pre);
        let u = unparented_panels(s);
        let upre = unparented_panels(pre);
        let last = s.last();
        assert(pre.push(last) =~= s);
        assert forall|i: int| 0 <= i < upre.len() implies has_node(s, #[trigger] upre[i])
            && node_of(s, upre[i]).panel is Some && node_of(s, upre[i]).parent is None by {
            let y = upre[i];
            crate::world::lemma_idx_of(pre, y);
            crate::world::lemma_idx_of_push(pre, last, y);
            assert(idx_of(s.drop_last().push(last), y) == idx_of(pre, y));
            assert(idx_of(s, y) == idx_of(pre, y));
            assert(s[idx_of(pre, y)] == pre[idx_of(pre, y)]);
        }
        if last.panel is Some && last.parent is None {
            assert(u == upre.push(last.id));
            assert(has_node(s, last.id) && node_of(s, last.id) == last) by {
                crate::world::lemma_node_of_self(s, s.len() - 1);
            }
            assert forall|i: int| 0 <= i < upre.len() implies upre[i] != last.id by {
                let y = upre[i];
                crate::world::lemma_idx_of(pre, y);
                assert(pre[idx_of(pre, y)].id == y);
                assert(s[idx_of(pre, y)].id == y);
                assert(idx_of(pre, y) < s.len() - 1);
                assert(s[s.len() - 1] == last);
            }
        }
    }
}

/// Every parentless panel node's id occurs in `unparented_panels`.
pub proof fn lemma_unparented_contains(s: Seq<UiNode>)
    ensures
        forall|k: int|
            0 <= k < s.len() && (#[trigger] s[k]).panel is Some && s[k].parent is None
                ==> unparented_panels(s).contains(s[k].id),
    decreases s.len(),
{
    if s.len() > 0 {
        let pre = s.drop_last();
        lemma_unparented_contains(pre);
        let u = unparented_panels(s);
        let upre = unparented_panels(pre);
        assert forall|k: int|
            0 <= k < s.len() && (#[trigger] s[k]).panel is Some && s[k].parent is None implies u.contains(
            s[k].id,
        ) by {
            if k < s.len() - 1 {
                assert(pre[k] == s[k]);
                assert(upre.contains(s[k].id));
                let w = choose|w: int| 0 <= w < upre.len() && upre[w] == s[k].id;
                if s.last().panel is Some && s.last().parent is None {
                    assert(u[w] == upre[w]);
                } else {
                    assert(u == upre);
                }
            } else {
                assert(u == upre.push(s[k].id));
                assert(u[u.len() - 1] == s[k].id);
            }
        }
    }
}

/// With no parentless panel in the store, `unparented_panels` is empty.
pub proof fn lemma_unparented_empty(s: Seq<UiNode>)
    requires
        forall|k: int|
            0 <= k < s.len() ==> !((#[trigger] s[k]).panel is Some && s[k].parent is None),
    ensures
        unparented_panels(s) == Seq::<u64>::empty(),
    decreases s.len(),
{
    if s.len() > 0 {
        let pre = s.drop_last();
        assert forall|k: int|
            0 <= k < pre.len() implies !((#[trigger] pre[k]).panel is Some
            && pre[k].parent is None) by {
            assert(pre[k] == s[k]);
        }
        lemma_unparented_empty(pre);
    }
}

/// Attaching a list of present, parentless, pairwise-distinct entities
/// under `r`: they join the end of `r`'s child list in list order; every
/// node keeps its id, attached ones gain the parent link and nothing else
/// changes.
pub proof fn lemma_attach_all(s: Seq<UiNode>, xs: Seq<u64>, r: u64)
    requires
        unique_ids(s),
        forall|i: int|
            0 <= i < xs.len() ==> has_node(s, #[trigger] xs[i]) && node_of(s, xs[i]).parent is None,
        forall|i: int, j: int| 0 <= i < j < xs.len() ==> xs[i] != xs[j],
    ensures
        unique_ids(attach_all_spec(s, xs, r)),
        children_of(attach_all_spec(s, xs, r), r) == children_of(s, r) + xs,
        forall|y: u64| has_node(attach_all_spec(s, xs, r), y) == has_node(s, y),
        forall|y: u64|
            has_node(s, y) && !xs.contains(y) ==> node_of(attach_all_spec(s, xs, r), y) == node_of(
                s,
                y,
            ),
        forall|i: int|
            0 <= i < xs.len() ==> node_of(attach_all_spec(s, xs, r), #[trigger] xs[i])
                == crate::world::reparented(node_of(s, xs[i]), r),
    decreases xs.len(),
{
    let res = attach_all_spec(s, xs, r);
    if xs.len() == 0 {
        assert(children_of(s, r) + xs =~= children_of(s, r));
    } else {
        let x = xs[0];
        let tail = xs.subrange(1, xs.len() as int);
        let ci = idx_of(s, x);
        crate::world::lemma_idx_of(s, x);
        let nd = s[ci];
        let nd2 = crate::world::reparented(nd, r);
        let s2 = crate::world::add_child_spec(s, r, x);
        assert(s2 == s.remove(ci).push(nd2));
        crate::world::lemma_move_preserves_unique(s, ci, nd2);
        // the attached child joins the end of the child list
        let a = s.subrange(0, ci);
        let b = s.subrange(ci + 1, s.len() as int);
        assert(s =~= (a + seq![nd]) + b);
        crate::world::lemma_children_of_add(a + seq![nd], b, r);
        crate::world::lemma_children_of_add(a, seq![nd], r);
        assert(children_of(seq![nd], r) == Seq::<u64>::empty()) by {
            assert(seq![nd].drop_last() =~= Seq::<UiNode>::empty());
            assert(children_of(Seq::<UiNode>::empty(), r) == Seq::<u64>::empty());
            assert(seq![nd].last() == nd);
            assert(nd.parent is None);
        }
        assert(children_of(s, r) == children_of(a, r) + children_of(b, r)) by {
            assert(children_of((a + seq![nd]) + b, r) == (children_of(a, r) + children_of(
                seq![nd],
                r,
            )) + children_of(b, r));
            assert((children_of(a, r) + Seq::<u64>::empty()) + children_of(b, r) =~= children_of(
                a,
                r,
            ) + children_of(b, r));
        }
        assert(s2 =~= (a + b) + seq![nd2]) by {
            assert(s.remove(ci) =~= a + b);
        }
        crate::world::lemma_children_of_add(a + b, seq![nd2], r);
        crate::world::lemma_children_of_add(a, b, r);
        assert(children_of(seq![nd2], r) == seq![x]) by {
            assert(seq![nd2].drop_last() =~= Seq::<UiNode>::empty());
            assert(children_of(Seq::<UiNode>::empty(), r) == Seq::<u64>::empty());
            assert(seq![nd2].last() == nd2);
            assert(nd2.parent == Some(r));
            assert(nd2.id == x);
            assert(Seq::<u64>::empty().push(x) =~= seq![x]);
        }
        assert(children_of(s2, r) == children_of(s, r).push(x)) by {
            assert(children_of((a + b) + seq![nd2], r) == (children_of(a, r) + children_of(b, r))
                + seq![x]);
            assert((children_of(a, r) + children_of(b, r)) + seq![x] =~= (children_of(a, r)
                + children_of(b, r)).push(x));
        }
        // the remaining ids are still present and parentless in the new store
        assert forall|i: int| 0 <= i < tail.len() implies has_node(s2, #[trigger] tail[i])
            && node_of(s2, tail[i]).parent is None by {
            assert(tail[i] == xs[i + 1]);
            assert(xs[i + 1] != x);
            crate::world::lemma_move_preserves_nodes(s, ci, nd2, tail[i]);
        }
        lemma_attach_all(s2, tail, r);
        assert(res == attach_all_spec(s2, tail, r));
        // children: fold the head attachment into the list
        assert(children_of(res, r) == children_of(s, r) + xs) by {
            assert(children_of(res, r) == children_of(s2, r) + tail);
            assert(children_of(s, r).push(x) + tail =~= children_of(s, r) + xs) by {
                assert(xs =~= seq![x] + tail);
            }
        }
        // presence and node values
        assert forall|y: u64| has_node(res, y) == has_node(s, y) by {
            crate::world::lemma_move_preserves_nodes(s, ci, nd2, y);
        }
        assert forall|y: u64| has_node(s, y) && !xs.contains(y) implies node_of(res, y) == node_of(
            s,
            y,
        ) by {
            assert(y != x) by {
                if y == x {
                    assert(xs[0] == y);
                    assert(xs.contains(y));
                }
            }
            assert(!tail.contains(y)) by {
                if tail.contains(y) {
                    let w = choose|w: int| 0 <= w < tail.len() && tail[w] == y;
                    assert(xs[w + 1] == y);
                    assert(xs.contains(y));
                }
            }
            crate::world::lemma_move_preserves_nodes(s, ci, nd2, y);
        }
        assert forall|i: int| 0 <= i < xs.len() implies node_of(res, #[trigger] xs[i])
            == crate::world::reparented(node_of(s, xs[i]), r) by {
            if i == 0 {
                assert(!tail.contains(x)) by {
                    if tail.contains(x) {
                        let w = choose|w: int| 0 <= w < tail.len() && tail[w] == x;
                        assert(xs[w + 1] == x);
                    }
                }
                crate::world::lemma_move_preserves_nodes(s, ci, nd2, x);
                assert(node_of(s2, x) == nd2);
                assert(node_of(res, x) == node_of(s2, x));
            } else {
                assert(tail[i - 1] == xs[i]);
                assert(node_of(res, xs[i]) == crate::world::reparented(node_of(s2, xs[i]), r));
                assert(xs[i] != x);
                crate::world::lemma_move_preserves_nodes(s, ci, nd2, xs[i]);
            }
        }
    }
}

/// Parenting convergence: with one root container, no children under it
/// yet, and every panel freshly created and unparented, one parenting pass
/// attaches all panels as children of the root in creation order — and a
/// second pass is a no-op: no duplicate parenting, no reordering.
pub proof fn lemma_parenting_convergence(s: Seq<UiNode>, r: u64)
    requires
        unique_ids(s),
        crate::root_ids(s).len() == 1,
        r == crate::root_ids(s)[0],
        forall|k: int| 0 <= k < s.len() && (#[trigger] s[k]).panel is Some ==> s[k].parent is None,
        children_of(s, r) == Seq::<u64>::empty(),
    ensures
        children_of(crate::parenting_spec(s), r) == unparented_panels(s),
        crate::parenting_spec(crate::parenting_spec(s)) == crate::parenting_spec(s),
{
    let u = unparented_panels(s);
    let res = crate::parenting_spec(s);
    if u.len() == 0 {
        assert(res == s);
    } else {
        assert(crate::sole_root(s) == Some(r));
        lemma_unparented_props(s);
        lemma_attach_all(s, u, r);
        assert(res == crate::attach_all_spec(s, u, r));
        assert(children_of(res, r) == Seq::<u64>::empty() + u);
        assert(Seq::<u64>::empty() + u =~= u);
        // after the pass no panel is parentless, so a second pass does nothing
        assert forall|k: int|
            0 <= k < res.len() implies !((#[trigger] res[k]).panel is Some
            && res[k].parent is None) by {
            crate::world::lemma_node_of_self(res, k);
            let y = res[k].id;
            assert(has_node(res, y));
            assert(has_node(s, y));
            if u.contains(y) {
                let w = choose|w: int| 0 <= w < u.len() && u[w] == y;
                assert(node_of(res, u[w]) == crate::world::reparented(node_of(s, u[w]), r));
                assert(res[k].parent == Some(r));
            } else {
                assert(node_of(res, y) == node_of(s, y));
                crate::world::lemma_idx_of(s, y);
                let j = idx_of(s, y);
                assert(node_of(s, y) == s[j]);
                if res[k].panel is Some {
                    assert(s[j].panel is Some);
                    assert(s[j].parent is None);
                    lemma_unparented_contains(s);
                    assert(u.contains(s[j].id));
                }
            }
        }
        lemma_unparented_empty(res);
        assert(crate::parenting_spec(res) == res);
    }
}

/// Lookups depend only on ids: stores with pointwise-equal ids resolve
/// every id to the same index.
pub proof fn lemma_idx_of_same_ids(s1: Seq<UiNode>, s2: Seq<UiNode>, y: u64)
    requires
        s1.len() == s2.len(),
        forall|k: int| 0 <= k < s1.len() ==> (#[trigger] s1[k]).id == s2[k].id,
    ensures
        idx_of(s1, y) == idx_of(s2, y),
    decreases s1.len(),
{
    if s1.len() > 0 && s1[0].id != y {
        let t1 = s1.subrange(1, s1.len() as int);
        let t2 = s2.subrange(1, s2.len() as int);
        assert forall|k: int| 0 <= k < t1.len() implies (#[trigger] t1[k]).id == t2[k].id by {
            assert(t1[k] == s1[k + 1]);
            assert(t2[k] == s2[k + 1]);
        }
        lemma_idx_of_same_ids(t1, t2, y);
    }
}

/// Reachability along parent links depends only on ids and parent links.
pub proof fn lemma_reaches_same_links(s1: Seq<UiNode>, s2: Seq<UiNode>, x: u64, tgt: u64, fuel: nat)
    requires
        s1.len() == s2.len(),
        forall|k: int|
            0 <= k < s1.len() ==> (#[trigger] s1[k]).id == s2[k].id && s1[k].parent == s2[k].parent,
    ensures
        reaches(s1, x, tgt, fuel) == reaches(s2, x, tgt, fuel),
    decreases fuel,
{
    if x != tgt && fuel > 0 {
        lemma_idx_of_same_ids(s1, s2, x);
        let xi = idx_of(s1, x);
        crate::world::lemma_idx_of(s1, x);
        if xi >= 0 {
            match s1[xi].parent {
                Option::None => {},
                Option::Some(p) => {
                    lemma_reaches_same_links(s1, s2, p, tgt, (fuel - 1) as nat);
                },
            }
        }
    }
}

/// A pointwise, id-preserving rewrite of the store keeps every lookup and
/// maps each looked-up node through the rewrite.
pub proof fn lemma_map_node_of(t: Seq<UiNode>, f: spec_fn(UiNode) -> UiNode, y: u64)
    requires
        forall|n: UiNode| (#[trigger] f(n)).id == n.id,
    ensures
        has_node(t.map_values(f), y) == has_node(t, y),
        has_node(t, y) ==> node_of(t.map_values(f), y) == f(node_of(t, y)),
{
    let t2 = t.map_values(f);
    assert forall|k: int| 0 <= k < t.len() implies (#[trigger] t[k]).id == t2[k].id by {
        assert(t2[k] == f(t[k]));
    }
    lemma_idx_of_same_ids(t, t2, y);
    crate::world::lemma_idx_of(t, y);
    if has_node(t, y) {
        assert(t2[idx_of(t, y)] == f(t[idx_of(t, y)]));
    }
}

/// An id occurs in the store exactly when some node of it carries the id.
pub proof fn lemma_has_node_iff(t: Seq<UiNode>)
    ensures
        forall|y: u64|
            #[trigger] has_node(t, y) <==> exists|k: int| 0 <= k < t.len() && t[k].id == y,
{
    assert forall|y: u64| #[trigger]
        has_node(t, y) <==> exists|k: int| 0 <= k < t.len() && t[k].id == y by {
        crate::world::lemma_idx_of(t, y);
        if has_node(t, y) {
            assert(t[idx_of(t, y)].id == y);
        }
    }
}

/// Close buttons that cannot find a panel ancestor produce no despawn
/// target.
pub proof fn lemma_close_targets_none(s: Seq<UiNode>, prefix: Seq<UiNode>)
    requires
        forall|k: int|
            0 <= k < prefix.len() && clicked_close(#[trigger] prefix[k]) ==> climb_spec(
                s,
                prefix[k].id,
                UiMarker::Panel,
                s.len() as nat,
            ) is None,
    ensures
        crate::close_targets_in(s, prefix) == Seq::<u64>::empty(),
    decreases prefix.len(),
{
    if prefix.len() > 0 {
        let pre = prefix.drop_last();
        assert forall|k: int|
            0 <= k < pre.len() && clicked_close(#[trigger] pre[k]) implies climb_spec(
            s,
            pre[k].id,
            UiMarker::Panel,
            s.len() as nat,
        ) is None by {
            assert(pre[k] == prefix[k]);
        }
        lemma_close_targets_none(s, pre);
        assert(prefix[prefix.len() - 1] == prefix.last());
    }
}

/// With exactly one clicked Close button in the store, whose ancestor walk
/// finds the panel `pnl`, the pass's despawn-target list is exactly that
/// panel.
pub proof fn lemma_close_targets_single(s: Seq<UiNode>, prefix: Seq<UiNode>, b_id: u64, pnl: u64)
    requires
        unique_ids(prefix),
        forall|k: int|
            0 <= k < prefix.len() && clicked_close(#[trigger] prefix[k]) ==> prefix[k].id == b_id,
        climb_spec(s, b_id, UiMarker::Panel, s.len() as nat) == Some(pnl),
    ensures
        crate::close_targets_in(s, prefix) == if exists|k: int|
            0 <= k < prefix.len() && clicked_close(#[trigger] prefix[k]) {
            seq![pnl]
        } else {
            Seq::<u64>::empty()
        },
    decreases prefix.len(),
{
    if prefix.len() > 0 {
        let pre = prefix.drop_last();
        assert(unique_ids(pre)) by {
            assert forall|i: int, j: int|
                #![trigger pre[i], pre[j]]
                0 <= i < j < pre.len() implies pre[i].id != pre[j].id by {
                assert(pre[i] == prefix[i]);
                assert(pre[j] == prefix[j]);
            }
        }
        assert forall|k: int|
            0 <= k < pre.len() && clicked_close(#[trigger] pre[k]) implies pre[k].id == b_id by {
            assert(pre[k] == prefix[k]);
        }
        lemma_close_targets_single(s, pre, b_id, pnl);
        let last = prefix.last();
        assert(prefix[prefix.len() - 1] == last);
        if clicked_close(last) {
            // no second clicked button can exist below: it would repeat the id
            assert(!(exists|k: int| 0 <= k < pre.len() && clicked_close(#[trigger] pre[k]))) by {
                if exists|k: int| 0 <= k < pre.len() && clicked_close(#[trigger] pre[k]) {
                    let k = choose|k: int| 0 <= k < pre.len() && clicked_close(#[trigger] pre[k]);
                    assert(prefix[k].id == b_id);
                    assert(last.id == b_id);
                }
            }
            assert(crate::close_targets_in(s, prefix) == Seq::<u64>::empty().push(pnl));
            assert(Seq::<u64>::empty().push(pnl) =~= seq![pnl]);
        } else {
            assert((exists|k: int| 0 <= k < prefix.len() && clicked_close(#[trigger] prefix[k]))
                == (exists|k: int| 0 <= k < pre.len() && clicked_close(#[trigger] pre[k]))) by {
                if exists|k: int| 0 <= k < prefix.len() && clicked_close(#[trigger] prefix[k]) {
                    let k = choose|k: int|
                        0 <= k < prefix.len() && clicked_close(#[trigger] prefix[k]);
                    assert(k < prefix.len() - 1);
                    assert(pre[k] == prefix[k]);
                    assert(clicked_close(pre[k]));
                }
                if exists|k: int| 0 <= k < pre.len() && clicked_close(#[trigger] pre[k]) {
                    let k = choose|k: int| 0 <= k < pre.len() && clicked_close(#[trigger] pre[k]);
                    assert(prefix[k] == pre[k]);
                    assert(clicked_close(prefix[k]));
                }
            }
        }
    }
}

/// Close behavior, hit case: one Close button is clicked this frame, and
/// its ancestor walk finds the panel `pnl`. After the button pass, exactly
/// the nodes whose parent chain leads to that panel — the panel itself,
/// its titlebar, content and every descendant — are gone from the store,
/// and everything else survives.
pub proof fn lemma_close_removes_subtree(s: Seq<UiNode>, b_id: u64, pnl: u64)
    requires
        unique_ids(s),
        forall|k: int| 0 <= k < s.len() && clicked_close(#[trigger] s[k]) ==> s[k].id == b_id,
        exists|k: int| 0 <= k < s.len() && clicked_close(#[trigger] s[k]),
        climb_spec(s, b_id, UiMarker::Panel, s.len() as nat) == Some(pnl),
    ensures
        forall|y: u64|
            #[trigger] has_node(crate::buttons_system_spec(s), y) <==> has_node(s, y) && !reaches(
                s,
                y,
                pnl,
                s.len() as nat,
            ),
{
    let f = |n: UiNode| crate::color_node_spec(n);
    let s1 = s.map_values(f);
    assert(s1.len() == s.len());
    assert forall|k: int|
        0 <= k < s.len() implies (#[trigger] s1[k]).id == s[k].id && s1[k].parent
        == s[k].parent by {
        assert(s1[k] == f(s[k]));
    }
    lemma_close_targets_single(s, s, b_id, pnl);
    assert(crate::close_targets(s) == seq![pnl]);
    let res = crate::buttons_system_spec(s);
    assert(res == crate::despawn_all_spec(s1, seq![pnl]));
    assert(res == crate::world::despawn_spec(s1, pnl)) by {
        assert(seq![pnl][0] == pnl);
        assert(seq![pnl].subrange(1, 1) =~= Seq::<u64>::empty());
        assert(crate::despawn_all_spec(s1, seq![pnl]) == crate::despawn_all_spec(
            crate::world::despawn_spec(s1, pnl),
            Seq::<u64>::empty(),
        ));
    }
    crate::world::lemma_surviving_membership(s1, s1, pnl);
    lemma_has_node_iff(res);
    lemma_has_node_iff(s1);
    lemma_has_node_iff(s);
    assert forall|y: u64| #[trigger]
        has_node(res, y) <==> has_node(s, y) && !reaches(s, y, pnl, s.len() as nat) by {
        lemma_reaches_same_links(s, s1, y, pnl, s.len() as nat);
        if has_node(res, y) {
            let k = choose|k: int| 0 <= k < res.len() && res[k].id == y;
            let n = res[k];
            assert(res.contains(n));
            assert(s1.contains(n) && !reaches(s1, n.id, pnl, s1.len() as nat));
            let w = choose|w: int| 0 <= w < s1.len() && s1[w] == n;
            assert(s[w].id == y);
        }
        if has_node(s, y) && !reaches(s, y, pnl, s.len() as nat) {
            let j = choose|j: int| 0 <= j < s.len() && s[j].id == y;
            let n1 = s1[j];
            assert(n1.id == y);
            assert(s1.contains(n1));
            assert(res.contains(n1));
            let w = choose|w: int| 0 <= w < res.len() && res[w] == n1;
        }
    }
}

/// Close behavior, miss case: when every clicked Close button has no panel
/// ancestor, the button pass removes nothing.
pub proof fn lemma_close_no_ancestor(s: Seq<UiNode>)
    requires
        forall|k: int|
            0 <= k < s.len() && clicked_close(#[trigger] s[k]) ==> climb_spec(
                s,
                s[k].id,
                UiMarker::Panel,
                s.len() as nat,
            ) is None,
    ensures
        forall|y: u64| #[trigger] has_node(crate::buttons_system_spec(s), y) == has_node(s, y),
{
    let f = |n: UiNode| crate::color_node_spec(n);
    lemma_close_targets_none(s, s);
    let res = crate::buttons_system_spec(s);
    assert(res == s.map_values(f));
    assert forall|y: u64| #[trigger] has_node(res, y) == has_node(s, y) by {
        assert forall|n: UiNode| (#[trigger] f(n)).id == n.id by {}
        lemma_map_node_of(s, f, y);
    }
}

/// Every entry of `changed_titlebars` is the id of a present titlebar node
/// whose interaction changed this frame.
pub proof fn lemma_changed_titlebars_props(s: Seq<UiNode>)
    requires
        unique_ids(s),
    ensures
        forall|i: int|
            0 <= i < crate::changed_titlebars(s).len() ==> has_node(
                s,
                #[trigger] crate::changed_titlebars(s)[i],
            ) && node_of(s, crate::changed_titlebars(s)[i]).titlebar is Some && node_of(
                s,
                crate::changed_titlebars(s)[i],
            ).interaction_changed,
    decreases s.len(),
{
    if s.len() > 0 {
        let pre = s.drop_last();
        assert(unique_ids(pre)) by {
            assert forall|i: int, j: int|
                #![trigger pre[i], pre[j]]
                0 <= i < j < pre.len() implies pre[i].id != pre[j].id by {
                assert(pre[i] == s[i]);
                assert(pre[j] == s[j]);
            }
        }
        lemma_changed_titlebars_props(pre);
        let u = crate::changed_titlebars(s);
        let upre = crate::changed_titlebars(pre);
        let last = s.last();
        assert(pre.push(last) =~= s);
        assert forall|i: int| 0 <= i < upre.len() implies has_node(s, #[trigger] upre[i])
            && node_of(s, upre[i]).titlebar is Some && node_of(s, upre[i]).interaction_changed by {
            let y = upre[i];
            crate::world::lemma_idx_of(pre, y);
            crate::world::lemma_idx_of_push(pre, last, y);
            assert(idx_of(s.drop_last().push(last), y) == idx_of(pre, y));
            assert(idx_of(s, y) == idx_of(pre, y));
            assert(s[idx_of(pre, y)] == pre[idx_of(pre, y)]);
        }
        if last.titlebar is Some && last.interaction_changed {
            assert(u == upre.push(last.id));
            assert(has_node(s, last.id) && node_of(s, last.id) == last) by {
                crate::world::lemma_node_of_self(s, s.len() - 1);
            }
        }
    }
}

/// One grab/drop step leaves a panel alone when its titlebar is not the
/// one processed; the step also never edits a node's button, interaction
/// or change flag, so click observations stay as they were.
proof fn lemma_grab_step_untouched(s: Seq<UiNode>, t0: u64, c: Vec2i, r: u64, y: u64)
    requires
        unique_ids(s),
        has_node(s, y),
        node_of(s, y).panel is Some,
        node_of(s, y).panel->Some_0.drag_state is None,
        has_node(s, t0) ==> node_of(s, t0).panel is None,
        has_node(s, t0) && node_of(s, t0).parent == Some(y) ==> !(node_of(
            s,
            t0,
        ).interaction is Pressed),
    ensures
        unique_ids(grab_one_spec(s, t0, c, r)),
        grab_one_spec(s, t0, c, r).len() == s.len(),
        has_node(grab_one_spec(s, t0, c, r), y),
        node_of(grab_one_spec(s, t0, c, r), y) == node_of(s, y),
        forall|z: u64| #[trigger] has_node(grab_one_spec(s, t0, c, r), z) == has_node(s, z),
        forall|z: u64|
            #[trigger] has_node(s, z) && z != y ==> (node_of(grab_one_spec(s, t0, c, r), z).button
                == node_of(s, z).button && node_of(grab_one_spec(s, t0, c, r), z).interaction
                == node_of(s, z).interaction && node_of(grab_one_spec(s, t0, c, r), z).titlebar
                == node_of(s, z).titlebar && node_of(grab_one_spec(s, t0, c, r), z).parent
                == node_of(s, z).parent && node_of(grab_one_spec(s, t0, c, r), z).panel is Some
                == node_of(s, z).panel is Some && node_of(
                grab_one_spec(s, t0, c, r),
                z,
            ).interaction_changed == node_of(s, z).interaction_changed),
{
    let res = grab_one_spec(s, t0, c, r);
    crate::world::lemma_idx_of(s, t0);
    let ti = idx_of(s, t0);
    if ti >= 0 {
        match s[ti].parent {
            Option::None => {},
            Option::Some(pid) => {
                crate::world::lemma_idx_of(s, pid);
                let pi = idx_of(s, pid);
                if pi >= 0 {
                    match s[pi].panel {
                        Option::None => {},
                        Option::Some(panel) => {
                            if s[pi].parent == Some(r) {
                                // the processed titlebar is not a panel, so it
                                // is not the panel node it points at
                                assert(node_of(s, t0) == s[ti]);
                                assert(node_of(s, pid) == s[pi]);
                                assert(pid != y || !(s[ti].interaction is Pressed));
                                match s[ti].interaction {
                                    Interaction::Pressed => {
                                        assert(pid != y);
                                        let nd2 = crate::with_panel(s[pi], panel.after_grab(c));
                                        let s1 = s.update(pi, nd2);
                                        crate::world::lemma_idx_of_update(s, pi, nd2, pid);
                                        crate::world::lemma_update_preserves_unique(s, pi, nd2);
                                        assert(res == s1.remove(pi).push(
                                            crate::world::reparented(s1[pi], r),
                                        ));
                                        assert(crate::world::reparented(s1[pi], r) == nd2);
                                        crate::world::lemma_move_preserves_unique(s1, pi, nd2);
                                        assert forall|z: u64| #[trigger]
                                            has_node(res, z) == has_node(s, z) by {
                                            crate::world::lemma_update_preserves_nodes(
                                                s,
                                                pi,
                                                nd2,
                                                z,
                                            );
                                            crate::world::lemma_move_preserves_nodes(
                                                s1,
                                                pi,
                                                nd2,
                                                z,
                                            );
                                        }
                                        assert forall|z: u64| #[trigger]
                                            has_node(s, z) && z != pid implies node_of(res, z)
                                            == node_of(s, z) by {
                                            crate::world::lemma_update_preserves_nodes(
                                                s,
                                                pi,
                                                nd2,
                                                z,
                                            );
                                            crate::world::lemma_move_preserves_nodes(
                                                s1,
                                                pi,
                                                nd2,
                                                z,
                                            );
                                        }
                                        assert(node_of(res, pid) == nd2) by {
                                            crate::world::lemma_move_preserves_nodes(
                                                s1,
                                                pi,
                                                nd2,
                                                pid,
                                            );
                                        }
                                    },
                                    _ => {
                                        if panel.drag_state is Some {
                                            assert(pid != y);
                                            let nd2 = crate::with_panel(
                                                s[pi],
                                                panel.after_release(),
                                            );
                                            assert(res == s.update(pi, nd2));
                                            crate::world::lemma_update_preserves_unique(
                                                s,
                                                pi,
                                                nd2,
                                            );
                                            assert forall|z: u64| #[trigger]
                                                has_node(res, z) == has_node(s, z) by {
                                                crate::world::lemma_update_preserves_nodes(
                                                    s,
                                                    pi,
                                                    nd2,
                                                    z,
                                                );
                                            }
                                            assert forall|z: u64| #[trigger]
                                                has_node(s, z) && z != pid implies node_of(res, z)
                                                == node_of(s, z) by {
                                                crate::world::lemma_update_preserves_nodes(
                                                    s,
                                                    pi,
                                                    nd2,
                                                    z,
                                                );
                                            }
                                            assert(node_of(res, pid) == nd2) by {
                                                crate::world::lemma_update_preserves_nodes(
                                                    s,
                                                    pi,
                                                    nd2,
                                                    pid,
                                                );
                                            }
                                        }
                                    },
                                }
                            }
                        },
                    }
                }
            },
        }
    }
}

/// Processing any list of changed titlebars none of which grabs `y` leaves
/// the panel `y` exactly as it was.
proof fn lemma_grab_fold_untouched(s: Seq<UiNode>, ts: Seq<u64>, c: Vec2i, r: u64, y: u64)
    requires
        unique_ids(s),
        has_node(s, y),
        node_of(s, y).panel is Some,
        node_of(s, y).panel->Some_0.drag_state is None,
        forall|i: int|
            0 <= i < ts.len() && has_node(s, #[trigger] ts[i]) ==> node_of(s, ts[i]).panel is None,
        forall|i: int|
            0 <= i < ts.len() && has_node(s, #[trigger] ts[i]) && node_of(s, ts[i]).parent == Some(
                y,
            ) ==> !(node_of(s, ts[i]).interaction is Pressed),
    ensures
        unique_ids(crate::grab_all_spec(s, ts, c, r)),
        has_node(crate::grab_all_spec(s, ts, c, r), y),
        node_of(crate::grab_all_spec(s, ts, c, r), y) == node_of(s, y),
        forall|z: u64| #[trigger] has_node(crate::grab_all_spec(s, ts, c, r), z) == has_node(s, z),
        forall|z: u64|
            #[trigger] has_node(s, z) ==> (node_of(crate::grab_all_spec(s, ts, c, r), z).button
                == node_of(s, z).button && node_of(crate::grab_all_spec(s, ts, c, r), z).interaction
                == node_of(s, z).interaction && node_of(
                crate::grab_all_spec(s, ts, c, r),
                z,
            ).interaction_changed == node_of(s, z).interaction_changed),
    decreases ts.len(),
{
    if ts.len() > 0 {
        let t0 = ts[0];
        let tail = ts.subrange(1, ts.len() as int);
        let s2 = grab_one_spec(s, t0, c, r);
        lemma_grab_step_untouched(s, t0, c, r, y);
        assert forall|i: int| 0 <= i < tail.len() && has_node(s2, #[trigger] tail[i]) implies node_of(
            s2,
            tail[i],
        ).panel is None by {
            assert(tail[i] == ts[i + 1]);
            assert(has_node(s, tail[i]));
            if tail[i] == y {
            } else {
                assert(node_of(s2, tail[i]).panel is Some == node_of(s, tail[i]).panel is Some);
            }
        }
        assert forall|i: int|
            0 <= i < tail.len() && has_node(s2, #[trigger] tail[i]) && node_of(s2, tail[i]).parent
                == Some(y) implies !(node_of(s2, tail[i]).interaction is Pressed) by {
            assert(tail[i] == ts[i + 1]);
            assert(has_node(s, tail[i]));
            if tail[i] == y {
            } else {
                assert(node_of(s2, tail[i]).parent == node_of(s, tail[i]).parent);
                assert(node_of(s2, tail[i]).interaction == node_of(s, tail[i]).interaction);
            }
        }
        lemma_grab_fold_untouched(s2, tail, c, r, y);
        assert(crate::grab_all_spec(s, ts, c, r) == crate::grab_all_spec(s2, tail, c, r));
        assert forall|z: u64| #[trigger]
            has_node(crate::grab_all_spec(s, ts, c, r), z) == has_node(s, z) by {
            assert(has_node(crate::grab_all_spec(s2, tail, c, r), z) == has_node(s2, z));
        }
        let res = crate::grab_all_spec(s, ts, c, r);
        assert forall|z: u64| #[trigger] has_node(s, z) implies (node_of(res, z).button == node_of(
            s,
            z,
        ).button && node_of(res, z).interaction == node_of(s, z).interaction && node_of(
            res,
            z,
        ).interaction_changed == node_of(s, z).interaction_changed) by {
            assert(has_node(s2, z));
            if z == y {
            } else {
                assert(node_of(s2, z).button == node_of(s, z).button);
                assert(node_of(s2, z).interaction == node_of(s, z).interaction);
                assert(node_of(s2, z).interaction_changed == node_of(s, z).interaction_changed);
            }
        }
    }
}

/// The parenting pass never edits panel state: it only adds parent links
/// on parentless panels, so a panel's position and drag record, every
/// titlebar's fields, and every button observation survive it.
proof fn lemma_parenting_untouched(s: Seq<UiNode>, y: u64)
    requires
        unique_ids(s),
        has_node(s, y),
        node_of(s, y).panel is Some,
        forall|k: int|
            0 <= k < s.len() && (#[trigger] s[k]).titlebar is Some ==> s[k].panel is None,
        forall|k: int|
            0 <= k < s.len() && (#[trigger] s[k]).titlebar is Some && s[k].interaction_changed
                && s[k].parent == Some(y) ==> !(s[k].interaction is Pressed),
        forall|k: int| 0 <= k < s.len() ==> !clicked_close(#[trigger] s[k]),
    ensures
        unique_ids(crate::parenting_spec(s)),
        has_node(crate::parenting_spec(s), y),
        node_of(crate::parenting_spec(s), y).panel == node_of(s, y).panel,
        forall|k: int|
            0 <= k < crate::parenting_spec(s).len() && (#[trigger] crate::parenting_spec(
                s,
            )[k]).titlebar is Some ==> crate::parenting_spec(s)[k].panel is None,
        forall|k: int|
            0 <= k < crate::parenting_spec(s).len() && (#[trigger] crate::parenting_spec(
                s,
            )[k]).titlebar is Some && crate::parenting_spec(s)[k].interaction_changed
                && crate::parenting_spec(s)[k].parent == Some(y) ==> !(crate::parenting_spec(
                s,
            )[k].interaction is Pressed),
        forall|k: int|
            0 <= k < crate::parenting_spec(s).len() ==> !clicked_close(
                #[trigger] crate::parenting_spec(s)[k],
            ),
{
    let sp = crate::parenting_spec(s);
    let u = unparented_panels(s);
    if u.len() == 0 || crate::sole_root(s) is None {
        assert(sp == s);
        assert forall|k: int| 0 <= k < sp.len() implies !clicked_close(#[trigger] sp[k]) by {}
    } else {
        let r = crate::sole_root(s)->Some_0;
        lemma_unparented_props(s);
        lemma_attach_all(s, u, r);
        assert(sp == attach_all_spec(s, u, r));
        assert(node_of(sp, y).panel == node_of(s, y).panel) by {
            if u.contains(y) {
                let w = choose|w: int| 0 <= w < u.len() && u[w] == y;
                assert(node_of(sp, u[w]) == crate::world::reparented(node_of(s, u[w]), r));
            }
        }
        assert forall|k: int|
            0 <= k < sp.len() implies (((#[trigger] sp[k]).titlebar is Some ==> sp[k].panel is None)
            && (sp[k].titlebar is Some && sp[k].interaction_changed && sp[k].parent == Some(y)
            ==> !(sp[k].interaction is Pressed)) && !clicked_close(sp[k])) by {
            crate::world::lemma_node_of_self(sp, k);
            let z = sp[k].id;
            assert(has_node(s, z));
            crate::world::lemma_idx_of(s, z);
            let j = idx_of(s, z);
            assert(node_of(s, z) == s[j]);
            if u.contains(z) {
                let w = choose|w: int| 0 <= w < u.len() && u[w] == z;
                assert(node_of(sp, u[w]) == crate::world::reparented(node_of(s, u[w]), r));
                assert(node_of(s, u[w]).panel is Some);
                assert(sp[k].panel == s[j].panel);
                assert(sp[k].titlebar == s[j].titlebar);
            } else {
                assert(node_of(sp, z) == node_of(s, z));
            }
        }
    }
}

/// The grab/drop pass leaves a panel alone when none of this frame's
/// changed titlebars grabs it, and never edits any button observation.
proof fn lemma_grab_system_untouched(sp: Seq<UiNode>, y: u64, cursor: Option<Vec2i>)
    requires
        unique_ids(sp),
        has_node(sp, y),
        node_of(sp, y).panel is Some,
        node_of(sp, y).panel->Some_0.drag_state is None,
        forall|k: int|
            0 <= k < sp.len() && (#[trigger] sp[k]).titlebar is Some ==> sp[k].panel is None,
        forall|k: int|
            0 <= k < sp.len() && (#[trigger] sp[k]).titlebar is Some && sp[k].interaction_changed
                && sp[k].parent == Some(y) ==> !(sp[k].interaction is Pressed),
        forall|k: int| 0 <= k < sp.len() ==> !clicked_close(#[trigger] sp[k]),
    ensures
        unique_ids(crate::grab_system_spec(sp, cursor)),
        has_node(crate::grab_system_spec(sp, cursor), y),
        node_of(crate::grab_system_spec(sp, cursor), y).panel == node_of(sp, y).panel,
        forall|k: int|
            0 <= k < crate::grab_system_spec(sp, cursor).len() ==> !clicked_close(
                #[trigger] crate::grab_system_spec(sp, cursor)[k],
            ),
{
    let sg = crate::grab_system_spec(sp, cursor);
    match cursor {
        Option::None => {
            assert(sg == sp);
        },
        Option::Some(c) => {
            match crate::sole_root(sp) {
                Option::None => {
                    assert(sg == sp);
                },
                Option::Some(r2) => {
                    let ts = crate::changed_titlebars(sp);
                    lemma_changed_titlebars_props(sp);
                    assert forall|i: int|
                        0 <= i < ts.len() && has_node(sp, #[trigger] ts[i]) implies node_of(
                        sp,
                        ts[i],
                    ).panel is None by {
                        crate::world::lemma_idx_of(sp, ts[i]);
                        assert(node_of(sp, ts[i]) == sp[idx_of(sp, ts[i])]);
                    }
                    assert forall|i: int|
                        0 <= i < ts.len() && has_node(sp, #[trigger] ts[i]) && node_of(
                            sp,
                            ts[i],
                        ).parent == Some(y) implies !(node_of(sp, ts[i]).interaction is Pressed) by {
                        crate::world::lemma_idx_of(sp, ts[i]);
                        assert(node_of(sp, ts[i]) == sp[idx_of(sp, ts[i])]);
                    }
                    lemma_grab_fold_untouched(sp, ts, c, r2, y);
                    assert(sg == crate::grab_all_spec(sp, ts, c, r2));
                    assert forall|k: int| 0 <= k < sg.len() implies !clicked_close(
                        #[trigger] sg[k],
                    ) by {
                        crate::world::lemma_node_of_self(sg, k);
                        let z = sg[k].id;
                        assert(has_node(sg, z));
                        assert(has_node(crate::grab_all_spec(sp, ts, c, r2), z) == has_node(
                            sp,
                            z,
                        ));
                        crate::world::lemma_idx_of(sp, z);
                        assert(node_of(sp, z) == sp[idx_of(sp, z)]);
                        assert(sg[k].button == node_of(sp, z).button);
                        assert(sg[k].interaction == node_of(sp, z).interaction);
                        assert(sg[k].interaction_changed == node_of(sp, z).interaction_changed);
                    }
                },
            }
        },
    }
}

/// Never-grabbed panels hold still: across one whole frame in which the
/// panel's titlebar sees no grab and no Close click lands, a panel with an
/// empty drag record keeps its exact panel state — the drag record stays
/// empty and the position stays at its construction value. Applying this
/// frame after frame extends the guarantee indefinitely.
pub proof fn lemma_never_grabbed_frame(s: Seq<UiNode>, y: u64, cursor: Option<Vec2i>)
    requires
        unique_ids(s),
        has_node(s, y),
        node_of(s, y).panel is Some,
        node_of(s, y).panel->Some_0.drag_state is None,
        // titlebars are pure drag handles, never panels themselves
        forall|k: int|
            0 <= k < s.len() && (#[trigger] s[k]).titlebar is Some ==> s[k].panel is None,
        // no changed titlebar of this panel is pressed this frame
        forall|k: int|
            0 <= k < s.len() && (#[trigger] s[k]).titlebar is Some && s[k].interaction_changed
                && s[k].parent == Some(y) ==> !(s[k].interaction is Pressed),
        // no Close click lands this frame
        forall|k: int| 0 <= k < s.len() ==> !clicked_close(#[trigger] s[k]),
    ensures
        has_node(crate::frame_spec(s, cursor), y),
        node_of(crate::frame_spec(s, cursor), y).panel == node_of(s, y).panel,
{
    lemma_parenting_untouched(s, y);
    let sp = crate::parenting_spec(s);
    lemma_grab_system_untouched(sp, y, cursor);
    let sg = crate::grab_system_spec(sp, cursor);
    // dragging: an empty drag record means no movement
    let sd = crate::drag_system_spec(sg, cursor);
    match cursor {
        Option::None => {
            assert(sd == sg);
        },
        Option::Some(c) => {
            let fd = |n: UiNode| crate::drag_node_spec(n, c);
            assert(sd == sg.map_values(fd));
            assert forall|n: UiNode| (#[trigger] fd(n)).id == n.id by {}
            lemma_map_node_of(sg, fd, y);
            assert(node_of(sd, y) == fd(node_of(sg, y)));
            assert forall|k: int| 0 <= k < sd.len() implies !clicked_close(#[trigger] sd[k]) by {
                assert(sd[k] == fd(sg[k]));
            }
        },
    }
    assert(has_node(sd, y) && node_of(sd, y).panel == node_of(s, y).panel);
    assert(forall|k: int| 0 <= k < sd.len() ==> !clicked_close(#[trigger] sd[k]));
    // style sync: writes styles, not panel state
    let ss = crate::sync_system_spec(sd);
    let fs = |n: UiNode| sync_node_spec(n);
    assert(ss == sd.map_values(fs));
    assert forall|n: UiNode| (#[trigger] fs(n)).id == n.id by {}
    lemma_map_node_of(sd, fs, y);
    assert(has_node(ss, y) && node_of(ss, y).panel == node_of(s, y).panel);
    assert forall|k: int| 0 <= k < ss.len() implies !clicked_close(#[trigger] ss[k]) by {
        assert(ss[k] == fs(sd[k]));
    }
    // button pass: no click lands, so only colors may change
    let sb = crate::buttons_system_spec(ss);
    let fc = |n: UiNode| crate::color_node_spec(n);
    lemma_close_targets_none(ss, ss);
    assert(sb == ss.map_values(fc));
    assert forall|n: UiNode| (#[trigger] fc(n)).id == n.id by {}
    lemma_map_node_of(ss, fc, y);
    assert(has_node(sb, y) && node_of(sb, y).panel == node_of(s, y).panel);
    // end of frame: flags drop, panel state stays
    let sc = crate::clear_changed_spec(sb);
    let fz = |n: UiNode| crate::clear_changed_node(n);
    assert(sc == sb.map_values(fz));
    assert forall|n: UiNode| (#[trigger] fz(n)).id == n.id by {}
    lemma_map_node_of(sb, fz, y);
    assert(crate::frame_spec(s, cursor) == sc);
    assert(has_node(sc, y) && node_of(sc, y).panel == node_of(s, y).panel);
}

} // verus!
