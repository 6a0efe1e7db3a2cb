use vstd::prelude::*;
use crate::world::{idx_of, UiNode, UiWorld};

verus! {

/// The component a hierarchy walk looks for: each variant names one of the
/// component kinds a node can carry.
#[derive(Clone, Copy, Debug, PartialEq, Eq, Structural)]
pub enum UiMarker {
    Panel,
    Titlebar,
    Content,
    PanelParent,
    Button,
}

/// Whether the node carries the component named by `marker`.
pub open spec fn has_marker(n: UiNode, marker: UiMarker) -> bool {
    match marker {
        UiMarker::Panel => n.panel is Some,
        UiMarker::Titlebar => n.titlebar is Some,
        UiMarker::Content => n.content is Some,
        UiMarker::PanelParent => n.panel_parent,
        UiMarker::Button => n.button is Some,
    }
}

/// The first strict ancestor of `e` carrying `marker`, found by following
/// parent links for at most `fuel` further steps after the first: `None`
/// when a parentless (or missing) entity is reached first, or when the
/// budget runs out.
pub open spec fn climb_spec(s: Seq<UiNode>, e: u64, marker: UiMarker, fuel: nat) -> Option<u64>
    decreases fuel,
{
    let ei = idx_of(s, e);
    if ei < 0 {
        None
    } else {
        match s[ei].parent {
            Option::None => None,
            Option::Some(p) => {
                let pi = idx_of(s, p);
                if pi < 0 {
                    None
                } else if has_marker(s[pi], marker) {
                    Some(p)
                } else if fuel == 0 {
                    None
                } else {
                    climb_spec(s, p, marker, (fuel - 1) as nat)
                }
            },
        }
    }
}

/// Walks the parent chain upward from `entity` and returns the first
/// ancestor (strictly above the start, never the start itself) that carries
/// `marker`. Reaching an entity without a parent before a match yields
/// `None`: the normal, expected "no matching ancestor" outcome, not an
/// error. The walk is bounded by the number of nodes, so a hierarchy
/// corrupted into a cycle exhausts the bound and yields `None` instead of
/// hanging.
pub fn climb_parents(world: &UiWorld, entity: u64, marker: UiMarker) -> (r: Option<u64>)
    ensures
        r == climb_spec(world.nodes@, entity, marker, world.nodes@.len() as nat),
{
    let s_len = world.nodes.len();
    let mut cur = entity;
    let mut fuel = s_len;
    loop
        invariant
            climb_spec(world.nodes@, entity, marker, s_len as nat) == climb_spec(
                world.nodes@,
                cur,
                marker,
                fuel as nat,
            ),
            s_len == world.nodes@.len(),
        decreases fuel,
    {
        match world.find(cur) {
            None => {
                return None;
            },
            Some(ci) => {
                match world.nodes[ci].parent {
                    None => {
                        return None;
                    },
                    Some(p) => {
                        match world.find(p) {
                            None => {
                                return None;
                            },
                            Some(pi) => {
                                if marker_check(&world.nodes[pi], marker) {
                                    return Some(p);
                                }
                                if fuel == 0 {
                                    return None;
                                }
                                cur = p;
                                fuel = fuel - 1;
                            },
                        }
                    },
                }
            },
        }
    }
}

/// Checks `has_marker` on a node.
fn marker_check(n: &UiNode, marker: UiMarker) -> (r: bool)
    ensures
        r == has_marker(*n, marker),
{
    match marker {
        UiMarker::Panel => n.panel.is_some(),
        UiMarker::Titlebar => n.titlebar.is_some(),
        UiMarker::Content => n.content.is_some(),
        UiMarker::PanelParent => n.panel_parent,
        UiMarker::Button => n.button.is_some(),
    }
}

} // verus!
