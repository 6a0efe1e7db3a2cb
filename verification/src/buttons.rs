use vstd::prelude::*;
use crate::style::{Color, Interaction, Style, Val};
use crate::world::{UiNode, UiWorld};

verus! {

/// An interactive control owned by a panel. A closed set of variants, each
/// with its own three-state color table and click effect; the one variant so
/// far closes the owning panel.
#[derive(Clone, Copy, Debug, PartialEq, Eq, Structural)]
pub enum UiPanelButton {
    Close,
}

impl UiPanelButton {
    /// The display color of this button under the given interaction state:
    /// a fixed, distinct color per variant and state.
    pub open spec fn color_spec(self, interaction: Interaction) -> Color {
        match self {
            UiPanelButton::Close => match interaction {
                Interaction::Pressed => Color { red: 1000, green: 400, blue: 400, alpha: 1000 },
                Interaction::Hovered => Color { red: 700, green: 300, blue: 300, alpha: 1000 },
                Interaction::Idle => Color { red: 800, green: 400, blue: 400, alpha: 1000 },
            },
        }
    }

    pub fn color(&self, interaction: &Interaction) -> (r: Color)
        ensures
            r == self.color_spec(*interaction),
    {
        match self {
            UiPanelButton::Close => match *interaction {
                Interaction::Pressed => Color::rgb(1000, 400, 400),
                Interaction::Hovered => Color::rgb(700, 300, 300),
                Interaction::Idle => Color::rgb(800, 400, 400),
            },
        }
    }

    /// The node this button's `spawn` adds under `parent`: a clickable
    /// square of edge `size`, initialized to the variant's idle color.
    pub open spec fn spawn_node_spec(self, id: u64, parent: u64, size: Val) -> UiNode {
        UiNode {
            id,
            parent: Some(parent),
            style: Style {
                position_type: crate::style::PositionType::Relative,
                left: Val::Undefined,
                top: Val::Undefined,
                width: size,
                height: size,
            },
            color: self.color_spec(Interaction::Idle),
            interaction: Interaction::Idle,
            interaction_changed: false,
            panel: None,
            titlebar: None,
            content: None,
            panel_parent: false,
            button: Some(self),
            text: None,
        }
    }

    /// Creates the button's clickable node as a child of `parent`, sized to
    /// a square of edge `size` and painted the variant's idle color.
    /// Returns the new node's entity id.
    pub fn spawn(self, world: &mut UiWorld, parent: u64, size: Val) -> (id: u64)
        requires
            old(world).wf(),
            old(world).next_id < u64::MAX,
        ensures
            final(world).wf(),
            id == old(world).next_id,
            final(world).next_id == old(world).next_id + 1,
            final(world).nodes@ == old(world).nodes@.push(self.spawn_node_spec(id, parent, size)),
    {
        let mut style = Style::base();
        style.width = size;
        style.height = size;
        let node = UiNode {
            id: 0,
            parent: Some(parent),
            style,
            color: self.color(&Interaction::Idle),
            interaction: Interaction::Idle,
            interaction_changed: false,
            panel: None,
            titlebar: None,
            content: None,
            panel_parent: false,
            button: Some(self),
            text: None,
        };
        world.spawn_node(node)
    }
}

} // verus!
