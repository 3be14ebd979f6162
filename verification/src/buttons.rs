//! The button style engine: which material a button shows.

use vstd::prelude::*;
use crate::ids::{MaterialId, NodeId};
use crate::interaction::Interaction;

verus! {

/// The materials that the host has loaded for the user interface.
#[derive(Debug, Clone, Copy, PartialEq, Eq, Structural)]
pub struct ColorMaterials {
    pub page_background: MaterialId,
    pub white: MaterialId,
    pub btn_normal: MaterialId,
    pub btn_hovered: MaterialId,
    pub btn_pressed: MaterialId,
}

/// How a button looks in each of its states.
#[derive(Debug, Clone, Copy, PartialEq, Eq, Structural)]
pub struct ButtonBehavior {
    pub normal: MaterialId,
    pub pressed: MaterialId,
    pub hover: MaterialId,
    /// What the button shows while it is active, if that differs from
    /// `normal`.
    pub active: Option<MaterialId>,
    /// Set by the feature that owns the button, a selected tab for one.
    pub is_active: bool,
}

/// The colors that a text button is created with; a color left out is
/// taken from the loaded materials.
#[derive(Debug, Clone, Copy, PartialEq, Eq, Structural)]
pub struct TextButtonNode {
    pub color_normal: Option<MaterialId>,
    pub color_pressed: Option<MaterialId>,
    pub color_hover: Option<MaterialId>,
    pub color_active: Option<MaterialId>,
}

impl Default for TextButtonNode {
    fn default() -> (node: TextButtonNode)
        ensures
            node == (TextButtonNode {
                color_normal: None,
                color_pressed: None,
                color_hover: None,
                color_active: None,
            }),
    {
        TextButtonNode { color_normal: None, color_pressed: None, color_hover: None, color_active: None }
    }
}

/// A styled button as the host holds it: its state, its looks, and the
/// material it shows now.
#[derive(Debug, Clone, Copy, PartialEq, Eq, Structural)]
pub struct ButtonNode {
    pub entity: NodeId,
    pub interaction: Interaction,
    pub behavior: ButtonBehavior,
    pub material: MaterialId,
}

impl ButtonBehavior {
    /// The material to show: an active button shows its active material,
    /// or the normal one where it has none, whatever the pointer does;
    /// another button shows what the pointer does to it.
    pub open spec fn shown(self, interaction: Interaction) -> MaterialId {
        if self.is_active {
            match self.active {
                Some(material) => material,
                None => self.normal,
            }
        } else {
            match interaction {
                Interaction::Clicked => self.pressed,
                Interaction::Hovered => self.hover,
                Interaction::Idle => self.normal,
            }
        }
    }

    /// The material to show in the given state of the pointer.
    pub fn material(&self, interaction: Interaction) -> (material: MaterialId)
        ensures
            material == self.shown(interaction),
    {
        if self.is_active {
            match self.active {
                Some(material) => material,
                None => self.normal,
            }
        } else {
            match interaction {
                Interaction::Clicked => self.pressed,
                Interaction::Hovered => self.hover,
                Interaction::Idle => self.normal,
            }
        }
    }
}

/// The looks of a new text button: the colors of `node`, and for each color
/// left out the button color of `colors`. The button starts inactive.
pub fn text_button_behavior(colors: &ColorMaterials, node: &TextButtonNode) -> (behavior:
    ButtonBehavior)
    ensures
        behavior.normal == node.color_normal.unwrap_or(colors.btn_normal),
        behavior.hover == node.color_hover.unwrap_or(colors.btn_hovered),
        behavior.pressed == node.color_pressed.unwrap_or(colors.btn_pressed),
        behavior.active == node.color_active,
        !behavior.is_active,
{
    ButtonBehavior {
        normal: match node.color_normal {
            Some(material) => material,
            None => colors.btn_normal,
        },
        hover: match node.color_hover {
            Some(material) => material,
            None => colors.btn_hovered,
        },
        pressed: match node.color_pressed {
            Some(material) => material,
            None => colors.btn_pressed,
        },
        active: node.color_active,
        is_active: false,
    }
}

/// The button with the material that its state calls for.
pub open spec fn restyled(button: ButtonNode) -> ButtonNode {
    ButtonNode {
        entity: button.entity,
        interaction: button.interaction,
        behavior: button.behavior,
        material: button.behavior.shown(button.interaction),
    }
}

/// The buttons whose material differs from what their state calls for, in
/// their order.
pub open spec fn restyled_nodes(buttons: Seq<ButtonNode>) -> Seq<NodeId>
    decreases buttons.len(),
{
    if buttons.len() == 0 {
        Seq::empty()
    } else if buttons.last().material != buttons.last().behavior.shown(buttons.last().interaction) {
        restyled_nodes(buttons.drop_last()).push(buttons.last().entity)
    } else {
        restyled_nodes(buttons.drop_last())
    }
}

/// The active flag wins over the pointer: an active button shows the same
/// material in every state.
pub proof fn lemma_active_wins(behavior: ButtonBehavior, a: Interaction, b: Interaction)
    requires
        behavior.is_active,
    ensures
        behavior.shown(a) == behavior.shown(b),
        behavior.active is Some ==> behavior.shown(a) == behavior.active.unwrap(),
        behavior.active is None ==> behavior.shown(a) == behavior.normal,
{
}

/// Where neither the state nor the active flag of any button changed since
/// the last pass, a pass writes no material.
pub proof fn lemma_restyle_is_stable(buttons: Seq<ButtonNode>)
    requires
        forall|i: int| 0 <= i < buttons.len() ==> #[trigger] buttons[i] == restyled(buttons[i]),
    ensures
        restyled_nodes(buttons) == Seq::<NodeId>::empty(),
    decreases buttons.len(),
{
    if buttons.len() > 0 {
        let front = buttons.drop_last();
        assert forall|i: int| 0 <= i < front.len() implies #[trigger] front[i] == restyled(
            front[i],
        ) by {
            assert(front[i] == buttons[i]);
        }
        lemma_restyle_is_stable(front);
        assert(buttons.last() == restyled(buttons[buttons.len() - 1]));
    }
}

/// Gives every button the material that its state and its active flag call
/// for. A button that shows that material already is not written to. Returns
/// the buttons that were written, in their order.
pub fn button_interaction_system(buttons: &mut Vec<ButtonNode>) -> (written: Vec<NodeId>)
    ensures
        final(buttons)@.len() == old(buttons)@.len(),
        forall|i: int|
            0 <= i < old(buttons)@.len() ==> #[trigger] final(buttons)@[i] == restyled(
                old(buttons)@[i],
            ),
        written@ == restyled_nodes(old(buttons)@),
{
    let mut written: Vec<NodeId> = Vec::new();
    let mut i: usize = 0;
    while i < buttons.len()
        invariant
            i <= buttons@.len(),
            buttons@.len() == old(buttons)@.len(),
            forall|k: int| 0 <= k < i ==> #[trigger] buttons@[k] == restyled(old(buttons)@[k]),
            forall|k: int| i <= k < buttons@.len() ==> #[trigger] buttons@[k] == old(buttons)@[k],
            written@ == restyled_nodes(old(buttons)@.take(i as int)),
        decreases buttons@.len() - i,
    {
        proof {
            assert(old(buttons)@.take(i + 1).drop_last() == old(buttons)@.take(i as int));
        }
        let material = buttons[i].behavior.material(buttons[i].interaction);
        if buttons[i].material != material {
            buttons[i].material = material;
            written.push(buttons[i].entity);
        }
        i = i + 1;
    }
    proof {
        assert(old(buttons)@.take(i as int) == old(buttons)@);
    }
    written
}

} // verus!
