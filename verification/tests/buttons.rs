use todomvc::buttons::{
    button_interaction_system, text_button_behavior, ButtonBehavior, ButtonNode, ColorMaterials,
    TextButtonNode,
};
use todomvc::ids::{MaterialId, NodeId};
use todomvc::interaction::Interaction;

fn behavior(active: Option<u32>, is_active: bool) -> ButtonBehavior {
    ButtonBehavior {
        normal: MaterialId(1),
        pressed: MaterialId(2),
        hover: MaterialId(3),
        active: active.map(MaterialId),
        is_active,
    }
}

fn colors() -> ColorMaterials {
    ColorMaterials {
        page_background: MaterialId(10),
        white: MaterialId(11),
        btn_normal: MaterialId(12),
        btn_hovered: MaterialId(13),
        btn_pressed: MaterialId(14),
    }
}

#[test]
fn material_follows_the_pointer() {
    let b = behavior(Some(4), false);
    assert_eq!(b.material(Interaction::Idle), MaterialId(1));
    assert_eq!(b.material(Interaction::Clicked), MaterialId(2));
    assert_eq!(b.material(Interaction::Hovered), MaterialId(3));
}

#[test]
fn active_wins_over_the_pointer() {
    let b = behavior(Some(4), true);
    assert_eq!(b.material(Interaction::Idle), MaterialId(4));
    assert_eq!(b.material(Interaction::Clicked), MaterialId(4));
    assert_eq!(b.material(Interaction::Hovered), MaterialId(4));
}

#[test]
fn active_without_a_material_shows_normal() {
    let b = behavior(None, true);
    assert_eq!(b.material(Interaction::Idle), MaterialId(1));
    assert_eq!(b.material(Interaction::Clicked), MaterialId(1));
    assert_eq!(b.material(Interaction::Hovered), MaterialId(1));
}

#[test]
fn text_button_takes_missing_colors_from_the_materials() {
    let plain = text_button_behavior(&colors(), &TextButtonNode::default());
    assert_eq!(
        plain,
        ButtonBehavior {
            normal: MaterialId(12),
            pressed: MaterialId(14),
            hover: MaterialId(13),
            active: None,
            is_active: false,
        }
    );
    let own = text_button_behavior(
        &colors(),
        &TextButtonNode {
            color_normal: Some(MaterialId(1)),
            color_pressed: Some(MaterialId(2)),
            color_hover: Some(MaterialId(3)),
            color_active: Some(MaterialId(4)),
        },
    );
    assert_eq!(own, behavior(Some(4), false));
    let mixed = text_button_behavior(
        &colors(),
        &TextButtonNode { color_hover: Some(MaterialId(3)), ..TextButtonNode::default() },
    );
    assert_eq!(mixed.normal, MaterialId(12));
    assert_eq!(mixed.hover, MaterialId(3));
    assert_eq!(mixed.pressed, MaterialId(14));
}

#[test]
fn the_engine_writes_only_what_differs() {
    let mut buttons = vec![
        ButtonNode {
            entity: NodeId(1),
            interaction: Interaction::Hovered,
            behavior: behavior(None, false),
            material: MaterialId(1),
        },
        ButtonNode {
            entity: NodeId(2),
            interaction: Interaction::Idle,
            behavior: behavior(None, false),
            material: MaterialId(1),
        },
        ButtonNode {
            entity: NodeId(3),
            interaction: Interaction::Clicked,
            behavior: behavior(Some(4), true),
            material: MaterialId(2),
        },
        ButtonNode {
            entity: NodeId(4),
            interaction: Interaction::Clicked,
            behavior: behavior(Some(4), false),
            material: MaterialId(2),
        },
    ];
    let written = button_interaction_system(&mut buttons);
    assert_eq!(written, vec![NodeId(1), NodeId(3)]);
    assert_eq!(buttons[0].material, MaterialId(3));
    assert_eq!(buttons[1].material, MaterialId(1));
    assert_eq!(buttons[2].material, MaterialId(4));
    assert_eq!(buttons[3].material, MaterialId(2));
    assert_eq!(buttons[0].interaction, Interaction::Hovered);
    assert_eq!(buttons[2].behavior, behavior(Some(4), true));
    // Nothing changed since: nothing is written.
    assert!(button_interaction_system(&mut buttons).is_empty());
}

#[test]
fn the_engine_follows_a_change_of_the_active_flag() {
    let mut buttons = vec![ButtonNode {
        entity: NodeId(1),
        interaction: Interaction::Hovered,
        behavior: behavior(Some(4), false),
        material: MaterialId(3),
    }];
    assert!(button_interaction_system(&mut buttons).is_empty());
    buttons[0].behavior.is_active = true;
    assert_eq!(button_interaction_system(&mut buttons), vec![NodeId(1)]);
    assert_eq!(buttons[0].material, MaterialId(4));
    buttons[0].interaction = Interaction::Clicked;
    assert!(button_interaction_system(&mut buttons).is_empty());
    buttons[0].behavior.is_active = false;
    assert_eq!(button_interaction_system(&mut buttons), vec![NodeId(1)]);
    assert_eq!(buttons[0].material, MaterialId(2));
}
