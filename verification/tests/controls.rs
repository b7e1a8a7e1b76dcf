use space_rts::components::{InteractionType, MoveType};
use space_rts::controls::{button_click_deselects, right_click, scene_click, MouseMode, Order, TargetKind};

type Mode = MouseMode<f32>;

#[test]
fn right_click_on_entities_orders_interactions() {
    let (mode, order) = right_click::<f32, (f32, f32, f32)>(Mode::Normal, Some(TargetKind::Enemy), false, Some(1.0), None);
    assert_eq!(mode, Mode::Normal);
    assert_eq!(order, Some(Order::Interact { ty: InteractionType::Attack, keep_queue: false }));
    let moving = Mode::Movement { plane_y: 2.0, ty: MoveType::Normal };
    let (mode, order) = right_click::<f32, (f32, f32, f32)>(moving, Some(TargetKind::Carrier), true, None, None);
    assert_eq!(mode, Mode::Normal);
    assert_eq!(order, Some(Order::Interact { ty: InteractionType::BeCarriedBy, keep_queue: true }));
    let (_, order) = right_click::<f32, (f32, f32, f32)>(Mode::Normal, Some(TargetKind::Minable), false, None, None);
    assert_eq!(order, Some(Order::Interact { ty: InteractionType::Mine, keep_queue: false }));
    let (mode, order) = right_click::<f32, (f32, f32, f32)>(moving, Some(TargetKind::Other), false, None, None);
    assert_eq!(mode, Mode::Normal);
    assert_eq!(order, None);
}

#[test]
fn right_click_on_space_starts_then_gives_a_move() {
    let (mode, order) = right_click::<f32, (f32, f32, f32)>(Mode::Normal, None, false, Some(4.5), None);
    assert_eq!(mode, Mode::Movement { plane_y: 4.5, ty: MoveType::Normal });
    assert_eq!(order, None);
    let (mode, order) = right_click::<f32, (f32, f32, f32)>(Mode::Normal, None, false, None, None);
    assert_eq!(mode, Mode::Normal);
    assert_eq!(order, None);
    let attacking = Mode::Movement { plane_y: 4.5, ty: MoveType::Attack };
    let (mode, order) = right_click(attacking, None, false, None, Some((1.0, 4.5, 3.0)));
    assert_eq!(mode, Mode::Normal);
    assert_eq!(order, Some(Order::MoveTo { point: (1.0, 4.5, 3.0), ty: MoveType::Attack }));
    let (mode, order) = right_click::<f32, (f32, f32, f32)>(attacking, None, false, None, None);
    assert_eq!(mode, Mode::Normal);
    assert_eq!(order, None);
}

#[test]
fn attack_move_and_escape() {
    let mut mode = Mode::default();
    mode.attack_move(None);
    assert_eq!(mode, Mode::Normal);
    mode.attack_move(Some(3.0));
    assert_eq!(mode, Mode::Movement { plane_y: 3.0, ty: MoveType::Attack });
    let mut moving = Mode::Movement { plane_y: 1.0, ty: MoveType::Normal };
    moving.attack_move(Some(9.0));
    assert_eq!(moving, Mode::Movement { plane_y: 1.0, ty: MoveType::Attack });
    assert!(moving.is_movement());
    moving.escape();
    assert_eq!(moving, Mode::Normal);
}

#[test]
fn left_click_cancels_a_move() {
    let mut mode = Mode::Movement { plane_y: 1.0, ty: MoveType::Normal };
    assert!(mode.left_click());
    assert_eq!(mode, Mode::Normal);
    assert!(!mode.left_click());
}

#[test]
fn selection_by_clicks() {
    assert_eq!(scene_click(false, Some(true)), (true, Some(true)));
    assert_eq!(scene_click(true, Some(true)), (false, Some(false)));
    assert_eq!(scene_click(true, Some(false)), (false, Some(true)));
    assert_eq!(scene_click(false, None), (true, None));
    assert!(!button_click_deselects(true, false));
    assert!(button_click_deselects(false, false));
    assert!(button_click_deselects(true, true));
    assert!(!button_click_deselects(false, true));
}
