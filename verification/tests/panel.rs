use space_rts::components::{PersonEnum, MoveType, InteractionType};
use space_rts::ships::ModelId;
use space_rts::ui::{count, text_runs, UnitButtons, UnitStatus};

#[test]
fn person_from_markers() {
    assert_eq!(PersonEnum::new(true, false), PersonEnum::Engineer);
    assert_eq!(PersonEnum::new(false, true), PersonEnum::Researcher);
    assert_eq!(PersonEnum::new(false, false), PersonEnum::Civilian);
    assert_eq!(PersonEnum::new(true, true), PersonEnum::Civilian);
    assert_eq!(PersonEnum::COUNT, 3);
    assert_eq!(PersonEnum::array(), [PersonEnum::Civilian, PersonEnum::Engineer, PersonEnum::Researcher]);
    assert_ne!(MoveType::Normal, MoveType::Attack);
    assert_ne!(InteractionType::Mine, InteractionType::Attack);
}

#[test]
fn status_from_markers() {
    assert_eq!(UnitStatus::from_bools(true, false, true), UnitStatus::Friendly { carried: true });
    assert_eq!(UnitStatus::from_bools(true, false, false), UnitStatus::Friendly { carried: false });
    assert_eq!(UnitStatus::from_bools(false, true, true), UnitStatus::Enemy);
    assert_eq!(UnitStatus::from_bools(true, true, false), UnitStatus::Neutral);
    assert_eq!(UnitStatus::from_bools(false, false, false), UnitStatus::Neutral);
}

#[test]
fn status_labels() {
    assert_eq!(UnitStatus::Friendly { carried: false }.to_str(), "Friendly");
    assert_eq!(UnitStatus::Friendly { carried: true }.to_str(), "Friendly (being carried)");
    assert_eq!(UnitStatus::Neutral.to_str(), "Neutral");
    assert_eq!(UnitStatus::Enemy.to_str(), "Enemy");
}

#[test]
fn counts_per_model() {
    let models = [ModelId::Fighter, ModelId::Asteroid, ModelId::Fighter, ModelId::Carrier];
    assert_eq!(count(&models), [1, 2, 0, 0, 1]);
    assert_eq!(count(&[]), [0, 0, 0, 0, 0]);
}

#[test]
fn buttons_for_models_with_units() {
    let mut buttons = UnitButtons(Vec::new());
    buttons.push_status(UnitStatus::Enemy, &[0, 3, 0, 0, 1]);
    buttons.push_status(UnitStatus::Neutral, &[0, 0, 0, 0, 0]);
    buttons.push_status(UnitStatus::Friendly { carried: true }, &[2, 0, 1, 0, 0]);
    assert_eq!(
        buttons.0,
        vec![
            (ModelId::Fighter, UnitStatus::Enemy),
            (ModelId::Asteroid, UnitStatus::Enemy),
            (ModelId::Carrier, UnitStatus::Friendly { carried: true }),
            (ModelId::Miner, UnitStatus::Friendly { carried: true }),
        ]
    );
}

#[test]
fn text_runs_are_laid_end_to_end() {
    assert_eq!(text_runs(&[3, 0, 5]), vec![(0, 3), (3, 3), (3, 8)]);
    assert_eq!(text_runs(&[]), Vec::<(usize, usize)>::new());
}
