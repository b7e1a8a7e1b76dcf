use space_rts::ships::{all_models, ModelId, ShipType, MODEL_COUNT};

#[test]
fn ship_models() {
    assert_eq!(ShipType::Carrier.model_id(), ModelId::Carrier);
    assert_eq!(ShipType::Fighter.model_id(), ModelId::Fighter);
    assert_eq!(ShipType::Miner.model_id(), ModelId::Miner);
}

#[test]
fn build_times_and_costs() {
    assert_eq!(ShipType::Carrier.build_time_halves(), 60);
    assert_eq!(ShipType::Fighter.build_time_halves(), 10);
    assert_eq!(ShipType::Miner.build_time_halves(), 15);
    assert_eq!(ShipType::Carrier.build_cost_halves(), 300);
    assert_eq!(ShipType::Fighter.build_cost_halves(), 50);
    assert_eq!(ShipType::Miner.build_cost_halves(), 75);
}

#[test]
fn model_table_order() {
    let models = all_models();
    assert_eq!(models.len(), MODEL_COUNT);
    for (i, m) in models.iter().enumerate() {
        assert_eq!(m.index(), i);
    }
    assert_eq!(ModelId::Asteroid.index(), 4);
    assert_eq!(ModelId::Explosion.index(), 3);
}
