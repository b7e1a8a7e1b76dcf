use space_rts::build_queue::{stow_built_ship, BuildQueue};
use space_rts::carrying::Carrying;
use space_rts::ships::ShipType;

fn build_time(ship: ShipType) -> f32 {
    ship.build_time_halves() as f32 / 2.0
}

#[test]
fn test_build_queue() {
    let mut build_queue = BuildQueue::default();
    let mut time_of_next_pop = 0.0_f32;
    if build_queue.push(ShipType::Fighter) {
        time_of_next_pop = 0.0 + build_time(ShipType::Fighter);
    }
    let progress_time = |q: &BuildQueue, next_pop: f32, total_time: f32| {
        q.front().map(|ship| 1.0 - ((next_pop - total_time) / build_time(ship)))
    };
    assert_eq!(progress_time(&build_queue, time_of_next_pop, 0.0), Some(0.0));
    assert_eq!(progress_time(&build_queue, time_of_next_pop, 2.5), Some(0.5));
    assert_eq!(progress_time(&build_queue, time_of_next_pop, 5.0), Some(1.0));
    assert!(!build_queue.push(ShipType::Fighter));
    let queue_length = build_queue.queued_build_halves() as f32 / 2.0 + (time_of_next_pop - 2.5);
    assert_eq!(queue_length, 7.5);
}

#[test]
fn ships_come_out_first_in_first_out() {
    let mut q = BuildQueue::new();
    assert!(q.push(ShipType::Miner));
    assert!(!q.push(ShipType::Carrier));
    assert!(!q.push(ShipType::Fighter));
    assert_eq!(q.num_in_queue(), 3);
    assert_eq!(q.advance(false), None);
    assert_eq!(q.num_in_queue(), 3);
    assert_eq!(q.advance(true), Some(ShipType::Miner));
    assert_eq!(q.front(), Some(ShipType::Carrier));
    assert_eq!(q.advance(true), Some(ShipType::Carrier));
    assert_eq!(q.advance(true), Some(ShipType::Fighter));
    assert_eq!(q.advance(true), None);
    assert_eq!(q.front(), None);
}

#[test]
fn queued_build_time_skips_the_front() {
    let mut q = BuildQueue::new();
    assert_eq!(q.queued_build_halves(), 0);
    q.push(ShipType::Carrier);
    assert_eq!(q.queued_build_halves(), 0);
    q.push(ShipType::Miner);
    q.push(ShipType::Fighter);
    q.push(ShipType::Carrier);
    assert_eq!(q.queued_build_halves(), 15 + 10 + 60);
    q.stay_carried = true;
    q.advance(true);
    assert_eq!(q.queued_build_halves(), 10 + 60);
    assert!(q.stay_carried);
}

#[test]
fn built_ships_stay_aboard_when_asked() {
    let mut q = BuildQueue::new();
    let mut hangar = Carrying::new();
    assert!(!stow_built_ship(&q, &mut hangar, ShipType::Fighter, 1));
    q.stay_carried = true;
    assert!(stow_built_ship(&q, &mut hangar, ShipType::Miner, 2));
    assert!(stow_built_ship(&q, &mut hangar, ShipType::Fighter, 3));
    assert!(!stow_built_ship(&q, &mut hangar, ShipType::Carrier, 4));
    assert_eq!(hangar.iter(), vec![3, 2]);
    for i in 10..108 {
        assert!(stow_built_ship(&q, &mut hangar, ShipType::Miner, i));
    }
    assert!(!stow_built_ship(&q, &mut hangar, ShipType::Fighter, 200));
}
