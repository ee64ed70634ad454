use hackdose::control::{
    compute_actor_state, compute_system_state, get_actor, get_random_element, index_from_draw,
    select_actor,
    ActorKind, ActorMode, ActorState, Command, Controller, DeviceCommand, Side, SystemState,
    ThresholdActor,
};

#[test]
fn charges_if_below_threshold() {
    let should_be_on = compute_actor_state(false, -100, -50, 100, ActorMode::Charge);
    assert_eq!(should_be_on, true);
}

#[test]
fn does_nothing_if_charging_and_if_below_threshold() {
    let should_be_on = compute_actor_state(true, -100, -50, 100, ActorMode::Charge);
    assert_eq!(should_be_on, true);
}

#[test]
fn stays_on_if_charging_and_if_between_thresholds() {
    let should_be_on = compute_actor_state(true, -30, -50, 100, ActorMode::Charge);
    assert_eq!(should_be_on, true);
}

#[test]
fn stops_charging_if_above_threshold() {
    let should_be_on = compute_actor_state(true, 200, -50, 100, ActorMode::Charge);
    assert_eq!(should_be_on, false);
}

#[test]
fn stays_not_charging_if_above_threshold() {
    let should_be_on = compute_actor_state(false, 200, -50, 100, ActorMode::Charge);
    assert_eq!(should_be_on, false);
}

#[test]
fn discharges_if_above_threshold() {
    let should_be_on = compute_actor_state(false, 200, 100, 0, ActorMode::Discharge);
    assert_eq!(should_be_on, true);
}

#[test]
fn keeps_on_discharging_if_above_threshold() {
    let should_be_on = compute_actor_state(true, 200, 100, 0, ActorMode::Discharge);
    assert_eq!(should_be_on, true);
}

#[test]
fn stays_on_if_discharging_and_if_between_thresholds() {
    let should_be_on = compute_actor_state(true, 50, 100, 0, ActorMode::Discharge);
    assert_eq!(should_be_on, true);
}

#[test]
fn stops_discharging_if_below_threshold() {
    let should_be_on = compute_actor_state(false, -100, 100, 0, ActorMode::Discharge);
    assert_eq!(should_be_on, false);
}

#[test]
fn stays_not_discharging_if_below_threshold() {
    let should_be_on = compute_actor_state(false, -100, 100, 0, ActorMode::Discharge);
    assert_eq!(should_be_on, false);
}

const NOW: i64 = 1_700_000_000_000;

fn switch_on(nominal_watts: u32) -> ActorState {
    ActorState {
        busy_until: None,
        settling_seconds: 60,
        kind: ActorKind::Switching {
            on: true,
            nominal_watts,
        },
    }
}

#[test]
fn engages_consumer_on_surplus() {
    let mut c = Controller::new(vec![], vec![ActorState::switching(500, 60)], -300, 100);
    let commands = c.handle_sample(-700, NOW, NOW);
    assert_eq!(
        commands,
        vec![Command {
            side: Side::Consumer,
            index: 0,
            action: DeviceCommand::On
        }]
    );
    assert_eq!(
        c.consumers[0],
        ActorState {
            busy_until: Some(NOW + 60_000),
            settling_seconds: 60,
            kind: ActorKind::Switching {
                on: true,
                nominal_watts: 500
            }
        }
    );
}

#[test]
fn settling_gate_blocks_release() {
    let mut c = Controller::new(vec![], vec![ActorState::switching(500, 60)], -300, 100);
    c.handle_sample(-700, NOW, NOW);
    let before = c.consumers[0];
    let commands = c.handle_sample(400, NOW + 1000, NOW + 1000);
    assert!(commands.is_empty());
    assert_eq!(c.consumers[0], before);
}

#[test]
fn releases_consumers_in_reverse_order() {
    let mut c = Controller::new(vec![], vec![switch_on(300), switch_on(400)], -300, 100);
    let commands = c.handle_sample(600, NOW, NOW);
    assert_eq!(
        commands,
        vec![
            Command {
                side: Side::Consumer,
                index: 1,
                action: DeviceCommand::Off
            },
            Command {
                side: Side::Consumer,
                index: 0,
                action: DeviceCommand::Off
            },
        ]
    );
    assert!(!c.consumers[0].is_active());
    assert!(!c.consumers[1].is_active());
}

#[test]
fn stops_releasing_when_satisfied() {
    // delta = |200 - (-100)| = 300: B gives 400 and A stays on.
    let mut c = Controller::new(vec![], vec![switch_on(300), switch_on(400)], -300, 100);
    let commands = c.handle_sample(200, NOW, NOW);
    assert_eq!(commands.len(), 1);
    assert_eq!(commands[0].index, 1);
    assert!(c.consumers[0].is_active());
}

#[test]
fn discards_sample_from_the_future() {
    let mut c = Controller::new(vec![ActorState::switching(100, 0)], vec![], -300, 100);
    let commands = c.handle_sample(10_000, NOW + 10_000, NOW);
    assert!(commands.is_empty());
    assert!(!c.producers[0].is_active());
}

#[test]
fn accepts_sample_within_clock_skew() {
    let mut c = Controller::new(vec![ActorState::switching(100, 0)], vec![], -300, 100);
    let commands = c.handle_sample(10_000, NOW + 5_000, NOW);
    assert_eq!(commands.len(), 1);
}

#[test]
fn engages_producers_on_import_in_priority_order() {
    // margin 0, delta 900: the regulator gives 600 and the switch 200.
    let p = vec![ActorState::regulating(600, 30), ActorState::switching(200, 30)];
    let mut c = Controller::new(p, vec![], -100, 100);
    let commands = c.handle_sample(900, NOW, NOW);
    assert_eq!(
        commands,
        vec![
            Command {
                side: Side::Producer,
                index: 0,
                action: DeviceCommand::SetPower(600)
            },
            Command {
                side: Side::Producer,
                index: 1,
                action: DeviceCommand::On
            },
        ]
    );
}

#[test]
fn does_nothing_inside_dead_band() {
    let mut c = Controller::new(vec![ActorState::switching(100, 0)], vec![], -300, 100);
    assert!(c.handle_sample(50, NOW, NOW).is_empty());
    assert!(c.handle_sample(-300, NOW, NOW).is_empty());
    assert!(c.handle_sample(100, NOW, NOW).is_empty());
}

#[test]
fn system_state_follows_active_actors() {
    let off = vec![ActorState::switching(100, 0)];
    let on = vec![switch_on(100)];
    assert_eq!(compute_system_state(&off, &off), SystemState::AllOff);
    assert_eq!(compute_system_state(&on, &off), SystemState::Producing);
    assert_eq!(compute_system_state(&off, &on), SystemState::Consuming);
    assert_eq!(compute_system_state(&on, &on), SystemState::Producing);
    assert_eq!(compute_system_state(&vec![], &vec![]), SystemState::AllOff);
}

#[test]
fn switch_engages_once() {
    let mut a = ActorState::switching(200, 10);
    assert_eq!(a.increase_effect_by(500, NOW), (200, Some(DeviceCommand::On)));
    assert_eq!(a.increase_effect_by(500, NOW + 20_000), (0, None));
    assert_eq!(a.reduce_effect_by(500, NOW + 40_000), (200, Some(DeviceCommand::Off)));
    assert_eq!(a.increase_effect_by(500, NOW + 60_000), (200, Some(DeviceCommand::On)));
}

#[test]
fn switch_too_large_is_not_engaged() {
    let mut a = ActorState::switching(600, 10);
    assert_eq!(a.increase_effect_by(500, NOW), (0, None));
    assert!(!a.is_active());
}

#[test]
fn busy_actor_refuses_until_settled() {
    let mut a = ActorState::switching(200, 10);
    a.increase_effect_by(500, NOW);
    assert_eq!(a.reduce_effect_by(500, NOW + 9_999), (0, None));
    assert!(a.is_busy(NOW + 9_999));
    assert!(!a.is_busy(NOW + 10_000));
    assert_eq!(a.reduce_effect_by(500, NOW + 10_000), (200, Some(DeviceCommand::Off)));
}

#[test]
fn busy_until_never_moves_backward() {
    let mut a = ActorState {
        busy_until: Some(NOW + 100_000),
        settling_seconds: 10,
        kind: ActorKind::Regulating {
            current_watts: 0,
            max_watts: 100,
        },
    };
    a.increase_effect_by(50, NOW + 200_000);
    assert_eq!(a.busy_until, Some(NOW + 210_000));
    let mut b = ActorState {
        busy_until: Some(NOW + 100_000),
        settling_seconds: 10,
        kind: ActorKind::Regulating {
            current_watts: 0,
            max_watts: 100,
        },
    };
    assert_eq!(b.increase_effect_by(50, NOW), (0, None));
}

#[test]
fn regulator_increase_is_capped() {
    let mut a = ActorState::regulating(1000, 0);
    assert_eq!(a.increase_effect_by(300, NOW), (300, Some(DeviceCommand::SetPower(300))));
    assert_eq!(a.power(), 300);
    assert_eq!(a.increase_effect_by(500, NOW), (500, Some(DeviceCommand::SetPower(800))));
    assert_eq!(a.power(), 800);
    assert_eq!(a.increase_effect_by(500, NOW), (200, Some(DeviceCommand::SetPower(1000))));
    assert_eq!(a.power(), 1000);
    assert_eq!(a.increase_effect_by(500, NOW), (0, None));
}

#[test]
fn regulator_reduce_stops_at_zero() {
    let mut a = ActorState::regulating(1000, 0);
    a.increase_effect_by(300, NOW);
    assert_eq!(a.reduce_effect_by(100, NOW), (100, Some(DeviceCommand::SetPower(200))));
    assert_eq!(a.reduce_effect_by(500, NOW), (200, Some(DeviceCommand::SetPower(0))));
    assert_eq!(a.reduce_effect_by(500, NOW), (0, None));
}

#[test]
fn startup_turns_everything_off() {
    let c = Controller::new(
        vec![ActorState::regulating(800, 0)],
        vec![ActorState::switching(100, 0)],
        -300,
        100,
    );
    assert_eq!(
        c.startup_commands(),
        vec![
            Command {
                side: Side::Producer,
                index: 0,
                action: DeviceCommand::SetPower(0)
            },
            Command {
                side: Side::Consumer,
                index: 0,
                action: DeviceCommand::Off
            },
        ]
    );
}

fn actor(actor_mode: ActorMode, on: bool) -> ThresholdActor {
    ThresholdActor {
        actor_mode,
        on,
        enable_threshold: -100,
        disable_threshold: 100,
    }
}

#[test]
fn returns_a_charger_if_a_charger_is_turned_on() {
    let devs = vec![
        actor(ActorMode::Charge, true),
        actor(ActorMode::Discharge, false),
    ];
    let result = devs[get_actor(&devs).unwrap()];

    assert_eq!(result.on, true);
}

#[test]
fn returns_a_discharger_if_a_discharger_is_turned_on() {
    let devs = vec![
        actor(ActorMode::Charge, false),
        actor(ActorMode::Discharge, true),
    ];
    let result = devs[get_actor(&devs).unwrap()];

    assert_eq!(result.actor_mode, ActorMode::Discharge);
    assert_eq!(result.on, true);
}

#[test]
fn returns_any_turned_off_element_if_no_actor_is_turned_on() {
    let devs = vec![
        actor(ActorMode::Charge, false),
        actor(ActorMode::Discharge, false),
    ];
    let result = devs[get_actor(&devs).unwrap()];

    assert_eq!(result.on, false);
}

#[test]
fn no_actor_to_select_from_nothing() {
    assert_eq!(get_actor(&vec![]), None);
    assert_eq!(get_random_element(0), None);
    assert!(get_random_element(3).unwrap() < 3);
}

#[test]
fn selection_follows_coin_and_number() {
    let devs = vec![
        actor(ActorMode::Charge, false),
        actor(ActorMode::Discharge, false),
        actor(ActorMode::Charge, false),
        actor(ActorMode::Discharge, false),
    ];
    assert_eq!(select_actor(&devs, true, 0), Some(1));
    assert_eq!(select_actor(&devs, true, 3), Some(3));
    assert_eq!(select_actor(&devs, false, 0), Some(0));
    assert_eq!(select_actor(&devs, false, 5), Some(2));
    let only_dischargers = vec![actor(ActorMode::Discharge, false); 3];
    assert_eq!(select_actor(&only_dischargers, false, 7), Some(1));
}

#[test]
fn threshold_actor_should_be_on() {
    let charger = ThresholdActor {
        actor_mode: ActorMode::Charge,
        on: false,
        enable_threshold: -50,
        disable_threshold: 100,
    };
    assert!(charger.should_be_on(-100));
    assert!(!charger.should_be_on(0));
}

#[test]
fn index_from_draw_is_remainder() {
    assert_eq!(index_from_draw(7, 3), 1);
    assert_eq!(index_from_draw(0, 5), 0);
    assert_eq!(index_from_draw(usize::MAX, 2), 1);
}

#[test]
fn no_command_while_settling_across_samples() {
    // A regulator producer engaged on import is left alone for its settling time.
    let mut c = Controller::new(vec![ActorState::regulating(1000, 30)], vec![], -100, 100);
    assert_eq!(c.handle_sample(500, NOW, NOW).len(), 1);
    assert!(c.handle_sample(600, NOW + 29_999, NOW + 29_999).is_empty());
    assert!(c.handle_sample(-600, NOW + 10_000, NOW + 10_000).is_empty());
    assert_eq!(c.handle_sample(600, NOW + 30_000, NOW + 30_000).len(), 1);
}

#[test]
fn switch_that_is_on_gets_no_second_on() {
    let mut c = Controller::new(vec![], vec![ActorState::switching(100, 0)], -300, 100);
    assert_eq!(c.handle_sample(-700, NOW, NOW).len(), 1);
    assert!(c.handle_sample(-700, NOW + 1, NOW + 1).is_empty());
}
