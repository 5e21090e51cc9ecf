use elevator_control::config::{CabOrders, ElevatorConfig};
use elevator_control::fsm::{ElevatorFSM, FsmCommand};
use elevator_control::types::{Behaviour, Direction, ElevatorState, CAB, HALL_DOWN, HALL_UP};

fn config() -> ElevatorConfig {
    ElevatorConfig { n_floors: 4, door_open_time: 3000, motor_timeout: 10000, door_timeout: 20000 }
}

fn setup_fsm() -> ElevatorFSM {
    ElevatorFSM::new(&config())
}

fn no_saved_calls() -> CabOrders {
    CabOrders { cab_calls: vec![false; 4] }
}

#[test]
fn fsm_tests_test_fsm_init() {
    let mut fsm = setup_fsm();
    let cmds = fsm.start(&no_saved_calls());
    assert!(cmds.contains(&FsmCommand::PublishState));
    let cmds = fsm.on_floor_hit(1, 0);
    assert!(cmds.contains(&FsmCommand::PublishState));
    let state = fsm.state();
    assert_eq!(state.behaviour, Behaviour::Idle);
    assert_eq!(state.direction, Direction::Stop);
    assert_eq!(state.floor, 1);
}

#[test]
fn fsm_tests_test_fsm_floor_hit() {
    let mut fsm = setup_fsm();
    fsm.start(&no_saved_calls());
    let cmds = fsm.on_floor_hit(1, 0);
    assert_eq!(
        cmds,
        vec![FsmCommand::FloorIndicator(1), FsmCommand::Motor(Direction::Stop), FsmCommand::PublishState]
    );
    let state = fsm.state();
    assert_eq!(state.behaviour, Behaviour::Idle);
    assert_eq!(state.direction, Direction::Stop);
    assert_eq!(state.floor, 1);
}

#[test]
fn tests_test_fsm_init() {
    let mut fsm = setup_fsm();
    fsm.start(&no_saved_calls());
    fsm.on_floor_hit(0, 0);
    let state = fsm.state();
    assert_eq!(state.behaviour, Behaviour::Idle);
    assert_eq!(state.direction, Direction::Stop);
    assert_eq!(state.floor, 0);
}

#[test]
fn tests_test_fsm_floor_hit() {
    let mut fsm = setup_fsm();
    fsm.start(&no_saved_calls());
    fsm.on_floor_hit(1, 0);
    let state = fsm.state();
    assert_eq!(state.behaviour, Behaviour::Idle);
    assert_eq!(state.direction, Direction::Stop);
    assert_eq!(state.floor, 1);
}

#[test]
fn fsm_tests_test_fsm_choose_direction() {
    let mut fsm = setup_fsm();
    let state1 = ElevatorState {
        behaviour: Behaviour::Moving,
        floor: 0,
        direction: Direction::Stop,
        cab_requests: [false, false, false, false].to_vec(),
    };
    let state2 = ElevatorState {
        behaviour: Behaviour::Moving,
        floor: 1,
        direction: Direction::Stop,
        cab_requests: [false, false, true, true].to_vec(),
    };
    let state3 = ElevatorState {
        behaviour: Behaviour::Moving,
        floor: 1,
        direction: Direction::Stop,
        cab_requests: [true, false, false, false].to_vec(),
    };
    let state4 = ElevatorState {
        behaviour: Behaviour::Moving,
        floor: 3,
        direction: Direction::Stop,
        cab_requests: [false, false, false, true].to_vec(),
    };
    fsm.set_state(state1);
    let direction1 = fsm.choose_direction();
    fsm.set_state(state2);
    let direction2 = fsm.choose_direction();
    fsm.set_state(state3);
    let direction3 = fsm.choose_direction();
    fsm.set_state(state4);
    let direction4 = fsm.choose_direction();
    assert_eq!(direction1, Direction::Stop);
    assert_eq!(direction2, Direction::Up);
    assert_eq!(direction3, Direction::Down);
    assert_eq!(direction4, Direction::Stop);
}

#[test]
fn test_fsm_has_orders_in_directions() {
    let mut fsm = setup_fsm();
    let state1 = ElevatorState {
        behaviour: Behaviour::Moving,
        floor: 0,
        direction: Direction::Stop,
        cab_requests: [false, false, false, false].to_vec(),
    };
    let state2 = ElevatorState {
        behaviour: Behaviour::Moving,
        floor: 0,
        direction: Direction::Stop,
        cab_requests: [false, true, false, false].to_vec(),
    };
    let state3 = ElevatorState {
        behaviour: Behaviour::Moving,
        floor: 2,
        direction: Direction::Stop,
        cab_requests: [true, false, false, false].to_vec(),
    };
    let state4 = ElevatorState {
        behaviour: Behaviour::Moving,
        floor: 1,
        direction: Direction::Stop,
        cab_requests: [true, false, false, false].to_vec(),
    };
    fsm.set_state(state1);
    let direction1 = fsm.has_orders_in_direction(Direction::Up);
    fsm.set_state(state2);
    let direction2 = fsm.has_orders_in_direction(Direction::Up);
    fsm.set_state(state3);
    let direction3 = fsm.has_orders_in_direction(Direction::Down);
    fsm.set_state(state4);
    let direction4 = fsm.has_orders_in_direction(Direction::Up);
    assert_eq!(direction1, false);
    assert_eq!(direction2, true);
    assert_eq!(direction3, true);
    assert_eq!(direction4, false);
}

#[test]
fn test_fsm_complete_orders() {
    let mut fsm = setup_fsm();
    let mut out = Vec::new();
    let state1 = ElevatorState {
        behaviour: Behaviour::Moving,
        floor: 1,
        direction: Direction::Up,
        cab_requests: [false, true, false, false].to_vec(),
    };
    let hall_requests1 = vec![[false, false], [false, false], [false, false], [false, false]];
    let state2 = ElevatorState {
        behaviour: Behaviour::Moving,
        floor: 2,
        direction: Direction::Up,
        cab_requests: [false, false, false, false].to_vec(),
    };
    let hall_requests2 = vec![[false, true], [false, true], [false, true], [false, false]];
    let state3 = ElevatorState {
        behaviour: Behaviour::Idle,
        floor: 1,
        direction: Direction::Stop,
        cab_requests: [false, false, false, false].to_vec(),
    };
    let hall_requests3 = vec![[false, false], [true, false], [false, false], [false, false]];

    fsm.set_state(state1);
    fsm.set_hall_requests(hall_requests1);
    let result1 = fsm.complete_orders(&mut out);
    fsm.set_state(state2);
    fsm.set_hall_requests(hall_requests2);
    let result2 = fsm.complete_orders(&mut out);
    fsm.set_state(state3);
    fsm.set_hall_requests(hall_requests3);
    let result3 = fsm.complete_orders(&mut out);
    assert_eq!(result1, true);
    assert_eq!(result2, false);
    assert_eq!(result3, true);
    assert_eq!(
        out,
        vec![
            FsmCommand::OrderComplete(1, CAB),
            FsmCommand::SaveCabCalls,
            FsmCommand::OrderComplete(1, HALL_UP)
        ]
    );
}

#[test]
fn cab_call_survives_restart() {
    let mut fsm = setup_fsm();
    fsm.start(&no_saved_calls());
    fsm.on_floor_hit(0, 0);
    let cmds = fsm.on_cab_request(2);
    assert_eq!(cmds, vec![FsmCommand::SaveCabCalls, FsmCommand::PublishState]);
    let saved = CabOrders { cab_calls: fsm.state().cab_requests.clone() };

    // The process dies here; a new one starts from the saved calls.
    let mut fsm = setup_fsm();
    let cmds = fsm.start(&saved);
    assert_eq!(cmds, vec![FsmCommand::Motor(Direction::Down), FsmCommand::PublishState]);
    assert_eq!(fsm.state().cab_requests, vec![false, false, true, false]);
    let cmds = fsm.on_floor_hit(0, 100);
    assert!(cmds.contains(&FsmCommand::Motor(Direction::Up)));
    assert_eq!(fsm.state().behaviour, Behaviour::Moving);
    let cmds = fsm.on_floor_hit(1, 200);
    assert!(cmds.contains(&FsmCommand::Motor(Direction::Up)));
    let cmds = fsm.on_floor_hit(2, 300);
    assert!(cmds.contains(&FsmCommand::Motor(Direction::Stop)));
    assert!(cmds.contains(&FsmCommand::DoorLight(true)));
    assert!(cmds.contains(&FsmCommand::OrderComplete(2, CAB)));
    assert_eq!(fsm.state().behaviour, Behaviour::DoorOpen);
    assert_eq!(fsm.state().cab_requests, vec![false; 4]);
}

#[test]
fn saved_calls_are_fitted_to_the_building() {
    let mut fsm = setup_fsm();
    fsm.start(&CabOrders { cab_calls: vec![true, false, true, true, true, true] });
    assert_eq!(fsm.state().cab_requests, vec![true, false, true, true]);
    let mut fsm = setup_fsm();
    fsm.start(&CabOrders { cab_calls: vec![false, true] });
    assert_eq!(fsm.state().cab_requests, vec![false, true, false, false]);
}

#[test]
fn ticks_before_first_floor_do_nothing() {
    let mut fsm = setup_fsm();
    fsm.start(&CabOrders { cab_calls: vec![false, false, true, false] });
    assert!(fsm.on_tick(1000).is_empty());
    assert_eq!(fsm.state().behaviour, Behaviour::Idle);
}

#[test]
fn idle_cabin_serves_hall_up_call() {
    let mut fsm = setup_fsm();
    fsm.start(&no_saved_calls());
    fsm.on_floor_hit(0, 0);
    fsm.set_hall_requests(vec![[false, false], [false, false], [true, false], [false, false]]);
    let cmds = fsm.on_tick(100);
    assert_eq!(cmds, vec![FsmCommand::Motor(Direction::Up)]);
    fsm.on_floor_hit(1, 1000);
    let cmds = fsm.on_floor_hit(2, 2000);
    assert_eq!(
        cmds,
        vec![
            FsmCommand::FloorIndicator(2),
            FsmCommand::OrderComplete(2, HALL_UP),
            FsmCommand::Motor(Direction::Stop),
            FsmCommand::DoorLight(true),
            FsmCommand::PublishState
        ]
    );
    assert_eq!(fsm.hall_requests()[2], [false, false]);
    // The door stays open until the door time has passed.
    assert!(fsm.on_tick(4000).is_empty());
    let cmds = fsm.on_tick(5000);
    assert_eq!(
        cmds,
        vec![FsmCommand::DoorLight(false), FsmCommand::Motor(Direction::Stop), FsmCommand::PublishState]
    );
    assert_eq!(fsm.state().behaviour, Behaviour::Idle);
}

#[test]
fn motor_loss_enters_error() {
    let mut fsm = setup_fsm();
    fsm.start(&no_saved_calls());
    fsm.on_floor_hit(0, 0);
    fsm.set_hall_requests(vec![[false, false], [false, false], [false, false], [false, true]]);
    assert_eq!(fsm.on_tick(100), vec![FsmCommand::Motor(Direction::Up)]);
    assert!(fsm.on_tick(10099).is_empty());
    let cmds = fsm.on_tick(10100);
    assert_eq!(cmds, vec![FsmCommand::PublishState, FsmCommand::Motor(Direction::Up)]);
    assert_eq!(fsm.state().behaviour, Behaviour::Error);
    // The motor command is repeated while no floor edge comes.
    assert_eq!(fsm.on_tick(20100), vec![FsmCommand::Motor(Direction::Up)]);
    // A floor edge restores normal operation.
    fsm.on_floor_hit(1, 20200);
    assert_eq!(fsm.state().behaviour, Behaviour::Moving);
}

#[test]
fn obstruction_beyond_door_timeout_enters_error() {
    let mut fsm = setup_fsm();
    fsm.start(&no_saved_calls());
    fsm.on_floor_hit(1, 0);
    fsm.on_cab_request(1);
    let cmds = fsm.on_tick(0);
    assert!(cmds.contains(&FsmCommand::DoorLight(true)));
    fsm.on_obstruction(true, 10);
    assert!(fsm.on_tick(5000).is_empty());
    assert_eq!(fsm.state().behaviour, Behaviour::DoorOpen);
    let cmds = fsm.on_tick(20000);
    assert_eq!(cmds, vec![FsmCommand::PublishState]);
    assert_eq!(fsm.state().behaviour, Behaviour::Error);
    fsm.on_obstruction(false, 21000);
    let cmds = fsm.on_tick(21100);
    assert_eq!(cmds, vec![FsmCommand::DoorLight(true), FsmCommand::PublishState]);
    assert_eq!(fsm.state().behaviour, Behaviour::DoorOpen);
}

#[test]
fn bottom_floor_without_orders_above_stops() {
    let mut fsm = setup_fsm();
    for direction in [Direction::Up, Direction::Down, Direction::Stop] {
        fsm.set_state(ElevatorState {
            behaviour: Behaviour::Idle,
            floor: 0,
            direction,
            cab_requests: vec![true, false, false, false],
        });
        assert_eq!(fsm.choose_direction(), Direction::Stop);
    }
}

#[test]
fn bottom_floor_clears_hall_up_whatever_the_direction() {
    let mut fsm = setup_fsm();
    fsm.set_state(ElevatorState {
        behaviour: Behaviour::Moving,
        floor: 0,
        direction: Direction::Down,
        cab_requests: vec![false; 4],
    });
    fsm.set_hall_requests(vec![[true, false], [false, false], [false, false], [false, false]]);
    let mut out = Vec::new();
    assert!(fsm.complete_orders(&mut out));
    assert_eq!(out, vec![FsmCommand::OrderComplete(0, HALL_UP)]);
    assert_eq!(fsm.hall_requests()[0], [false, false]);
}

#[test]
fn top_floor_clears_hall_down_whatever_the_direction() {
    let mut fsm = setup_fsm();
    fsm.set_state(ElevatorState {
        behaviour: Behaviour::Moving,
        floor: 3,
        direction: Direction::Up,
        cab_requests: vec![false; 4],
    });
    fsm.set_hall_requests(vec![[false, false], [false, false], [false, false], [false, true]]);
    let mut out = Vec::new();
    assert!(fsm.complete_orders(&mut out));
    assert_eq!(out, vec![FsmCommand::OrderComplete(3, HALL_DOWN)]);
    assert_eq!(fsm.hall_requests()[3], [false, false]);
}

#[test]
fn motor_codes() {
    assert_eq!(Direction::Up.to_u8(), 1);
    assert_eq!(Direction::Down.to_u8(), 255);
    assert_eq!(Direction::Stop.to_u8(), 0);
    assert_eq!(Direction::from_u8(255), Some(Direction::Down));
    assert_eq!(Direction::from_u8(7), None);
}
