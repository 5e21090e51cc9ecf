use elevator_control::config::{CabOrders, Config, ConfigError, ElevatorConfig, HardwareConfig, NetworkConfig};
use elevator_control::coordinator::{Action, Coordinator, Event, PeerUpdate};
use elevator_control::fsm::{ElevatorFSM, FsmCommand};
use elevator_control::hardware::HardwareInputs;
use elevator_control::network::{is_ack, AckRetry, Network, SendOutcome};
use elevator_control::types::{Behaviour, Direction, ElevatorData, ElevatorState, CAB, HALL_DOWN, HALL_UP};

fn config(n_floors: u8, hardware_floors: u8) -> Config {
    Config {
        network: NetworkConfig {
            id_gen_address: "8.8.8.8:53".to_string(),
            msg_port: 19735,
            peer_port: 19736,
            max_retries: 5,
            ack_timeout: 100,
            max_attempts_id_generation: 3,
            delay_between_attempts_id_generation: 500,
        },
        elevator: ElevatorConfig { n_floors, door_open_time: 3000, motor_timeout: 10000, door_timeout: 20000 },
        hardware: HardwareConfig {
            n_floors: hardware_floors,
            driver_address: "localhost".to_string(),
            driver_port: 15657,
            hw_thread_sleep_time: 10,
        },
    }
}

#[test]
fn configuration_rules() {
    assert_eq!(config(4, 4).check(), Ok(()));
    assert_eq!(config(4, 3).check(), Err(ConfigError::FloorCountMismatch));
    assert_eq!(config(0, 0).check(), Err(ConfigError::NoFloors));
}

#[test]
fn command_line_overrides() {
    let c = config(4, 4).with_overrides(Some("10.0.0.2".to_string()), None, Some(20000));
    assert_eq!(c.hardware.driver_address, "10.0.0.2");
    assert_eq!(c.hardware.driver_port, 15657);
    assert_eq!(c.network.msg_port, 20000);
    assert_eq!(c.elevator, config(4, 4).elevator);
}

#[test]
fn node_id_from_local_address() {
    assert_eq!(Network::new(Some("10.100.23.12"), 19735).id, "10.100.23.12:19735");
    assert_eq!(Network::new(Some("127.0.0.1"), 7).id, "127.0.0.1:7");
    let offline = Network::new(None, 19735);
    assert_eq!(offline.id, "Offline Elevator");
    assert!(offline.is_offline());
    assert!(!Network::new(Some("127.0.0.1"), 0).is_offline());
}

#[test]
fn acknowledgement_datagrams() {
    assert!(is_ack(b"ACK"));
    assert!(is_ack(b" ACK\n"));
    assert!(!is_ack(b"ACK!"));
    assert!(!is_ack(b"AC K"));
    assert!(!is_ack(b""));
    assert!(!is_ack(b"ack"));
}

#[test]
fn retry_until_acknowledged_or_exhausted() {
    let mut r = AckRetry::new(3);
    assert!(r.should_send());
    r.record(SendOutcome::NoAck);
    r.record(SendOutcome::SendFailed);
    assert!(r.should_send());
    r.record(SendOutcome::Acked);
    assert!(!r.should_send());
    assert!(!r.gave_up());

    let mut r = AckRetry::new(2);
    r.record(SendOutcome::NoAck);
    r.record(SendOutcome::NoAck);
    assert!(!r.should_send());
    assert!(r.gave_up());
    assert!(!AckRetry::new(0).should_send());
}

#[test]
fn hardware_edges() {
    let mut inputs = HardwareInputs::new(4, false);
    assert_eq!(inputs.floor_reading(None), None);
    assert_eq!(inputs.floor_reading(Some(1)), Some(1));
    assert_eq!(inputs.floor_reading(Some(1)), None);
    assert_eq!(inputs.floor_reading(None), None);
    assert_eq!(inputs.floor_reading(Some(2)), Some(2));
    assert_eq!(inputs.obstruction_reading(false), None);
    assert_eq!(inputs.obstruction_reading(true), Some(true));
    assert_eq!(inputs.obstruction_reading(true), None);
    assert!(inputs.button_reading(2, HALL_UP, true));
    assert!(!inputs.button_reading(2, HALL_UP, true));
    assert!(!inputs.button_reading(2, HALL_UP, false));
    assert!(inputs.button_reading(2, CAB, true));
    inputs.lamp_command(2, HALL_UP, false);
    assert!(inputs.button_reading(2, HALL_UP, true));
}

#[test]
fn lamp_commands_match_request_state() {
    let mut c = {
        let mut d = ElevatorData::new(4);
        d.insert_state("E".to_string(), ElevatorState::new(4));
        Coordinator::new(d, "E".to_string(), 4)
    };
    let events = vec![
        Event::RequestReceived((1, HALL_UP)),
        Event::RequestReceived((2, CAB)),
        Event::OrderComplete((1, HALL_UP)),
        Event::OrderComplete((2, CAB)),
        Event::RequestReceived((3, HALL_DOWN)),
    ];
    for e in events {
        for a in c.handle_event(e) {
            if let Action::Light(f, k, on) = a {
                let state = if k == CAB {
                    c.local_state().cab_requests[f as usize]
                } else {
                    c.data().hall_requests[f as usize][k as usize]
                };
                assert_eq!(state, on);
            }
        }
    }
}

#[test]
fn local_entry_survives_peer_changes() {
    let mut d = ElevatorData::new(4);
    d.insert_state("E".to_string(), ElevatorState::new(4));
    let mut c = Coordinator::new(d, "E".to_string(), 4);
    c.handle_event(Event::RequestReceived((3, CAB)));
    let update = PeerUpdate { peers: vec![], new: None, lost: vec!["E".to_string()] };
    assert_eq!(c.handle_event(Event::NewPeerUpdate(update)), vec![Action::Reassign(false)]);
    assert_eq!(c.local_state().cab_requests, vec![false, false, false, true]);
    let update = PeerUpdate { peers: vec!["E".to_string()], new: Some("E".to_string()), lost: vec![] };
    c.handle_event(Event::NewPeerUpdate(update));
    assert_eq!(c.local_state().cab_requests.len(), 4);
}

#[test]
fn merge_is_order_independent_on_hall_calls() {
    let make = |id: &str, call: (usize, u8)| {
        let mut d = ElevatorData::new(4);
        d.insert_state(id.to_string(), ElevatorState::new(4));
        d.hall_requests[call.0][call.1 as usize] = true;
        d
    };
    let a = make("A", (1, HALL_UP));
    let b = make("B", (2, HALL_DOWN));
    let mut at_a = Coordinator::new(a.clone(), "A".to_string(), 4);
    let mut at_b = Coordinator::new(b.clone(), "B".to_string(), 4);
    at_a.handle_event(Event::NewPackage(b.clone()));
    at_b.handle_event(Event::NewPackage(a.clone()));
    assert_eq!(at_a.data().hall_requests, at_b.data().hall_requests);
    let before = at_a.data().hall_requests.clone();
    at_a.handle_event(Event::NewPackage(b));
    assert_eq!(at_a.data().hall_requests, before);
}

#[test]
fn motor_never_driven_past_the_ends() {
    let cfg = ElevatorConfig { n_floors: 4, door_open_time: 3000, motor_timeout: 10000, door_timeout: 20000 };
    let mut fsm = ElevatorFSM::new(&cfg);
    fsm.start(&CabOrders { cab_calls: vec![] });
    fsm.on_floor_hit(3, 0);
    // Headed up at the top floor with no order: the cabin stops.
    fsm.set_state(ElevatorState { behaviour: Behaviour::Idle, floor: 3, direction: Direction::Up, cab_requests: vec![false; 4] });
    let cmds = fsm.on_tick(100);
    assert!(!cmds.contains(&FsmCommand::Motor(Direction::Up)));
    fsm.set_state(ElevatorState { behaviour: Behaviour::Moving, floor: 2, direction: Direction::Up, cab_requests: vec![false; 4] });
    let cmds = fsm.on_floor_hit(3, 200);
    assert!(!cmds.contains(&FsmCommand::Motor(Direction::Up)));
    fsm.set_state(ElevatorState { behaviour: Behaviour::Moving, floor: 1, direction: Direction::Down, cab_requests: vec![false; 4] });
    let cmds = fsm.on_floor_hit(0, 300);
    assert!(!cmds.contains(&FsmCommand::Motor(Direction::Down)));
}
