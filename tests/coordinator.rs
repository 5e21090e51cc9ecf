use elevator_control::coordinator::{
    local_assignment, Action, AssignmentPlan, Coordinator, Event, MergeType, PeerUpdate,
};
use elevator_control::types::{
    Behaviour, Direction, ElevatorData, ElevatorState, CAB, HALL_DOWN, HALL_UP,
};

fn setup_coordinator() -> Coordinator {
    let n_floors = 4;
    let id = "elevator".to_string();
    let mut elevator_data = ElevatorData::new(n_floors);
    elevator_data.insert_state(id.clone(), ElevatorState::new(n_floors));
    Coordinator::new(elevator_data, id, n_floors)
}

fn coordinator_with(id: &str, peers: &[&str], n_floors: u8) -> Coordinator {
    let mut data = ElevatorData::new(n_floors);
    for p in peers {
        data.insert_state(p.to_string(), ElevatorState::new(n_floors));
    }
    Coordinator::new(data, id.to_string(), n_floors)
}

/// The assigner's answer giving `rows` to the cabin `id`.
fn answer(entries: &[(&str, &[[bool; 2]])]) -> String {
    let parts: Vec<String> = entries
        .iter()
        .map(|(id, rows)| {
            let rows: Vec<String> = rows.iter().map(|r| format!("[{},{}]", r[0], r[1])).collect();
            format!("\"{}\":[{}]", id, rows.join(","))
        })
        .collect();
    format!("{{{}}}", parts.join(","))
}

#[test]
fn test_coordinator_init() {
    let coordinator = setup_coordinator();
    let n_floors = 4;
    let id = "elevator".to_string();
    let mut elevator_data = ElevatorData::new(n_floors);
    elevator_data.insert_state(id.clone(), ElevatorState::new(n_floors));
    assert_eq!(*coordinator.data(), elevator_data);
    assert_eq!(*coordinator.local_id(), id);
    assert_eq!(coordinator.n_floors(), 4);
}

#[test]
fn test_coordinator_hall_request_assigner() {
    let n_floors = 4u8;
    let mut hall_requests = vec![[false; 2]; n_floors as usize];
    hall_requests[2][HALL_UP as usize] = true;
    let id = "elevator".to_string();
    let state = ElevatorState::new(n_floors);
    let mut data = ElevatorData::new(n_floors);
    data.insert_state(id.clone(), state.clone());
    data.hall_requests = hall_requests.clone();
    let mut coordinator = Coordinator::new(data.clone(), id.clone(), n_floors);

    // The only cabin is healthy, so the assigner runs on the whole snapshot.
    match coordinator.assignment_plan() {
        AssignmentPlan::Solve(d) => assert_eq!(d, data),
        AssignmentPlan::Direct(_) => panic!("expected an assigner run"),
    }
    let out = answer(&[("elevator", &hall_requests)]);
    assert_eq!(coordinator.assigned_to_self(&out), Some(hall_requests.clone()));

    // With broadcast, the snapshot goes out with the next version.
    let sent = coordinator.broadcast_snapshot();
    let mut expected_data = ElevatorData::new(n_floors);
    expected_data.version = 1;
    expected_data.hall_requests = hall_requests.clone();
    expected_data.insert_state(id.clone(), state.clone());
    assert_eq!(sent, expected_data);
    assert_eq!(coordinator.data().version, 1);
}

#[test]
fn test_coordinator_handle_event_new_package() {
    let mut coordinator = setup_coordinator();
    let n_floors = coordinator.n_floors();
    let mut new_package = ElevatorData::new(n_floors);
    new_package.insert_state("elevator".to_string(), ElevatorState::new(n_floors));
    new_package.version = 1;
    new_package.hall_requests = vec![[false; 2]; n_floors as usize];
    new_package.hall_requests[2][HALL_UP as usize] = true;

    let actions = coordinator.handle_event(Event::NewPackage(new_package.clone()));
    assert_eq!(actions, vec![Action::Light(2, HALL_UP, true), Action::Reassign(false)]);
    let out = answer(&[("elevator", &new_package.hall_requests)]);
    assert_eq!(coordinator.assigned_to_self(&out), Some(new_package.hall_requests.clone()));
    assert_eq!(*coordinator.data(), new_package);
}

#[test]
fn test_coordinator_handle_event_request_received() {
    let mut coordinator = setup_coordinator();
    let n_floors = coordinator.n_floors();

    let actions = coordinator.handle_event(Event::RequestReceived((2, HALL_UP)));
    assert_eq!(actions, vec![Action::Reassign(true), Action::Light(2, HALL_UP, true)]);
    let mut expected_hall_requests = vec![[false; 2]; n_floors as usize];
    expected_hall_requests[2][HALL_UP as usize] = true;
    let out = answer(&[("elevator", &expected_hall_requests)]);
    assert_eq!(coordinator.assigned_to_self(&out), Some(expected_hall_requests.clone()));
    let sent = coordinator.broadcast_snapshot();
    let mut expected_data = ElevatorData::new(n_floors);
    expected_data.version = 1;
    expected_data.hall_requests = expected_hall_requests;
    expected_data.insert_state("elevator".to_string(), ElevatorState::new(n_floors));
    assert_eq!(sent, expected_data);

    let actions = coordinator.handle_event(Event::RequestReceived((2, CAB)));
    assert_eq!(actions, vec![Action::CabRequest(2), Action::Light(2, CAB, true)]);
    assert_eq!(coordinator.local_state().cab_requests, vec![false, false, true, false]);
}

#[test]
fn test_coordinator_handle_event_new_peer_update() {
    let mut coordinator = coordinator_with("elevator", &["peer2", "peer3", "elevator"], 4);
    let mut expected_peer_list = vec!["peer1".to_string(), "peer2".to_string(), "elevator".to_string()];
    let peer_update = PeerUpdate {
        peers: expected_peer_list.clone(),
        new: Some("peer1".to_string()),
        lost: vec!["peer3".to_string()],
    };
    let actions = coordinator.handle_event(Event::NewPeerUpdate(peer_update));
    assert_eq!(actions, vec![Action::Reassign(false), Action::Reassign(true)]);
    let mut peer_list = coordinator.peer_ids();
    peer_list.sort();
    expected_peer_list.sort();
    assert_eq!(peer_list, expected_peer_list, "Mismatch for peer_list.peers");
}

#[test]
fn test_coordinator_handle_event_new_elevator_state() {
    let mut coordinator = setup_coordinator();
    let n_floors = coordinator.n_floors();
    let mut new_state = ElevatorState::new(n_floors);
    new_state.floor = 2;
    new_state.direction = Direction::Up;
    new_state.cab_requests = vec![false; n_floors as usize];
    new_state.cab_requests[3] = true;

    let actions = coordinator.handle_event(Event::NewElevatorState(new_state.clone()));
    assert_eq!(actions, vec![Action::Light(3, CAB, true), Action::Reassign(true)]);
    let expected_hall_requests = vec![[false; 2]; n_floors as usize];
    let out = answer(&[("elevator", &expected_hall_requests)]);
    assert_eq!(coordinator.assigned_to_self(&out), Some(expected_hall_requests.clone()));
    let mut expected_elevator_data = ElevatorData::new(n_floors);
    expected_elevator_data.version = 1;
    expected_elevator_data.hall_requests = expected_hall_requests;
    expected_elevator_data.insert_state("elevator".to_string(), new_state);
    assert_eq!(coordinator.broadcast_snapshot(), expected_elevator_data);
}

#[test]
fn test_coordinator_handle_event_order_complete() {
    let mut coordinator = setup_coordinator();
    let n_floors = coordinator.n_floors();
    let actions = coordinator.handle_event(Event::OrderComplete((2, HALL_DOWN)));
    assert_eq!(actions, vec![Action::Light(2, HALL_DOWN, false), Action::Reassign(true)]);
    match coordinator.assignment_plan() {
        AssignmentPlan::Solve(d) => assert_eq!(d.hall_requests, vec![[false; 2]; n_floors as usize]),
        AssignmentPlan::Direct(_) => panic!("expected an assigner run"),
    }
    let mut expected_elevator_data = ElevatorData::new(n_floors);
    expected_elevator_data.version = 1;
    expected_elevator_data.hall_requests = vec![[false; 2]; n_floors as usize];
    expected_elevator_data.insert_state("elevator".to_string(), ElevatorState::new(n_floors));
    assert_eq!(coordinator.broadcast_snapshot(), expected_elevator_data);
}

#[test]
fn impossible_hall_calls_are_ignored() {
    let mut coordinator = setup_coordinator();
    assert!(coordinator.handle_event(Event::RequestReceived((0, HALL_DOWN))).is_empty());
    assert!(coordinator.handle_event(Event::RequestReceived((3, HALL_UP))).is_empty());
    assert!(coordinator.handle_event(Event::RequestReceived((4, CAB))).is_empty());
    assert!(coordinator.handle_event(Event::RequestReceived((1, 3))).is_empty());
    assert_eq!(coordinator.data().hall_requests, vec![[false; 2]; 4]);
}

#[test]
fn malformed_snapshot_is_dropped() {
    let mut coordinator = setup_coordinator();
    let mut bad = ElevatorData::new(4);
    bad.version = 9;
    bad.insert_state("elevator".to_string(), ElevatorState::new(4));
    bad.hall_requests[0][HALL_DOWN as usize] = true;
    assert!(coordinator.handle_event(Event::NewPackage(bad)).is_empty());
    let mut short = ElevatorData::new(3);
    short.version = 9;
    assert!(coordinator.handle_event(Event::NewPackage(short)).is_empty());
    assert_eq!(coordinator.data().version, 0);
}

#[test]
fn merge_classification() {
    let coordinator = coordinator_with("E1", &["E1", "E2"], 4);
    let mut known = ElevatorData::new(4);
    known.insert_state("E2".to_string(), ElevatorState::new(4));
    assert_eq!(coordinator.check_merge_type(&known), MergeType::Reject);
    known.version = 1;
    assert_eq!(coordinator.check_merge_type(&known), MergeType::Accept);
    known.insert_state("E3".to_string(), ElevatorState::new(4));
    known.version = 0;
    assert_eq!(coordinator.check_merge_type(&known), MergeType::Merge);
}

#[test]
fn merge_union_on_rejoin() {
    // E1 and E2 each lost the other and accepted distinct hall calls.
    let mut e1 = coordinator_with("E1", &["E1"], 4);
    let mut e2 = coordinator_with("E2", &["E2"], 4);
    e1.handle_event(Event::RequestReceived((1, HALL_UP)));
    e1.broadcast_snapshot();
    e2.handle_event(Event::RequestReceived((3, HALL_DOWN)));
    e2.broadcast_snapshot();
    let from_e1 = e1.data().clone();
    let from_e2 = e2.data().clone();
    assert_eq!(e2.check_merge_type(&from_e1), MergeType::Merge);
    assert_eq!(e1.check_merge_type(&from_e2), MergeType::Merge);
    e2.handle_event(Event::NewPackage(from_e1));
    e1.handle_event(Event::NewPackage(from_e2));
    for c in [&e1, &e2] {
        assert!(c.data().hall_requests[1][HALL_UP as usize]);
        assert!(c.data().hall_requests[3][HALL_DOWN as usize]);
    }
    assert!(e1.data().has_state(&"E2".to_string()));
    assert!(e2.data().has_state(&"E1".to_string()));
}

#[test]
fn merge_keeps_the_local_entry() {
    let mut e1 = coordinator_with("E1", &["E1"], 4);
    e1.handle_event(Event::RequestReceived((2, CAB)));
    let mut incoming = ElevatorData::new(4);
    incoming.insert_state("E1".to_string(), ElevatorState::new(4));
    incoming.insert_state("E2".to_string(), ElevatorState::new(4));
    assert!(e1.handle_event(Event::NewPackage(incoming)).is_empty());
    assert_eq!(e1.local_state().cab_requests, vec![false, false, true, false]);
}

#[test]
fn same_snapshot_twice() {
    let mut coordinator = coordinator_with("E1", &["E1", "E2"], 4);
    let mut snapshot = ElevatorData::new(4);
    snapshot.version = 3;
    snapshot.hall_requests[2][HALL_DOWN as usize] = true;
    snapshot.insert_state("E1".to_string(), ElevatorState::new(4));
    snapshot.insert_state("E2".to_string(), ElevatorState::new(4));
    let first = coordinator.handle_event(Event::NewPackage(snapshot.clone()));
    assert_eq!(first, vec![Action::Light(2, HALL_DOWN, true), Action::Reassign(false)]);
    let after_first = coordinator.data().clone();
    let second = coordinator.handle_event(Event::NewPackage(snapshot));
    assert!(second.is_empty());
    assert_eq!(*coordinator.data(), after_first);
}

#[test]
fn accept_keeps_local_entry_when_missing() {
    let mut coordinator = coordinator_with("E1", &["E1", "E2"], 4);
    coordinator.handle_event(Event::RequestReceived((1, CAB)));
    let mut snapshot = ElevatorData::new(4);
    snapshot.version = 5;
    snapshot.insert_state("E2".to_string(), ElevatorState::new(4));
    let actions = coordinator.handle_event(Event::NewPackage(snapshot));
    assert_eq!(actions, vec![Action::Reassign(false)]);
    assert_eq!(coordinator.data().version, 5);
    assert_eq!(coordinator.local_state().cab_requests, vec![false, true, false, false]);
}

#[test]
fn two_cabin_split_follows_the_assigner() {
    let mut e1 = coordinator_with("E1", &["E1", "E2"], 4);
    let mut s2 = ElevatorState::new(4);
    s2.floor = 3;
    let mut data = e1.data().clone();
    data.insert_state("E2".to_string(), s2);
    e1 = Coordinator::new(data, "E1".to_string(), 4);
    e1.handle_event(Event::RequestReceived((1, HALL_UP)));
    e1.handle_event(Event::RequestReceived((2, HALL_DOWN)));
    let out = answer(&[
        ("E1", &[[false, false], [true, false], [false, false], [false, false]]),
        ("E2", &[[false, false], [false, false], [false, true], [false, false]]),
    ]);
    assert_eq!(
        e1.assigned_to_self(&out),
        Some(vec![[false, false], [true, false], [false, false], [false, false]])
    );
}

#[test]
fn lost_peer_work_goes_to_the_survivor() {
    let mut e1 = coordinator_with("E1", &["E1", "E2"], 4);
    e1.handle_event(Event::RequestReceived((2, HALL_UP)));
    let update = PeerUpdate { peers: vec!["E1".to_string()], new: None, lost: vec!["E2".to_string()] };
    let actions = e1.handle_event(Event::NewPeerUpdate(update));
    assert_eq!(actions, vec![Action::Reassign(false)]);
    match e1.assignment_plan() {
        AssignmentPlan::Solve(d) => {
            assert_eq!(d.ids(), vec!["E1".to_string()]);
            assert!(d.hall_requests[2][HALL_UP as usize]);
        },
        AssignmentPlan::Direct(_) => panic!("expected an assigner run"),
    }
    let out = answer(&[("E1", &[[false, false], [false, false], [true, false], [false, false]])]);
    assert_eq!(
        e1.assigned_to_self(&out),
        Some(vec![[false, false], [false, false], [true, false], [false, false]])
    );
    // The lamp stays on: the call is still pending.
    assert!(e1.data().hall_requests[2][HALL_UP as usize]);
}

#[test]
fn cabin_in_error_is_left_out_of_assignment() {
    let mut e2 = coordinator_with("E2", &["E1", "E2"], 4);
    let mut snapshot = e2.data().clone();
    snapshot.version = 1;
    let mut failed = ElevatorState::new(4);
    failed.behaviour = Behaviour::Error;
    failed.direction = Direction::Up;
    snapshot.insert_state("E1".to_string(), failed);
    e2.handle_event(Event::NewPackage(snapshot));
    match e2.assignment_plan() {
        AssignmentPlan::Solve(d) => assert_eq!(d.ids(), vec!["E2".to_string()]),
        AssignmentPlan::Direct(_) => panic!("expected an assigner run"),
    }
}

#[test]
fn no_healthy_cabin_takes_every_call() {
    let mut e1 = coordinator_with("E1", &["E1"], 4);
    e1.handle_event(Event::RequestReceived((1, HALL_DOWN)));
    let mut failed = ElevatorState::new(4);
    failed.behaviour = Behaviour::Error;
    e1.handle_event(Event::NewElevatorState(failed));
    match e1.assignment_plan() {
        AssignmentPlan::Direct(h) => assert_eq!(h, vec![[false, false], [false, true], [false, false], [false, false]]),
        AssignmentPlan::Solve(_) => panic!("expected the whole matrix"),
    }
}

#[test]
fn unusable_assigner_output() {
    let coordinator = setup_coordinator();
    assert_eq!(coordinator.assigned_to_self("not json"), None);
    assert_eq!(coordinator.assigned_to_self("{\"elevator\":[[true,false]]}"), None);
    assert_eq!(coordinator.assigned_to_self("{\"other\":[[true,false]]}"), Some(vec![[false; 2]; 4]));
    let entries = vec![("elevator".to_string(), vec![vec![false, true], vec![true, false], vec![false, false], vec![true, true]])];
    assert_eq!(
        local_assignment(&entries, &"elevator".to_string(), 4),
        Some(vec![[false, true], [true, false], [false, false], [true, true]])
    );
    let short_row = vec![("elevator".to_string(), vec![vec![false], vec![true, false], vec![false, false], vec![true, true]])];
    assert_eq!(local_assignment(&short_row, &"elevator".to_string(), 4), None);
}

#[test]
fn order_completion_of_cab_call() {
    let mut coordinator = setup_coordinator();
    coordinator.handle_event(Event::RequestReceived((1, CAB)));
    let actions = coordinator.handle_event(Event::OrderComplete((1, CAB)));
    assert_eq!(actions, vec![Action::Light(1, CAB, false), Action::Reassign(true)]);
    assert_eq!(coordinator.local_state().cab_requests, vec![false; 4]);
}
