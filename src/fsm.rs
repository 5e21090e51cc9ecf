//! The per-cabin finite-state machine: direction choice, order completion,
//! door timing, obstruction handling and motor-loss detection.
//!
//! The machine is driven by events (a floor-sensor edge, a new hall
//! assignment, a cab call, an obstruction change, a periodic tick). Each
//! event handler updates the machine and returns the commands for the outside
//! world, in the order they are to be carried out. Times are milliseconds on
//! a clock that the caller reads.
use vstd::prelude::*;
use crate::config::{CabOrders, ElevatorConfig, fitted_calls};
use crate::types::{
    Behaviour, CAB, Direction, ElevatorState, HALL_DOWN, HALL_UP, StateView, default_state,
    empty_matrix, no_hall_calls,
};

verus! {

/// A command from the state machine to the outside world.
#[derive(Clone, Copy, Debug, PartialEq, Eq, Structural)]
pub enum FsmCommand {
    /// Drive the motor in this direction.
    Motor(Direction),
    /// Turn the door lamp on or off.
    DoorLight(bool),
    /// Show this floor on the floor indicator.
    FloorIndicator(u8),
    /// The order of this kind at this floor was served.
    OrderComplete(u8, u8),
    /// Publish the machine's cabin state as it stands after the event.
    PublishState,
    /// Persist the machine's cab-request vector as it stands after the event.
    SaveCabCalls,
}

/// `floor` holds some order: a cab call or a hall call of either kind.
pub open spec fn order_at(cab: Seq<bool>, hall: Seq<[bool; 2]>, floor: int) -> bool {
    cab[floor] || hall[floor][HALL_UP as int] || hall[floor][HALL_DOWN as int]
}

/// Some floor strictly above `floor` holds an order.
pub open spec fn orders_above(cab: Seq<bool>, hall: Seq<[bool; 2]>, floor: int, n: int) -> bool {
    exists|f: int| floor < f < n && #[trigger] order_at(cab, hall, f)
}

/// Some floor strictly below `floor` holds an order.
pub open spec fn orders_below(cab: Seq<bool>, hall: Seq<[bool; 2]>, floor: int) -> bool {
    exists|f: int| 0 <= f < floor && #[trigger] order_at(cab, hall, f)
}

/// Orders lie in direction `d` from `floor` (never for `Stop`).
pub open spec fn orders_toward(d: Direction, cab: Seq<bool>, hall: Seq<[bool; 2]>, floor: int, n: int) -> bool {
    match d {
        Direction::Up => orders_above(cab, hall, floor, n),
        Direction::Down => orders_below(cab, hall, floor),
        Direction::Stop => false,
    }
}

/// The direction choice: keep going while orders lie ahead, else turn round
/// toward the remaining orders, else start toward them (upward first), else stop.
pub open spec fn next_direction(d: Direction, cab: Seq<bool>, hall: Seq<[bool; 2]>, floor: int, n: int) -> Direction {
    if orders_toward(d, cab, hall, floor, n) {
        d
    } else if d == Direction::Up && orders_below(cab, hall, floor) {
        Direction::Down
    } else if d == Direction::Down && orders_above(cab, hall, floor, n) {
        Direction::Up
    } else if d == Direction::Stop && orders_above(cab, hall, floor, n) {
        Direction::Up
    } else if d == Direction::Stop && orders_below(cab, hall, floor) {
        Direction::Down
    } else {
        Direction::Stop
    }
}

/// A direction that the motor may be driven in from `floor`: never up from
/// the top floor, never down from floor 0.
pub open spec fn direction_allowed(d: Direction, floor: int, n: int) -> bool {
    &&& (d == Direction::Up ==> floor + 1 < n)
    &&& (d == Direction::Down ==> floor > 0)
}

/// Every motor command in `cmds` is allowed from `floor`.
pub open spec fn motor_commands_allowed(cmds: Seq<FsmCommand>, floor: int, n: int) -> bool {
    forall|i: int| 0 <= i < cmds.len() ==> match #[trigger] cmds[i] {
        FsmCommand::Motor(d) => direction_allowed(d, floor, n),
        _ => true,
    }
}

/// `now + span`, held at the largest time when it would not fit.
pub open spec fn deadline(now: u64, span: u64) -> u64 {
    if now as int + span as int > u64::MAX as int {
        u64::MAX
    } else {
        (now + span) as u64
    }
}

/// Mathematical model of an [`ElevatorFSM`].
pub struct FsmView {
    pub state: StateView,
    pub hall_requests: Seq<[bool; 2]>,
    pub n_floors: u8,
    pub obstruction: bool,
    pub door_open: bool,
    pub floor_found: bool,
    pub door_open_time: u64,
    pub motor_timeout: u64,
    pub door_timeout: u64,
    pub door_deadline: u64,
    pub obstruction_deadline: u64,
    pub motor_deadline: u64,
}

impl FsmView {
    /// The direction choice from the current floor.
    pub open spec fn chosen_direction(self) -> Direction {
        next_direction(
            self.state.direction,
            self.state.cab_requests,
            self.hall_requests,
            self.state.floor as int,
            self.n_floors as int,
        )
    }

    /// A hall-up call at the current floor is served: travelling up, idle,
    /// or at the bottom floor.
    pub open spec fn serves_up(self) -> bool {
        self.state.direction == Direction::Up || self.state.behaviour == Behaviour::Idle
            || self.state.floor == 0
    }

    /// A hall-down call at the current floor is served: travelling down,
    /// idle, or at the top floor.
    pub open spec fn serves_down(self) -> bool {
        self.state.direction == Direction::Down || self.state.behaviour == Behaviour::Idle
            || self.state.floor as int == self.n_floors - 1
    }

    /// A cab call is pending at the current floor.
    pub open spec fn cab_here(self) -> bool {
        self.state.cab_requests[self.state.floor as int]
    }

    /// A hall-up call at the current floor is pending and served now.
    pub open spec fn up_here(self) -> bool {
        self.hall_requests[self.state.floor as int][HALL_UP as int] && self.serves_up()
    }

    /// A hall-down call at the current floor is pending and served now.
    pub open spec fn down_here(self) -> bool {
        self.hall_requests[self.state.floor as int][HALL_DOWN as int] && self.serves_down()
    }

    /// Some order at the current floor is completed now.
    pub open spec fn completes_any(self) -> bool {
        self.cab_here() || self.up_here() || self.down_here()
    }

    /// The machine after the orders at the current floor are completed.
    pub open spec fn completed(self) -> FsmView {
        let f = self.state.floor as int;
        let row = self.hall_requests[f];
        FsmView {
            state: StateView {
                cab_requests: self.state.cab_requests.update(f, false),
                ..self.state
            },
            hall_requests: self.hall_requests.update(
                f,
                [row[HALL_UP as int] && !self.up_here(), row[HALL_DOWN as int] && !self.down_here()],
            ),
            ..self
        }
    }

    /// The completion events of the orders completed at the current floor.
    pub open spec fn completion_commands(self) -> Seq<FsmCommand> {
        let f = self.state.floor;
        (if self.cab_here() {
            seq![FsmCommand::OrderComplete(f, CAB), FsmCommand::SaveCabCalls]
        } else {
            seq![]
        }) + (if self.up_here() {
            seq![FsmCommand::OrderComplete(f, HALL_UP)]
        } else {
            seq![]
        }) + (if self.down_here() {
            seq![FsmCommand::OrderComplete(f, HALL_DOWN)]
        } else {
            seq![]
        })
    }

    /// The machine with the door opened at time `now`.
    pub open spec fn door_opened(self, now: u64) -> FsmView {
        FsmView {
            state: StateView { behaviour: Behaviour::DoorOpen, ..self.state },
            door_open: true,
            door_deadline: deadline(now, self.door_open_time),
            obstruction_deadline: deadline(now, self.door_timeout),
            ..self
        }
    }

    /// The machine set moving at time `now`, with a new motor deadline.
    pub open spec fn set_moving(self, now: u64) -> FsmView {
        FsmView {
            state: StateView { behaviour: Behaviour::Moving, ..self.state },
            motor_deadline: deadline(now, self.motor_timeout),
            ..self
        }
    }

    /// The machine with direction `d`.
    pub open spec fn with_direction(self, d: Direction) -> FsmView {
        FsmView { state: StateView { direction: d, ..self.state }, ..self }
    }

    /// The machine with behaviour `b`.
    pub open spec fn with_behaviour(self, b: Behaviour) -> FsmView {
        FsmView { state: StateView { behaviour: b, ..self.state }, ..self }
    }

    /// The cabin state and the hall matrix fit the building.
    pub open spec fn shaped(self) -> bool {
        &&& self.n_floors >= 1
        &&& self.state.valid(self.n_floors)
        &&& self.hall_requests.len() == self.n_floors
    }

    /// The invariant of the machine.
    pub open spec fn wf(self) -> bool {
        &&& self.shaped()
        &&& (self.state.behaviour == Behaviour::DoorOpen ==> self.door_open)
        &&& (self.state.behaviour == Behaviour::Moving || (self.state.behaviour == Behaviour::Error
            && !self.door_open)) ==> direction_allowed(
            self.state.direction,
            self.state.floor as int,
            self.n_floors as int,
        )
    }
}

/// A state that the machine can be put in: it fits the building, and a
/// cabin that is (or was, when its motor failed) moving is headed in a
/// direction allowed from its floor.
pub open spec fn settable_state(s: StateView, n: u8) -> bool {
    &&& s.valid(n)
    &&& (s.behaviour == Behaviour::Moving || s.behaviour == Behaviour::Error) ==> direction_allowed(
        s.direction,
        s.floor as int,
        n as int,
    )
}

/// The effect of a floor-sensor edge at `floor` at time `now`: the floor is
/// recorded and shown; orders here are served (stop, open the door); else the
/// direction is chosen anew, orders that it makes eligible here are served,
/// and the cabin goes idle or keeps moving. The state is published.
pub open spec fn floor_hit_step(v: FsmView, floor: u8, now: u64) -> (FsmView, Seq<FsmCommand>) {
    let v1 = FsmView { state: StateView { floor: floor, ..v.state }, floor_found: true, ..v };
    let shown = seq![FsmCommand::FloorIndicator(floor)];
    let open_tail = seq![
        FsmCommand::Motor(Direction::Stop),
        FsmCommand::DoorLight(true),
        FsmCommand::PublishState,
    ];
    if v1.completes_any() {
        (v1.completed().door_opened(now), shown + v1.completion_commands() + open_tail)
    } else {
        let d = v1.chosen_direction();
        let v2 = v1.with_direction(d);
        if v2.completes_any() {
            (v2.completed().door_opened(now), shown + v2.completion_commands() + open_tail)
        } else if d == Direction::Stop {
            (
                v2.with_behaviour(Behaviour::Idle),
                shown + seq![FsmCommand::Motor(Direction::Stop), FsmCommand::PublishState],
            )
        } else {
            (v2.set_moving(now), shown + seq![FsmCommand::Motor(d), FsmCommand::PublishState])
        }
    }
}

/// The effect of a periodic tick at time `now`. Before the first floor edge
/// nothing happens.
/// - Idle: orders here are served with the door opened; the direction is
///   chosen, and a cabin that did not open its door starts moving.
/// - DoorOpen: while obstructed the door timer is re-armed, and past the
///   obstruction deadline the cabin enters Error; once the door timer runs
///   out unobstructed the door closes, the direction is chosen, orders that
///   it makes eligible here reopen the door, else the cabin goes idle or moving.
/// - Moving: past the motor deadline without a floor edge the cabin enters
///   Error, publishes it and drives the motor again.
/// - Error: a door held open reopens once unobstructed; a cabin whose motor
///   failed drives the motor again each time the motor deadline passes.
pub open spec fn tick_step(v: FsmView, now: u64) -> (FsmView, Seq<FsmCommand>) {
    if !v.floor_found {
        (v, seq![])
    } else {
        match v.state.behaviour {
            Behaviour::Idle => {
                let opened = v.completes_any();
                let v1 = if opened { v.completed().door_opened(now) } else { v };
                let d = v1.chosen_direction();
                let v2 = v1.with_direction(d);
                if opened {
                    (
                        v2,
                        v.completion_commands() + seq![FsmCommand::DoorLight(true), FsmCommand::PublishState],
                    )
                } else if d != Direction::Stop {
                    (v2.set_moving(now), seq![FsmCommand::Motor(d)])
                } else {
                    (v2, seq![])
                }
            },
            Behaviour::DoorOpen => {
                if v.obstruction {
                    let v1 = FsmView { door_deadline: deadline(now, v.door_open_time), ..v };
                    if v.obstruction_deadline <= now {
                        (v1.with_behaviour(Behaviour::Error), seq![FsmCommand::PublishState])
                    } else {
                        (v1, seq![])
                    }
                } else if v.door_deadline <= now {
                    let v1 = FsmView { door_open: false, ..v };
                    let d = v1.chosen_direction();
                    let v2 = v1.with_direction(d);
                    let closed = seq![FsmCommand::DoorLight(false)];
                    if v2.completes_any() {
                        (
                            v2.completed().door_opened(now),
                            closed + v2.completion_commands() + seq![
                                FsmCommand::DoorLight(true),
                                FsmCommand::PublishState,
                            ],
                        )
                    } else if d == Direction::Stop {
                        (
                            v2.with_behaviour(Behaviour::Idle),
                            closed + seq![FsmCommand::Motor(d), FsmCommand::PublishState],
                        )
                    } else {
                        (v2.set_moving(now), closed + seq![FsmCommand::Motor(d), FsmCommand::PublishState])
                    }
                } else {
                    (v, seq![])
                }
            },
            Behaviour::Moving => {
                if v.motor_deadline <= now {
                    (
                        FsmView { motor_deadline: deadline(now, v.motor_timeout), ..v.with_behaviour(Behaviour::Error) },
                        seq![FsmCommand::PublishState, FsmCommand::Motor(v.state.direction)],
                    )
                } else {
                    (v, seq![])
                }
            },
            Behaviour::Error => {
                if v.door_open {
                    if !v.obstruction {
                        (v.door_opened(now), seq![FsmCommand::DoorLight(true), FsmCommand::PublishState])
                    } else {
                        (v, seq![])
                    }
                } else if v.motor_deadline <= now {
                    (
                        FsmView { motor_deadline: deadline(now, v.motor_timeout), ..v },
                        seq![FsmCommand::Motor(v.state.direction)],
                    )
                } else {
                    (v, seq![])
                }
            },
        }
    }
}


/// The direction choice never heads up from the top floor nor down from floor 0.
pub proof fn lemma_next_direction_allowed(d: Direction, cab: Seq<bool>, hall: Seq<[bool; 2]>, floor: int, n: int)
    ensures
        direction_allowed(next_direction(d, cab, hall, floor, n), floor, n),
{
}

/// The motor is never commanded up at the top floor nor down at floor 0:
/// every motor command of a floor edge or a tick is allowed from the floor
/// the cabin stands at when it is given.
pub proof fn lemma_motor_commands_allowed(v: FsmView, floor: u8, now: u64)
    requires
        v.wf(),
        floor < v.n_floors,
    ensures
        motor_commands_allowed(floor_hit_step(v, floor, now).1, floor as int, v.n_floors as int),
        motor_commands_allowed(tick_step(v, now).1, v.state.floor as int, v.n_floors as int),
{
    let v1 = FsmView { state: StateView { floor: floor, ..v.state }, floor_found: true, ..v };
    lemma_next_direction_allowed(v1.state.direction, v1.state.cab_requests, v1.hall_requests, floor as int, v.n_floors as int);
    let (_, hit) = floor_hit_step(v, floor, now);
    assert forall|i: int| 0 <= i < hit.len() implies match #[trigger] hit[i] {
        FsmCommand::Motor(d) => direction_allowed(d, floor as int, v.n_floors as int),
        _ => true,
    } by {
        if v1.completes_any() {
            lemma_completion_commands_not_motor(v1);
            let a = seq![FsmCommand::FloorIndicator(floor)];
            let b = v1.completion_commands();
            if a.len() <= i < a.len() + b.len() {
                assert(hit[i] == b[i - a.len()]);
            }
        } else {
            let v2 = v1.with_direction(v1.chosen_direction());
            if v2.completes_any() {
                lemma_completion_commands_not_motor(v2);
                let a = seq![FsmCommand::FloorIndicator(floor)];
                let b = v2.completion_commands();
                if a.len() <= i < a.len() + b.len() {
                    assert(hit[i] == b[i - a.len()]);
                }
            }
        }
    }
    lemma_next_direction_allowed(v.state.direction, v.state.cab_requests, v.hall_requests, v.state.floor as int, v.n_floors as int);
    let (_, tick) = tick_step(v, now);
    if v.floor_found {
        match v.state.behaviour {
            Behaviour::Idle => {
                lemma_completion_commands_not_motor(v);
                let v1 = if v.completes_any() { v.completed().door_opened(now) } else { v };
                lemma_next_direction_allowed(v1.state.direction, v1.state.cab_requests, v1.hall_requests, v.state.floor as int, v.n_floors as int);
            },
            Behaviour::DoorOpen => {
                let v1 = FsmView { door_open: false, ..v };
                let v2 = v1.with_direction(v1.chosen_direction());
                lemma_completion_commands_not_motor(v2);
                assert forall|i: int| 0 <= i < tick.len() implies match #[trigger] tick[i] {
                    FsmCommand::Motor(d) => direction_allowed(d, v.state.floor as int, v.n_floors as int),
                    _ => true,
                } by {
                    if !v.obstruction && v.door_deadline <= now && v2.completes_any() {
                        let b = v2.completion_commands();
                        if 1 <= i < 1 + b.len() {
                            assert(tick[i] == b[i - 1]);
                        }
                    }
                }
            },
            _ => {},
        }
    }
}

/// Completion emits no motor command.
proof fn lemma_completion_commands_not_motor(v: FsmView)
    ensures
        forall|i: int| 0 <= i < v.completion_commands().len() ==> !(#[trigger] v.completion_commands()[i] is Motor),
{
    let f = v.state.floor;
    let a: Seq<FsmCommand> = if v.cab_here() { seq![FsmCommand::OrderComplete(f, CAB), FsmCommand::SaveCabCalls] } else { seq![] };
    let b: Seq<FsmCommand> = if v.up_here() { seq![FsmCommand::OrderComplete(f, HALL_UP)] } else { seq![] };
    let e: Seq<FsmCommand> = if v.down_here() { seq![FsmCommand::OrderComplete(f, HALL_DOWN)] } else { seq![] };
    assert(v.completion_commands() == a + b + e);
}

/// At floor 0 with no order above, the direction choice is `Stop`,
/// whatever the current direction (no floor lies below floor 0).
pub proof fn lemma_bottom_floor_without_orders_above_stops(
    d: Direction,
    cab: Seq<bool>,
    hall: Seq<[bool; 2]>,
    n: int,
)
    requires
        !orders_above(cab, hall, 0, n),
    ensures
        next_direction(d, cab, hall, 0, n) == Direction::Stop,
{
}

/// Order completion at floor 0: a pending hall-up call is always cleared,
/// with its completion event; a pending hall-down call is cleared when the
/// cabin travels down, is idle, or floor 0 is also the top floor.
pub proof fn lemma_bottom_floor_completion(v: FsmView)
    requires
        v.shaped(),
        v.state.floor == 0,
    ensures
        v.hall_requests[0][HALL_UP as int] ==> !v.completed().hall_requests[0][HALL_UP as int]
            && v.completion_commands().contains(FsmCommand::OrderComplete(0, HALL_UP)),
        v.hall_requests[0][HALL_DOWN as int] && (v.state.direction == Direction::Down
            || v.state.behaviour == Behaviour::Idle || v.n_floors == 1)
            ==> !v.completed().hall_requests[0][HALL_DOWN as int]
            && v.completion_commands().contains(FsmCommand::OrderComplete(0, HALL_DOWN)),
{
    lemma_completion_events(v);
}

/// Order completion at the top floor: a pending hall-down call is always
/// cleared, with its completion event; a pending hall-up call is cleared when
/// the cabin travels up, is idle, or the top floor is also floor 0.
pub proof fn lemma_top_floor_completion(v: FsmView)
    requires
        v.shaped(),
        v.state.floor as int == v.n_floors - 1,
    ensures
        v.hall_requests[v.n_floors - 1][HALL_DOWN as int]
            ==> !v.completed().hall_requests[v.n_floors - 1][HALL_DOWN as int]
            && v.completion_commands().contains(FsmCommand::OrderComplete(v.state.floor, HALL_DOWN)),
        v.hall_requests[v.n_floors - 1][HALL_UP as int] && (v.state.direction == Direction::Up
            || v.state.behaviour == Behaviour::Idle || v.n_floors == 1)
            ==> !v.completed().hall_requests[v.n_floors - 1][HALL_UP as int]
            && v.completion_commands().contains(FsmCommand::OrderComplete(v.state.floor, HALL_UP)),
{
    lemma_completion_events(v);
}

/// The completion events name exactly the hall calls that completion clears.
proof fn lemma_completion_events(v: FsmView)
    requires
        v.shaped(),
    ensures
        v.up_here() ==> v.completion_commands().contains(FsmCommand::OrderComplete(v.state.floor, HALL_UP)),
        v.down_here() ==> v.completion_commands().contains(FsmCommand::OrderComplete(v.state.floor, HALL_DOWN)),
{
    let c = v.completion_commands();
    let a: Seq<FsmCommand> = if v.cab_here() {
        seq![FsmCommand::OrderComplete(v.state.floor, CAB), FsmCommand::SaveCabCalls]
    } else {
        seq![]
    };
    let b: Seq<FsmCommand> = if v.up_here() { seq![FsmCommand::OrderComplete(v.state.floor, HALL_UP)] } else { seq![] };
    let e: Seq<FsmCommand> = if v.down_here() { seq![FsmCommand::OrderComplete(v.state.floor, HALL_DOWN)] } else { seq![] };
    assert(c == a + b + e);
    if v.up_here() {
        assert(c[a.len() as int] == FsmCommand::OrderComplete(v.state.floor, HALL_UP));
    }
    if v.down_here() {
        assert(c[(a.len() + b.len()) as int] == FsmCommand::OrderComplete(v.state.floor, HALL_DOWN));
    }
}

/// The cabin state machine of one elevator.
pub struct ElevatorFSM {
    state: ElevatorState,
    hall_requests: Vec<[bool; 2]>,
    n_floors: u8,
    obstruction: bool,
    door_open: bool,
    floor_found: bool,
    door_open_time: u64,
    motor_timeout: u64,
    door_timeout: u64,
    door_deadline: u64,
    obstruction_deadline: u64,
    motor_deadline: u64,
}

impl View for ElevatorFSM {
    type V = FsmView;

    closed spec fn view(&self) -> FsmView {
        FsmView {
            state: self.state@,
            hall_requests: self.hall_requests@,
            n_floors: self.n_floors,
            obstruction: self.obstruction,
            door_open: self.door_open,
            floor_found: self.floor_found,
            door_open_time: self.door_open_time,
            motor_timeout: self.motor_timeout,
            door_timeout: self.door_timeout,
            door_deadline: self.door_deadline,
            obstruction_deadline: self.obstruction_deadline,
            motor_deadline: self.motor_deadline,
        }
    }
}

fn deadline_after(now: u64, span: u64) -> (r: u64)
    ensures
        r == deadline(now, span),
{
    if now > u64::MAX - span {
        u64::MAX
    } else {
        now + span
    }
}

fn push_all(out: &mut Vec<FsmCommand>, cmds: &[FsmCommand])
    ensures
        final(out)@ == old(out)@ + cmds@,
{
    let mut i: usize = 0;
    while i < cmds.len()
        invariant
            i <= cmds@.len(),
            out@ == old(out)@ + cmds@.take(i as int),
        decreases cmds.len() - i,
    {
        out.push(cmds[i]);
        i += 1;
        assert(out@ =~= old(out)@ + cmds@.take(i as int));
    }
    assert(cmds@.take(cmds@.len() as int) =~= cmds@);
}

impl ElevatorFSM {
    /// A machine for the configured building: idle at floor 0 with no
    /// orders, its floor not yet found.
    pub fn new(config: &ElevatorConfig) -> (r: ElevatorFSM)
        requires
            config.n_floors >= 1,
        ensures
            r@.wf(),
            r@.state == default_state(config.n_floors),
            r@.hall_requests == no_hall_calls(config.n_floors),
            r@.n_floors == config.n_floors,
            !r@.obstruction,
            !r@.door_open,
            !r@.floor_found,
            r@.door_open_time == config.door_open_time,
            r@.motor_timeout == config.motor_timeout,
            r@.door_timeout == config.door_timeout,
            r@.door_deadline == 0,
            r@.obstruction_deadline == 0,
            r@.motor_deadline == 0,
    {
        ElevatorFSM {
            state: ElevatorState::new(config.n_floors),
            hall_requests: empty_matrix(config.n_floors),
            n_floors: config.n_floors,
            obstruction: false,
            door_open: false,
            floor_found: false,
            door_open_time: config.door_open_time,
            motor_timeout: config.motor_timeout,
            door_timeout: config.door_timeout,
            door_deadline: 0,
            obstruction_deadline: 0,
            motor_deadline: 0,
        }
    }

    /// The cabin state.
    pub fn state(&self) -> (r: &ElevatorState)
        ensures
            r@ == self@.state,
    {
        &self.state
    }

    /// The hall calls currently assigned to this cabin.
    pub fn hall_requests(&self) -> (r: &Vec<[bool; 2]>)
        ensures
            r@ == self@.hall_requests,
    {
        &self.hall_requests
    }

    /// Puts the cabin in the given state; the door is taken to be open
    /// exactly when the state says so.
    pub fn set_state(&mut self, state: ElevatorState)
        requires
            old(self)@.wf(),
            settable_state(state@, old(self)@.n_floors),
        ensures
            final(self)@.wf(),
            final(self)@ == (FsmView {
                state: state@,
                door_open: state@.behaviour == Behaviour::DoorOpen,
                ..old(self)@
            }),
    {
        self.door_open = state.behaviour == Behaviour::DoorOpen;
        self.state = state;
    }

    /// Replaces the hall calls assigned to this cabin wholesale.
    pub fn set_hall_requests(&mut self, hall_requests: Vec<[bool; 2]>)
        requires
            old(self)@.wf(),
            hall_requests@.len() == old(self)@.n_floors,
        ensures
            final(self)@.wf(),
            final(self)@ == (FsmView { hall_requests: hall_requests@, ..old(self)@ }),
    {
        self.hall_requests = hall_requests;
    }

    /// Whether orders lie in direction `direction` from the current floor
    /// (never for `Stop`).
    pub fn has_orders_in_direction(&self, direction: Direction) -> (r: bool)
        requires
            self@.shaped(),
        ensures
            r == orders_toward(
                direction,
                self@.state.cab_requests,
                self@.hall_requests,
                self@.state.floor as int,
                self@.n_floors as int,
            ),
    {
        let cab = &self.state.cab_requests;
        let hall = &self.hall_requests;
        match direction {
            Direction::Up => {
                let mut f: u8 = self.state.floor + 1;
                while f < self.n_floors
                    invariant
                        self@.shaped(),
                        cab@ == self@.state.cab_requests,
                        hall@ == self@.hall_requests,
                        direction == Direction::Up,
                        self.state.floor < f <= self.n_floors,
                        forall|g: int| self.state.floor < g < f ==> !#[trigger] order_at(cab@, hall@, g),
                    decreases self.n_floors - f,
                {
                    let i = f as usize;
                    let row = hall[i];
                    if cab[i] || row[HALL_UP as usize] || row[HALL_DOWN as usize] {
                        assert(row == hall@[f as int]);
                        assert(order_at(self@.state.cab_requests, self@.hall_requests, f as int));
                        return true;
                    }
                    f += 1;
                }
                false
            },
            Direction::Down => {
                let mut f: u8 = 0;
                while f < self.state.floor
                    invariant
                        self@.shaped(),
                        cab@ == self@.state.cab_requests,
                        hall@ == self@.hall_requests,
                        direction == Direction::Down,
                        f <= self.state.floor,
                        forall|g: int| 0 <= g < f ==> !#[trigger] order_at(cab@, hall@, g),
                    decreases self.state.floor - f,
                {
                    let i = f as usize;
                    let row = hall[i];
                    if cab[i] || row[HALL_UP as usize] || row[HALL_DOWN as usize] {
                        assert(row == hall@[f as int]);
                        assert(order_at(self@.state.cab_requests, self@.hall_requests, f as int));
                        return true;
                    }
                    f += 1;
                }
                false
            },
            Direction::Stop => false,
        }
    }

    /// The direction to take from the current floor.
    pub fn choose_direction(&self) -> (r: Direction)
        requires
            self@.shaped(),
        ensures
            r == self@.chosen_direction(),
    {
        let current = self.state.direction;
        if self.has_orders_in_direction(current) {
            return current;
        }
        if current == Direction::Up && self.has_orders_in_direction(Direction::Down) {
            return Direction::Down;
        }
        if current == Direction::Down && self.has_orders_in_direction(Direction::Up) {
            return Direction::Up;
        }
        if current == Direction::Stop {
            if self.has_orders_in_direction(Direction::Up) {
                return Direction::Up;
            }
            if self.has_orders_in_direction(Direction::Down) {
                return Direction::Down;
            }
        }
        Direction::Stop
    }

    /// Completes the orders at the current floor: a cab call always, a
    /// hall-up call when travelling up, idle or at the bottom floor, a
    /// hall-down call when travelling down, idle or at the top floor. Appends
    /// the completion events (and, for a cab call, the request to persist the
    /// cab calls) to `out`; returns whether any order was completed.
    pub fn complete_orders(&mut self, out: &mut Vec<FsmCommand>) -> (r: bool)
        requires
            old(self)@.shaped(),
        ensures
            final(self)@.shaped(),
            old(self)@.wf() ==> final(self)@.wf(),
            final(self)@ == old(self)@.completed(),
            final(out)@ == old(out)@ + old(self)@.completion_commands(),
            r == old(self)@.completes_any(),
    {
        let ghost v = self@;
        let floor = self.state.floor;
        let f = floor as usize;
        let cab = self.state.cab_requests[f];
        let row = self.hall_requests[f];
        let serves_up = self.state.direction == Direction::Up || self.state.behaviour == Behaviour::Idle
            || floor == 0;
        let serves_down = self.state.direction == Direction::Down || self.state.behaviour
            == Behaviour::Idle || floor == self.n_floors - 1;
        let up = row[HALL_UP as usize] && serves_up;
        let down = row[HALL_DOWN as usize] && serves_down;
        self.state.cab_requests.set(f, false);
        self.hall_requests.set(f, [row[HALL_UP as usize] && !up, row[HALL_DOWN as usize] && !down]);
        let ghost start = out@;
        if cab {
            out.push(FsmCommand::OrderComplete(floor, CAB));
            out.push(FsmCommand::SaveCabCalls);
        }
        if up {
            out.push(FsmCommand::OrderComplete(floor, HALL_UP));
        }
        if down {
            out.push(FsmCommand::OrderComplete(floor, HALL_DOWN));
        }
        assert(out@ =~= start + v.completion_commands());
        cab || up || down
    }

    /// Starts the machine: drives the motor down to find a floor, seeds the
    /// cab calls from the persisted ones (fitted to the building) and
    /// publishes the state.
    pub fn start(&mut self, saved: &CabOrders) -> (r: Vec<FsmCommand>)
        requires
            old(self)@.wf(),
        ensures
            final(self)@.wf(),
            final(self)@ == (FsmView {
                state: StateView {
                    cab_requests: fitted_calls(saved.cab_calls@, old(self)@.n_floors),
                    ..old(self)@.state
                },
                ..old(self)@
            }),
            r@ == seq![FsmCommand::Motor(Direction::Down), FsmCommand::PublishState],
    {
        self.state.cab_requests = saved.cab_requests(self.n_floors);
        let mut r: Vec<FsmCommand> = Vec::new();
        r.push(FsmCommand::Motor(Direction::Down));
        r.push(FsmCommand::PublishState);
        r
    }

    /// A cab call for `floor`: recorded, persisted and published.
    pub fn on_cab_request(&mut self, floor: u8) -> (r: Vec<FsmCommand>)
        requires
            old(self)@.wf(),
            floor < old(self)@.n_floors,
        ensures
            final(self)@.wf(),
            final(self)@ == (FsmView {
                state: StateView {
                    cab_requests: old(self)@.state.cab_requests.update(floor as int, true),
                    ..old(self)@.state
                },
                ..old(self)@
            }),
            r@ == seq![FsmCommand::SaveCabCalls, FsmCommand::PublishState],
    {
        self.state.cab_requests.set(floor as usize, true);
        let mut r: Vec<FsmCommand> = Vec::new();
        r.push(FsmCommand::SaveCabCalls);
        r.push(FsmCommand::PublishState);
        r
    }

    /// An obstruction change at time `now`; clearing the obstruction starts
    /// a new obstruction deadline.
    pub fn on_obstruction(&mut self, obstructed: bool, now: u64)
        requires
            old(self)@.wf(),
        ensures
            final(self)@.wf(),
            final(self)@ == (FsmView {
                obstruction: obstructed,
                obstruction_deadline: if obstructed {
                    old(self)@.obstruction_deadline
                } else {
                    deadline(now, old(self)@.door_timeout)
                },
                ..old(self)@
            }),
    {
        self.obstruction = obstructed;
        if !obstructed {
            self.obstruction_deadline = deadline_after(now, self.door_timeout);
        }
    }

    /// A floor-sensor edge at `floor` at time `now`.
    pub fn on_floor_hit(&mut self, floor: u8, now: u64) -> (r: Vec<FsmCommand>)
        requires
            old(self)@.wf(),
            floor < old(self)@.n_floors,
        ensures
            final(self)@.wf(),
            (final(self)@, r@) == floor_hit_step(old(self)@, floor, now),
            motor_commands_allowed(r@, final(self)@.state.floor as int, final(self)@.n_floors as int),
    {
        let ghost v = self@;
        self.state.floor = floor;
        self.floor_found = true;
        let ghost v1 = self@;
        let mut out: Vec<FsmCommand> = Vec::new();
        out.push(FsmCommand::FloorIndicator(floor));
        let open_tail = [FsmCommand::Motor(Direction::Stop), FsmCommand::DoorLight(true), FsmCommand::PublishState];
        if self.complete_orders(&mut out) {
            self.open_door(now);
            push_all(&mut out, &open_tail);
        } else {
            assert(self@.state.cab_requests =~= v1.state.cab_requests);
            assert(self@.hall_requests[floor as int] =~= v1.hall_requests[floor as int]);
            assert(self@.hall_requests =~= v1.hall_requests);
            let d = self.choose_direction();
            proof {
                lemma_next_direction_allowed(v1.state.direction, v1.state.cab_requests, v1.hall_requests, floor as int, v1.n_floors as int);
            }
            self.state.direction = d;
            if self.complete_orders(&mut out) {
                self.open_door(now);
                push_all(&mut out, &open_tail);
            } else {
                let ghost v2 = v1.with_direction(d);
                assert(self@.state.cab_requests =~= v2.state.cab_requests);
                assert(self@.hall_requests[floor as int] =~= v2.hall_requests[floor as int]);
                assert(self@.hall_requests =~= v2.hall_requests);
                if d == Direction::Stop {
                    self.state.behaviour = Behaviour::Idle;
                } else {
                    self.state.behaviour = Behaviour::Moving;
                    self.motor_deadline = deadline_after(now, self.motor_timeout);
                }
                out.push(FsmCommand::Motor(d));
                out.push(FsmCommand::PublishState);
            }
        }
        proof {
            let (fv, fc) = floor_hit_step(v, floor, now);
            assert(out@ =~= fc);
        }
        out
    }

    /// A periodic tick at time `now`.
    pub fn on_tick(&mut self, now: u64) -> (r: Vec<FsmCommand>)
        requires
            old(self)@.wf(),
        ensures
            final(self)@.wf(),
            (final(self)@, r@) == tick_step(old(self)@, now),
            motor_commands_allowed(r@, final(self)@.state.floor as int, final(self)@.n_floors as int),
    {
        let ghost v = self@;
        let mut out: Vec<FsmCommand> = Vec::new();
        if !self.floor_found {
            return out;
        }
        match self.state.behaviour {
            Behaviour::Idle => {
                let opened = self.complete_orders(&mut out);
                if opened {
                    self.open_door(now);
                } else {
                    assert(self@.state.cab_requests =~= v.state.cab_requests);
                    assert(self@.hall_requests[v.state.floor as int] =~= v.hall_requests[v.state.floor as int]);
                    assert(self@.hall_requests =~= v.hall_requests);
                }
                let ghost v1 = self@;
                let d = self.choose_direction();
                proof {
                    lemma_next_direction_allowed(v1.state.direction, v1.state.cab_requests, v1.hall_requests, v1.state.floor as int, v1.n_floors as int);
                }
                self.state.direction = d;
                if opened {
                    out.push(FsmCommand::DoorLight(true));
                    out.push(FsmCommand::PublishState);
                } else if d != Direction::Stop {
                    self.state.behaviour = Behaviour::Moving;
                    self.motor_deadline = deadline_after(now, self.motor_timeout);
                    out.push(FsmCommand::Motor(d));
                }
            },
            Behaviour::DoorOpen => {
                if self.obstruction {
                    self.door_deadline = deadline_after(now, self.door_open_time);
                    if self.obstruction_deadline <= now {
                        self.state.behaviour = Behaviour::Error;
                        out.push(FsmCommand::PublishState);
                    }
                } else if self.door_deadline <= now {
                    self.door_open = false;
                    out.push(FsmCommand::DoorLight(false));
                    let ghost v1 = self@;
                    let d = self.choose_direction();
                    proof {
                        lemma_next_direction_allowed(v1.state.direction, v1.state.cab_requests, v1.hall_requests, v1.state.floor as int, v1.n_floors as int);
                    }
                    self.state.direction = d;
                    let ghost v2 = self@;
                    if self.complete_orders(&mut out) {
                        self.open_door(now);
                        out.push(FsmCommand::DoorLight(true));
                        out.push(FsmCommand::PublishState);
                    } else {
                        assert(self@.state.cab_requests =~= v2.state.cab_requests);
                        assert(self@.hall_requests[v2.state.floor as int] =~= v2.hall_requests[v2.state.floor as int]);
                        assert(self@.hall_requests =~= v2.hall_requests);
                        if d == Direction::Stop {
                            self.state.behaviour = Behaviour::Idle;
                        } else {
                            self.state.behaviour = Behaviour::Moving;
                            self.motor_deadline = deadline_after(now, self.motor_timeout);
                        }
                        out.push(FsmCommand::Motor(d));
                        out.push(FsmCommand::PublishState);
                    }
                }
            },
            Behaviour::Moving => {
                if self.motor_deadline <= now {
                    self.state.behaviour = Behaviour::Error;
                    self.motor_deadline = deadline_after(now, self.motor_timeout);
                    out.push(FsmCommand::PublishState);
                    out.push(FsmCommand::Motor(self.state.direction));
                }
            },
            Behaviour::Error => {
                if self.door_open {
                    if !self.obstruction {
                        self.open_door(now);
                        out.push(FsmCommand::DoorLight(true));
                        out.push(FsmCommand::PublishState);
                    }
                } else if self.motor_deadline <= now {
                    self.motor_deadline = deadline_after(now, self.motor_timeout);
                    out.push(FsmCommand::Motor(self.state.direction));
                }
            },
        }
        proof {
            let (fv, fc) = tick_step(v, now);
            assert(out@ =~= fc);
        }
        out
    }

    fn open_door(&mut self, now: u64)
        requires
            old(self)@.shaped(),
        ensures
            final(self)@.wf(),
            final(self)@ == old(self)@.door_opened(now),
    {
        self.state.behaviour = Behaviour::DoorOpen;
        self.door_open = true;
        self.door_deadline = deadline_after(now, self.door_open_time);
        self.obstruction_deadline = deadline_after(now, self.door_timeout);
    }
}

} // verus!
