//! Configuration records and the rules that a configuration must meet.
use vstd::prelude::*;

verus! {

/// Settings of the network layer.
#[derive(Clone, Debug, PartialEq)]
pub struct NetworkConfig {
    pub id_gen_address: String,
    pub msg_port: u16,
    pub peer_port: u16,
    pub max_retries: u32,
    pub ack_timeout: u64,
    pub max_attempts_id_generation: u32,
    pub delay_between_attempts_id_generation: u64,
}

/// Settings of the cabin state machine; times in milliseconds.
#[derive(Clone, Debug, PartialEq)]
pub struct ElevatorConfig {
    pub n_floors: u8,
    pub door_open_time: u64,
    pub motor_timeout: u64,
    pub door_timeout: u64,
}

/// Settings of the hardware driver.
#[derive(Clone, Debug, PartialEq)]
pub struct HardwareConfig {
    pub n_floors: u8,
    pub driver_address: String,
    pub driver_port: u16,
    pub hw_thread_sleep_time: u64,
}

/// The whole configuration file.
#[derive(Clone, Debug, PartialEq)]
pub struct Config {
    pub network: NetworkConfig,
    pub elevator: ElevatorConfig,
    pub hardware: HardwareConfig,
}

/// Why a configuration cannot be used.
#[derive(Clone, Copy, Debug, PartialEq, Eq, Structural)]
pub enum ConfigError {
    /// The building has no floor.
    NoFloors,
    /// The hardware section and the elevator section disagree on the floor count.
    FloorCountMismatch,
}

impl Config {
    /// Checks the configuration: at least one floor, and the same floor
    /// count in the hardware and elevator sections.
    pub fn check(&self) -> (r: Result<(), ConfigError>)
        ensures
            r == (if self.elevator.n_floors == 0 {
                Err::<(), ConfigError>(ConfigError::NoFloors)
            } else if self.hardware.n_floors != self.elevator.n_floors {
                Err(ConfigError::FloorCountMismatch)
            } else {
                Ok(())
            }),
    {
        if self.elevator.n_floors == 0 {
            Err(ConfigError::NoFloors)
        } else if self.hardware.n_floors != self.elevator.n_floors {
            Err(ConfigError::FloorCountMismatch)
        } else {
            Ok(())
        }
    }

    /// Applies the command-line overrides: each given value replaces the
    /// configured one, everything else is kept.
    pub fn with_overrides(
        self,
        hardware_address: Option<String>,
        hardware_port: Option<u16>,
        network_port: Option<u16>,
    ) -> (r: Config)
        ensures
            r.hardware.driver_address@ == (match hardware_address {
                Some(a) => a@,
                None => self.hardware.driver_address@,
            }),
            r.hardware.driver_port == (match hardware_port {
                Some(p) => p,
                None => self.hardware.driver_port,
            }),
            r.network.msg_port == (match network_port {
                Some(p) => p,
                None => self.network.msg_port,
            }),
            r.elevator == self.elevator,
            r.hardware.n_floors == self.hardware.n_floors,
            r.hardware.hw_thread_sleep_time == self.hardware.hw_thread_sleep_time,
            r.network.id_gen_address == self.network.id_gen_address,
            r.network.peer_port == self.network.peer_port,
            r.network.max_retries == self.network.max_retries,
            r.network.ack_timeout == self.network.ack_timeout,
            r.network.max_attempts_id_generation == self.network.max_attempts_id_generation,
            r.network.delay_between_attempts_id_generation
                == self.network.delay_between_attempts_id_generation,
    {
        let mut c = self;
        match hardware_address {
            Some(a) => {
                c.hardware.driver_address = a;
            },
            None => {},
        }
        match hardware_port {
            Some(p) => {
                c.hardware.driver_port = p;
            },
            None => {},
        }
        match network_port {
            Some(p) => {
                c.network.msg_port = p;
            },
            None => {},
        }
        c
    }
}

/// The persisted cab calls of the local cabin.
#[derive(Clone, Debug, PartialEq)]
pub struct CabOrders {
    pub cab_calls: Vec<bool>,
}

/// The persisted calls fitted to `n` floors: a floor missing from the file
/// has no call, and entries beyond the top floor are ignored.
pub open spec fn fitted_calls(saved: Seq<bool>, n: u8) -> Seq<bool> {
    Seq::new(n as nat, |f: int| f < saved.len() && saved[f])
}

impl CabOrders {
    /// The cab-request vector of a building of `n_floors` floors that these
    /// saved calls seed.
    pub fn cab_requests(&self, n_floors: u8) -> (r: Vec<bool>)
        ensures
            r@ == fitted_calls(self.cab_calls@, n_floors),
    {
        let mut r: Vec<bool> = Vec::with_capacity(n_floors as usize);
        let mut f: usize = 0;
        while f < n_floors as usize
            invariant
                f <= n_floors,
                r@ == fitted_calls(self.cab_calls@, n_floors).take(f as int),
            decreases n_floors - f,
        {
            let call = f < self.cab_calls.len() && self.cab_calls[f];
            r.push(call);
            f += 1;
            assert(r@ =~= fitted_calls(self.cab_calls@, n_floors).take(f as int));
        }
        assert(r@ =~= fitted_calls(self.cab_calls@, n_floors));
        r
    }
}

} // verus!
