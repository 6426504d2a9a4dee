use vstd::prelude::*;

verus! {

/// The largest payload that one UDP datagram over IPv4 can carry.
pub const MAX_DATAGRAM_PAYLOAD: u32 = 65507;

/// Direction of a link: a transmitter (pacer) or a receiver (recorder).
#[derive(Debug, Clone, Copy, PartialEq, Eq, Structural)]
pub enum LinkMode {
    Tx,
    Rx,
}

/// Why a configuration cannot be started.
#[derive(Debug, Clone, Copy, PartialEq, Eq, Structural)]
pub enum ConfigError {
    /// A transmitter has no destination port (port 0).
    InvalidPort,
    /// A transmitter's payload does not fit in one datagram.
    InvalidPayloadSize,
}

/// Everything that identifies a link: its direction, where it binds, where it
/// sends, and how much and how often it sends. A configuration is a value: a
/// change of any field makes a new configuration.
#[derive(Debug, Clone)]
pub struct LinkConfig {
    pub mode: LinkMode,
    pub bind_address: String,
    pub bind_port: u16,
    pub target_address: String,
    pub target_port: u16,
    pub payload_size: u32,
    pub send_interval_us: u32,
}

/// Two configurations describe the same link when every field agrees.
pub open spec fn same_config(a: LinkConfig, b: LinkConfig) -> bool {
    &&& a.mode == b.mode
    &&& a.bind_address@ == b.bind_address@
    &&& a.bind_port == b.bind_port
    &&& a.target_address@ == b.target_address@
    &&& a.target_port == b.target_port
    &&& a.payload_size == b.payload_size
    &&& a.send_interval_us == b.send_interval_us
}

impl PartialEq for LinkConfig {
    fn eq(&self, other: &LinkConfig) -> (r: bool)
        ensures
            r == same_config(*self, *other),
    {
        self.mode == other.mode && self.bind_address == other.bind_address && self.bind_port
            == other.bind_port && self.target_address == other.target_address
            && self.target_port == other.target_port && self.payload_size == other.payload_size
            && self.send_interval_us == other.send_interval_us
    }
}

impl vstd::std_specs::cmp::PartialEqSpecImpl for LinkConfig {
    open spec fn obeys_eq_spec() -> bool {
        true
    }

    open spec fn eq_spec(&self, other: &LinkConfig) -> bool {
        same_config(*self, *other)
    }
}

impl LinkConfig {
    /// A transmitter configuration: binds `bind_address` on an ephemeral port
    /// and sends `payload_size` bytes to `target_address:target_port` every
    /// `send_interval_us` microseconds.
    pub fn tx(
        bind_address: String,
        target_address: String,
        target_port: u16,
        payload_size: u32,
        send_interval_us: u32,
    ) -> (r: LinkConfig)
        ensures
            r.mode == LinkMode::Tx,
            r.bind_address@ == bind_address@,
            r.bind_port == 0,
            r.target_address@ == target_address@,
            r.target_port == target_port,
            r.payload_size == payload_size,
            r.send_interval_us == send_interval_us,
    {
        LinkConfig {
            mode: LinkMode::Tx,
            bind_address,
            bind_port: 0,
            target_address,
            target_port,
            payload_size,
            send_interval_us,
        }
    }

    /// A receiver configuration: listens on `bind_address:bind_port`.
    pub fn rx(bind_address: String, bind_port: u16) -> (r: LinkConfig)
        ensures
            r.mode == LinkMode::Rx,
            r.bind_address@ == bind_address@,
            r.bind_port == bind_port,
            r.target_address@ == Seq::<char>::empty(),
            r.target_port == 0,
            r.payload_size == 0,
            r.send_interval_us == 0,
    {
        LinkConfig {
            mode: LinkMode::Rx,
            bind_address,
            bind_port,
            target_address: String::new(),
            target_port: 0,
            payload_size: 0,
            send_interval_us: 0,
        }
    }

    /// The checks on the numbers of a configuration; addresses are checked
    /// where they are parsed, when the socket is made.
    pub open spec fn is_valid(&self) -> bool {
        self.mode == LinkMode::Tx ==> {
            &&& self.target_port != 0
            &&& self.payload_size <= MAX_DATAGRAM_PAYLOAD
        }
    }

    /// The error that `validate` reports for an invalid configuration.
    pub open spec fn error(&self) -> ConfigError {
        if self.mode == LinkMode::Tx && self.target_port == 0 {
            ConfigError::InvalidPort
        } else {
            ConfigError::InvalidPayloadSize
        }
    }

    /// Checks the numbers of the configuration. A transmitter needs a
    /// destination port and a payload that fits in one datagram; the port is
    /// checked first.
    pub fn validate(&self) -> (r: Result<(), ConfigError>)
        ensures
            r is Ok <==> self.is_valid(),
            !self.is_valid() ==> r == Err::<(), ConfigError>(self.error()),
            r == Err::<(), ConfigError>(ConfigError::InvalidPort) <==> (self.mode == LinkMode::Tx
                && self.target_port == 0),
            r == Err::<(), ConfigError>(ConfigError::InvalidPayloadSize) <==> (self.mode
                == LinkMode::Tx && self.target_port != 0 && self.payload_size
                > MAX_DATAGRAM_PAYLOAD),
    {
        match self.mode {
            LinkMode::Rx => Ok(()),
            LinkMode::Tx => {
                if self.target_port == 0 {
                    Err(ConfigError::InvalidPort)
                } else if self.payload_size > MAX_DATAGRAM_PAYLOAD {
                    Err(ConfigError::InvalidPayloadSize)
                } else {
                    Ok(())
                }
            },
        }
    }
}

} // verus!
