//! Where the service listens, and why it may not.
use vstd::prelude::*;
use vstd::string::*;
use crate::text;

verus! {

/// Why the listener could not be bound.
#[derive(Debug)]
pub enum BindError {
    /// The port is taken. There is no other port to fall back to.
    AddrInUse(u16),
    /// The system refused for another reason.
    Other {
        /// The port.
        port: u16,
        /// The reason in the system's own words.
        source: String,
    },
}

/// What the system said to an attempt to bind.
pub enum BindFailure {
    /// The address is taken.
    AddrInUse,
    /// Anything else, in its own words.
    Other(String),
}

/// The address that the service listens on: the local one, with the given
/// port. No other can be asked for.
pub fn listen_address(port: u16) -> (address: ([u8; 4], u16))
    ensures
        address.0@ == seq![127u8, 0u8, 0u8, 1u8],
        address.1 == port,
{
    let octets: [u8; 4] = [127, 0, 0, 1];
    assert(octets@ =~= seq![127u8, 0u8, 0u8, 1u8]);
    (octets, port)
}

/// What a failure to bind a port is reported as.
pub fn bind_listener(port: u16, failure: BindFailure) -> (error: BindError)
    ensures
        match failure {
            BindFailure::AddrInUse => error == BindError::AddrInUse(port),
            BindFailure::Other(text) => error == (BindError::Other { port, source: text }),
        },
{
    match failure {
        BindFailure::AddrInUse => BindError::AddrInUse(port),
        BindFailure::Other(source) => BindError::Other { port, source },
    }
}

impl BindError {
    /// The error in words.
    pub fn message(&self) -> (message: String)
        ensures
            message@ == match self {
                BindError::AddrInUse(port) => "port "@ + text::decimal(*port as nat)
                    + " is already in use"@,
                BindError::Other { port, source } => "failed to bind 127.0.0.1:"@ + text::decimal(
                    *port as nat,
                ) + ": "@ + source@,
            },
    {
        match self {
            BindError::AddrInUse(port) => {
                let mut message = "port ".to_owned();
                message.append(text::string_of(&text::decimal_chars(*port as u64)).as_str());
                message.append(" is already in use");
                message
            },
            BindError::Other { port, source } => {
                let mut message = "failed to bind 127.0.0.1:".to_owned();
                message.append(text::string_of(&text::decimal_chars(*port as u64)).as_str());
                message.append(": ");
                message.append(source.as_str());
                message
            },
        }
    }
}

} // verus!
