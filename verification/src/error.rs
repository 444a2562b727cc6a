//! The error kinds of address resolution.

use vstd::prelude::*;

verus! {

/// What can go wrong while resolving a payment address.
///
/// `DnssecError` is reserved for a dedicated DNSSEC failure signal; the DNS
/// collaborator currently reports such failures as plain resolution failures,
/// so only `DnsError` is produced for them today.
#[derive(Debug)]
pub enum Bip353Error {
    DnsError(String),
    InvalidAddress(String),
    InvalidRecord(String),
    DnssecError(String),
}

impl Bip353Error {
    /// The message carried by the error, without the kind prefix.
    pub open spec fn message_view(&self) -> Seq<char> {
        match self {
            Bip353Error::DnsError(m) => m@,
            Bip353Error::InvalidAddress(m) => m@,
            Bip353Error::InvalidRecord(m) => m@,
            Bip353Error::DnssecError(m) => m@,
        }
    }

    /// The display form of the error: its kind as a prefix, then the message.
    pub open spec fn display_view(&self) -> Seq<char> {
        match self {
            Bip353Error::DnsError(m) => "DNS error: "@ + m@,
            Bip353Error::InvalidAddress(m) => "Invalid address: "@ + m@,
            Bip353Error::InvalidRecord(m) => "Invalid record: "@ + m@,
            Bip353Error::DnssecError(m) => "DNSSEC error: "@ + m@,
        }
    }

    /// Renders the error for display, kind prefix included.
    pub fn display_string(&self) -> (r: String)
        ensures
            r@ == self.display_view(),
    {
        match self {
            Bip353Error::DnsError(m) => {
                let mut s = String::from_str("DNS error: ");
                s.append(m.as_str());
                s
            },
            Bip353Error::InvalidAddress(m) => {
                let mut s = String::from_str("Invalid address: ");
                s.append(m.as_str());
                s
            },
            Bip353Error::InvalidRecord(m) => {
                let mut s = String::from_str("Invalid record: ");
                s.append(m.as_str());
                s
            },
            Bip353Error::DnssecError(m) => {
                let mut s = String::from_str("DNSSEC error: ");
                s.append(m.as_str());
                s
            },
        }
    }
}

} // verus!
