//! Resolution of human-readable Bitcoin payment addresses (BIP-353).
//!
//! A payment address such as `alice@example.com` (optionally prefixed with
//! the Bitcoin currency glyph) is parsed into a user and a domain, the DNS
//! TXT records under `<user>.user._bitcoin-payment.<domain>` are aggregated
//! into a single candidate `bitcoin:` URI, and that URI is classified into a
//! typed payment instruction.  The DNS lookup itself is left to a caller;
//! everything this crate computes is stated in contracts and verified.

pub mod error;
pub mod instruction;
pub mod resolver;
pub mod text;

pub use error::Bip353Error;
pub use instruction::Params;
pub use instruction::PaymentInstruction;
pub use instruction::PaymentType;
pub use resolver::Resolver;
pub use resolver::TxtRecord;
pub use text::trim_str;
