//! Lints on the preamble's headers.

pub mod author;
pub mod date;
pub mod file_name;
pub mod future_date;
pub mod length;
pub mod list;
pub mod no_duplicates;
pub mod one_of;
pub mod order;
pub mod proposal_ref;
pub mod regex;
pub mod require_referenced;
pub mod required;
pub mod required_if_eq;
pub mod requires_status;
pub mod trim;
pub mod uint;
pub mod url;

pub use self::author::Author;
pub use self::date::Date;
pub use self::file_name::FileName;
pub use self::future_date::FutureDate;
pub use self::length::Length;
pub use self::list::List;
pub use self::no_duplicates::NoDuplicates;
pub use self::one_of::OneOf;
pub use self::order::Order;
pub use self::proposal_ref::ProposalRef;
pub use self::regex::{Mode, PreambleRegex};
pub use self::require_referenced::RequireReferenced;
pub use self::required::Required;
pub use self::required_if_eq::RequiredIfEq;
pub use self::requires_status::RequiresStatus;
pub use self::trim::Trim;
pub use self::uint::{ConfiguredUint, Uint, UintList, UintMessage};
pub use self::url::Url;
