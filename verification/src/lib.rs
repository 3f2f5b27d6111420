//! Lists the recent stable releases of a game engine: the rules that pick the
//! stable releases out of a release listing, read their version tags, order
//! them and cap each major line, and the rule that pages through the listing.

pub mod json;
pub mod release;
pub mod tag;
pub mod version;
pub mod listing;
pub mod pager;
pub mod request;
