//! Word lookup against an online dictionary: the scraping rules that turn a
//! response page into a display string, and the endpoint fallback chain.
pub mod extract;
pub mod lookup;
pub mod text;
