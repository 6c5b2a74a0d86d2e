//! Catalogue model of a university's extracurricular activities: time
//! windows, classification tags, activity records, filtering, paginated
//! retrieval with series expansion, registration decisions and ranking.

pub mod time;
pub mod text;
pub mod status;
pub mod tags;
pub mod activity;
pub mod filter;
pub mod retrieval;
pub mod participant;
pub mod registration;
pub mod site;
pub mod recommend;
pub mod paging;
pub mod wordstats;
