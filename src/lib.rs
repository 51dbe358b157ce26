//! Files media dropped into an inbox into a date-partitioned archive, and
//! reads that archive back as a sequence of dated entries.
pub mod category;
pub mod date;
pub mod dump;
pub mod entries;
pub mod extract;
pub mod lastfm;
pub mod placement;
