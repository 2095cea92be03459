//! Producers (`pro`) and consumers (`con`) for the synchronous protocols.
pub mod con;
pub mod pro;
pub mod schedule;
