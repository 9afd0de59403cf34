//! Weather measurements: strict date reading, humidity validation, a key-ordered
//! store with one record per day, inclusive range reads, and live fan-out of each
//! accepted measurement to the attached listeners.
pub mod broadcast;
pub mod date;
pub mod handlers;
pub mod model;
pub mod service;
