//! Version 1 of the service: glossary entries, their history, their likes
//! and the health probes.

pub mod glossary;
pub mod glossary_history;
pub mod grouped;
pub mod health;
pub mod like;
