//! The distributed-key-generation protocol proper: member keys, the typed
//! broadcast payloads of each round, and the multi-phase driver.

pub mod broadcast;
pub mod committee;
pub mod procedure_keys;
