pub mod drs;
pub mod mapping_rules;
pub mod mongo;
pub mod oid;
pub mod projects;
