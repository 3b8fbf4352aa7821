pub mod clock;
pub mod dict;
pub mod engine;
pub mod errors;
pub mod expr;
pub mod jsondecl;
pub mod strutil;
pub mod value;
pub mod outputs;
pub mod model;
pub mod workflow_registry;
pub mod matrix;
pub mod schedule;
pub mod validate;
pub mod rng;
pub mod parser;
