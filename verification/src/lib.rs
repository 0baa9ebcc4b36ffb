pub mod assembly;
pub mod bundle;
pub mod cxx;
pub mod dependency;
pub mod discovery;
pub mod error;
pub mod inspect;
pub mod os;
pub mod package;
pub mod paths;
pub mod preflight;
pub mod provision;
pub mod sdk;
pub mod steps;
pub mod text;
