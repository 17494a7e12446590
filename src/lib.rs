//! Resolution of dependency references, contract locators and fork storage
//! cache locations for a smart-contract build tool.

pub mod dependency;
pub mod error;
pub mod fork;
pub mod locator;
pub mod paths;
pub mod text;
