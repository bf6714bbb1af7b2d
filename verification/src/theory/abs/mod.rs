pub mod data;
pub mod def;
pub mod unify;
pub mod rename;
