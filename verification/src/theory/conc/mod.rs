pub mod elab;
