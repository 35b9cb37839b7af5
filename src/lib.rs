pub mod cpu;
pub mod display;
pub mod instruction;
pub mod laws;
pub mod rom_loader;
pub mod save;
pub mod timer;
