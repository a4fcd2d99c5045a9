pub mod blocks;
pub mod units;
pub mod svelte;
pub mod vue;
pub mod walk;
pub mod laws;
