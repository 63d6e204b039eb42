//! Text-output and self-test infrastructure for a freestanding kernel image:
//! a verified driver that renders bytes to a fixed-size character grid with
//! line wrapping, scrolling and scoped color overrides, a model of the
//! diagnostic serial channel, and the test-harness protocol that reports
//! pass/fail to the hosting emulator.

pub mod serial;
pub mod testing;
pub mod vga;
