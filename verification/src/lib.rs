//! CPU slimes: system information "slimes" and a prime-counting CPU benchmark.
//!
//! The library holds the computing part of the tool: the prime counting that the
//! benchmark times, the score formula, the text processing that turns the raw
//! readings of the machine into the lines that are shown and reported, and the
//! small rules of the report and of the leaderboard server.  Reading the machine,
//! timing threads, printing and talking to the network are left to the program
//! around it.
use vstd::prelude::*;

pub mod benchmark;
pub mod devices;
pub mod report;
pub mod slimes;
pub mod text;

verus! {

/// The banner printed at the top of the program's output.
pub open spec fn application_header_text() -> &'static str {
    "
      .---.
    .'     '.     < CPU SLIME >
   /   ^ ^   \\
  :     v     :   (Benchmarking)
  |           |
   \\         /
    '._____.'
    "
}

/// The banner printed at the top of the program's output.
pub fn application_header() -> (header: &'static str)
    ensures
        header@ == application_header_text()@,
{
    "
      .---.
    .'     '.     < CPU SLIME >
   /   ^ ^   \\
  :     v     :   (Benchmarking)
  |           |
   \\         /
    '._____.'
    "
}

} // verus!
