//! Adaptive truncation of text lines to a fixed display budget.
//!
//! A collection of lines is scored by a heuristic strategy (each line gets a
//! priority; lower means more important) and then pruned: the least important
//! lines are dropped and every contiguous run of dropped lines is collapsed
//! into a single omission marker, until the visible line count fits the
//! target or no further reduction is possible.

pub mod lines;
pub mod prioritizer;
