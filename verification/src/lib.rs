//! Verified cores of a collection of daily puzzle solvers.  Each `day`
//! module holds the logic of one puzzle with its contracts; `parse` holds
//! the shared decimal and byte-scanning building blocks, and `frontier`
//! the trusted interface to the priority queue behind the day 19 search.

pub mod day02a;
pub mod day02b;
pub mod day03;
pub mod day04;
pub mod day05;
pub mod day07;
pub mod day08;
pub mod day09;
pub mod day11;
pub mod day13;
pub mod day14;
pub mod day15;
pub mod day16;
pub mod day17;
pub mod day18;
pub mod day19;
pub mod day20a;
pub mod day20b;
pub mod day21;
pub mod day22;
pub mod frontier;
pub mod parse;
