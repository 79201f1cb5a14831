//! Scanning a directory tree and acting on its entries: the decisions, the
//! plans and the report, kept apart from the file system that carries them
//! out.
//!
//! A scan runs in stages. The caller walks the tree and hands over plain
//! [`entry::Entry`] values; [`walk::Walk`] keeps the worklist for a caller
//! that lists one directory at a time. A [`filter::FilterConfig`] selects
//! the entries to act on. The actions are planned here and performed by the
//! caller: [`removal`] measures and deletes subtrees, [`rename`] plans
//! renames, ranking files by [`order`] where it numbers them, and refuses
//! batches that collide, [`staging`] orders the steps
//! by which files are replaced without risk to their content, and
//! [`search`] finds the lines of a file that a pattern matches. Every
//! outcome ends in a [`report::ScanReport`], whose totals are exact however
//! the work was split; [`aggregator::Aggregator`] guards the life of a run
//! from its start to the final report.
//!
//! Patterns are compiled and matched by the `regex` crate, behind
//! [`pattern::Pattern`].

pub mod aggregator;
pub mod entry;
pub mod filter;
pub mod lines;
pub mod order;
pub mod outcome;
pub mod paint;
pub mod pattern;
pub mod removal;
pub mod rename;
pub mod report;
pub mod search;
pub mod staging;
pub mod text;
pub mod walk;
