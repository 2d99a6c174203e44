//! The task configuration (`task.toml`) sections that the library works with. The
//! generation section holds floating-point thresholds and stays with the program.
use vstd::prelude::*;

verus! {

/// The `[task]` section: a task name, the source and result directories, and
/// whether results are tagged.
#[derive(Debug)]
pub struct Task {
    pub name: String,
    pub foreground: String,
    pub background: String,
    pub result: String,
    pub tag: bool,
}

/// The `[preprocess]` section: the image format that sources are converted to, and
/// whether sources are cloned instead of converted in place.
#[derive(Debug)]
pub struct Preprocess {
    pub format_target: String,
    pub clone: bool,
}

/// The `[statistic]` section: directories of the masks to compare and the grouping
/// of the report.
#[derive(Debug)]
pub struct Statistic {
    pub source: String,
    pub target: String,
    pub base: String,
}

/// The `[tag]` section, which has no settings yet.
#[derive(Debug, Clone, Copy, PartialEq, Eq, Structural)]
pub struct Tag {}

} // verus!
