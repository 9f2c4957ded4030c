pub mod text;
pub mod git;
pub mod matcher;
pub mod scan;
pub mod diff;
pub mod pipeline;
