//! Ownership and resource-lifetime analysis for explicit TypeScript and
//! JavaScript ownership contracts, with a self-contained HTML report renderer.

pub mod analysis;
pub mod blank_lines;
pub mod borrows;
pub mod cli;
pub mod comments;
pub mod html;
pub mod laws;
pub mod report;
pub mod scan;
pub mod table;
pub mod text;

pub use report::{AnalysisReport, Diagnostic};
pub use analysis::{analyze, analyze_report};

