//! A terminal pager for tabular records: terminal geometry, page
//! boundaries and the continue/quit session, with verified contracts.
pub mod dataframe;
pub mod pager;
pub mod termsize;
