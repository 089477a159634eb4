//! Tools around the paper index: query shaping, URL building, and the
//! text formatting applied to retrieved papers.

pub mod arxiv;
