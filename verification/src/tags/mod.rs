//! Custom Liquid tags: their argument handling and the HTML they write.
pub mod avatar;
pub mod blocks;
