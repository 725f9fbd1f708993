//! The verified core of a crawler that looks for `.onion` addresses in web
//! archives.
//!
//! - Favicons of a page: [`favicon_search`], with [`opening`], [`tag`],
//!   [`url`] and [`base64`] below it.
//! - A run of the crawler: [`paths`] and [`plan`] choose the archives,
//!   [`strategy`], [`jobs`] and [`memory`] decide how they are processed, and
//!   [`results`] and [`progress`] collect what was found.
//! - Text and bytes: [`ascii`], [`number`], [`search`] and [`text`].
//!
//! What holds of all inputs is stated in the modules named `.._laws`. Those on
//! pages go from bytes to results: [`close_laws`], [`attribute_laws`] and
//! [`tag_laws`] on single tags, [`scan_laws`] on the tags of a page,
//! [`url_laws`], [`base64_laws`] and [`value_laws`] on what attribute values
//! stand for, and [`page_laws`], [`declared_laws`] and [`favicon_laws`] on whole
//! pages. [`plan_laws`], [`memory_laws`], [`results_laws`] and [`text_laws`]
//! speak of the modules that they are named after.
//!
//! Reading files, downloading and printing are left to the program around it.

pub mod ascii;
pub mod attribute_laws;
pub mod base64;
pub mod base64_laws;
pub mod close_laws;
pub mod declared_laws;
pub mod favicon_laws;
pub mod favicon_search;
pub mod jobs;
pub mod memory;
pub mod memory_laws;
pub mod number;
pub mod opening;
pub mod page_laws;
pub mod paths;
pub mod plan;
pub mod plan_laws;
pub mod progress;
pub mod results;
pub mod results_laws;
pub mod scan_laws;
pub mod search;
pub mod strategy;
pub mod tag;
pub mod tag_laws;
pub mod text;
pub mod text_laws;
pub mod url;
pub mod url_laws;
pub mod value_laws;
