//! The logic of a portfolio site, with its contracts.
//!
//! The heart of the site is an interactive graph of works. A dataset of
//! repositories, languages and technology stacks ([`dataset`]) is indexed
//! into adjacency sets ([`adjacency`]); a rendered graphic is bound to the
//! dataset by the identifiers of its elements ([`ident`], [`graphic`]); a
//! click selects a node ([`selection`]), the selection decides the colour
//! of every bound element ([`highlight`]) and the content of the detail
//! panel ([`detail`]). [`works`] holds the state of that view and its
//! transitions.
//!
//! The dataset and the description of its graph are produced ahead of
//! time: [`builder`] turns what the source of repositories reports, and
//! the relations that are kept by hand ([`relations`]), into a dataset
//! with every name resolved to an index in the order of names
//! ([`names`], [`repository_list`]), and [`graph`] describes its graph.
//!
//! [`passphrase`] and [`cipher`] reveal the protected profile, and
//! [`route`] names the pages.

pub mod sequences;
pub mod text;
pub mod ident;
pub mod dataset;
pub mod adjacency;
pub mod selection;
pub mod graphic;
pub mod highlight;
pub mod detail;
pub mod works;
pub mod repository_list;
pub mod names;
pub mod relations;
pub mod graph;
pub mod builder;
pub mod cipher;
pub mod passphrase;
pub mod route;
