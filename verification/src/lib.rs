//! Verified core of the know_rust orientation pipeline.

pub mod adopt;
pub mod adopt_roots;
pub mod assoc;
pub mod ballots;
pub mod carry;
pub mod cluster;
pub mod config;
pub mod crate_map;
pub mod decl_api;
pub mod demand;
pub mod demand_tiers;
pub mod emit_text;
pub mod fingerprint;
pub mod foreign;
pub mod grouping;
pub mod histogram;
pub mod instances;
pub mod items_index;
pub mod lexical;
pub mod metrics;
pub mod modules;
pub mod numfmt;
pub mod orientation;
pub mod orientation_doc;
pub mod overlap;
pub mod package_pick;
pub mod pattern;
pub mod pattern_metrics;
pub mod pattern_order;
pub mod pick_caps;
pub mod picks;
pub mod reference;
pub mod resolution;
pub mod routing;
pub mod seams;
pub mod sloc;
pub mod sorting;
pub mod stable_order;
pub mod synthesis;
pub mod text;
pub mod use_class;
pub mod usage;
pub mod use_tree;
pub mod vocabulary;
pub mod weights;
