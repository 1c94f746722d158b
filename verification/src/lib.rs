//! Fleet status for git working copies: what is dirty, what is unpushed, what
//! needs a release.

pub mod cache;
pub mod changes;
pub mod cli;
pub mod column;
pub mod commands;
pub mod commits;
pub mod config;
pub mod detail;
pub mod discover;
pub mod duration;
pub mod filter;
pub mod fmt;
pub mod gh;
pub mod git;
pub mod gitconfig;
pub mod gitea;
pub mod gitlab;
pub mod glob;
pub mod hold;
pub mod lists;
pub mod model;
pub mod names;
pub mod number;
pub mod order;
pub mod org;
pub mod paging;
pub mod patch;
pub mod pathname;
pub mod paths;
pub mod porcelain;
pub mod probe;
pub mod provider;
pub mod release;
pub mod report;
pub mod sync;
pub mod table;
pub mod text;
pub mod tool;
pub mod view;
