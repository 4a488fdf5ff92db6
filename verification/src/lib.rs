//! The logic of a Neovim plugin that shows difftastic diffs side by side.
//!
//! Nothing here runs a command or reads a file: what is to be run is given out as command
//! lines, and what came of it is handed back.
//!
//! - text and paths: `text`, `number`, `path`, `path_order`, `table`, `list`
//! - what is run: `command`, `vcs`, `range`, `plan`
//! - what is read: `stats`, `renames`, `display_path`, `content`, `language`, `untracked`
//! - comparing the files of a range one by one: `task`, `parallel`
//! - what is shown: `difft`, `display`, `integrity`
//! - holding two runs against each other: `compare`, `report`, `benchmark`, `rounds`,
//!   `timing`, `json`, `json_text`

pub mod benchmark;
pub mod command;
pub mod compare;
pub mod content;
pub mod difft;
pub mod display;
pub mod display_path;
pub mod integrity;
pub mod json;
pub mod json_text;
pub mod language;
pub mod list;
pub mod number;
pub mod parallel;
pub mod path;
pub mod path_order;
pub mod plan;
pub mod range;
pub mod renames;
pub mod report;
pub mod rounds;
pub mod stats;
pub mod table;
pub mod task;
pub mod text;
pub mod timing;
pub mod untracked;
pub mod vcs;
