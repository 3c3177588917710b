pub mod alpm;
pub mod bash;
pub mod build;
pub mod clear;
pub mod cli;
pub mod cmds;
pub mod command;
pub mod config;
pub mod fetch;
pub mod gen_config;
pub mod git;
pub mod globals;
pub mod makepkg;
pub mod pacman;
pub mod search;
pub mod sync;
pub mod text;
pub mod threadpool;
pub mod update;
pub mod upgrade;
pub mod upgrade_old;
pub mod utils;
pub mod ver;
