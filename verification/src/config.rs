//! Configuration: the bare record a configuration file fills, and the
//! merge of command-line arguments over it.
use vstd::prelude::*;

use crate::cli::Args;
use crate::engine::EngineOptions;

verus! {

/// The options a configuration file may define; each is optional.
#[derive(Debug, Default)]
pub struct Config {
    pub exclude_dirs: Option<Vec<String>>,
    pub extra_indexes: Option<Vec<String>>,
    pub preferred_index: Option<String>,
    pub remap: Option<Vec<(String, String)>>,
}

/// Merges arguments over configuration: for each option, a non-empty
/// argument wins, an absent one falls back to the configuration, and
/// an absent configuration entry leaves the default.
pub fn merge_args_and_config(args: Args, config: Config) -> (r: EngineOptions)
    ensures
        r.exclude_dirs@ == if args.exclude_dirs@.len() > 0 {
            args.exclude_dirs@
        } else {
            match config.exclude_dirs {
                Some(v) => v@,
                None => Seq::<String>::empty(),
            }
        },
        r.extra_indexes@ == if args.extra_indexes@.len() > 0 {
            args.extra_indexes@
        } else {
            match config.extra_indexes {
                Some(v) => v@,
                None => Seq::<String>::empty(),
            }
        },
        r.preferred_index == if args.preferred_index is Some {
            args.preferred_index
        } else {
            config.preferred_index
        },
        r.extras_to_remap@ == if args.remap@.len() > 0 {
            args.remap@
        } else {
            match config.remap {
                Some(v) => v@,
                None => Seq::<(String, String)>::empty(),
            }
        },
{
    let exclude_dirs = if args.exclude_dirs.len() > 0 {
        args.exclude_dirs
    } else {
        match config.exclude_dirs {
            Some(v) => v,
            None => Vec::new(),
        }
    };
    let extra_indexes = if args.extra_indexes.len() > 0 {
        args.extra_indexes
    } else {
        match config.extra_indexes {
            Some(v) => v,
            None => Vec::new(),
        }
    };
    let preferred_index = match args.preferred_index {
        Some(p) => Some(p),
        None => config.preferred_index,
    };
    let extras_to_remap = if args.remap.len() > 0 {
        args.remap
    } else {
        match config.remap {
            Some(v) => v,
            None => Vec::new(),
        }
    };
    EngineOptions { exclude_dirs, extra_indexes, preferred_index, extras_to_remap }
}

} // verus!
