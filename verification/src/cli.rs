//! The command surface as plain data.  Argument parsing belongs to the
//! surrounding program; it hands over a [`Command`], and the pure
//! construction of the build configuration from it is verified here.

use vstd::prelude::*;

use crate::config::JenPackConfig;

verus! {

/// A parsed invocation: the command and the global verbosity flag.
#[derive(Debug)]
pub struct Cli {
    pub command: Command,
    pub verbose: bool,
}

/// The two commands: build once, or watch and rebuild on changes.
#[derive(Debug)]
pub enum Command {
    Build {
        entry: Option<Vec<String>>,
        outdir: Option<String>,
        minify: bool,
        sourcemap: bool,
    },
    Watch {
        entry: Option<Vec<String>>,
        outdir: Option<String>,
        minify: bool,
        sourcemap: bool,
    },
}

impl Command {
    /// The build configuration a command denotes: absent entries fall
    /// back to `src/index.ts`, an absent output directory to `dist`; the
    /// watch flag records which command it was.
    pub fn into_config(self, verbose: bool) -> (r: JenPackConfig)
        ensures
            ({
                let (entry, outdir, minify, sourcemap, watching) = match self {
                    Command::Build { entry, outdir, minify, sourcemap } => (
                        entry,
                        outdir,
                        minify,
                        sourcemap,
                        false,
                    ),
                    Command::Watch { entry, outdir, minify, sourcemap } => (
                        entry,
                        outdir,
                        minify,
                        sourcemap,
                        true,
                    ),
                };
                (match entry {
                    Option::Some(e) => r.entry == e,
                    Option::None => r.entry@.len() == 1 && r.entry@[0]@ == "src/index.ts"@,
                }) && (match outdir {
                    Option::Some(o) => r.outdir == o,
                    Option::None => r.outdir@ == "dist"@,
                }) && r.minify == minify && r.sourcemap == sourcemap && r.watch == watching
                    && r.verbose == verbose && r.externals@.len() == 0 && r.aliases@.len() == 0
            }),
    {
        let (entry, outdir, minify, sourcemap, watching) = match self {
            Command::Build { entry, outdir, minify, sourcemap } => (
                entry,
                outdir,
                minify,
                sourcemap,
                false,
            ),
            Command::Watch { entry, outdir, minify, sourcemap } => (
                entry,
                outdir,
                minify,
                sourcemap,
                true,
            ),
        };
        let entry = match entry {
            Option::Some(e) => e,
            Option::None => {
                let mut d: Vec<String> = Vec::new();
                d.push(String::from_str("src/index.ts"));
                d
            },
        };
        let outdir = match outdir {
            Option::Some(o) => o,
            Option::None => String::from_str("dist"),
        };
        JenPackConfig {
            entry,
            outdir,
            minify,
            sourcemap,
            watch: watching,
            verbose,
            externals: Vec::new(),
            aliases: Vec::new(),
        }
    }
}

} // verus!
