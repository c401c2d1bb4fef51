//! The run configuration: the generate command's switches, the output
//! format they select, and the resolution of the target directory
//! beneath the project root.

use vstd::prelude::*;
use vstd::string::*;
use crate::error::JockeyError;

verus! {

/// The four output formats.
#[derive(Clone, Copy, Debug, PartialEq, Eq, Structural)]
pub enum OutputFormat {
    Md,
    Txt,
    Json,
    Yaml,
}

/// The commands the tool accepts.
pub enum Commands {
    Generate {
        path: Option<String>,
        md: bool,
        json: bool,
        txt: bool,
        yaml: bool,
        exclude: Option<String>,
        parallel: bool,
        verbose: bool,
    },
}

/// A parsed invocation.
pub struct Config {
    pub command: Commands,
}

impl Config {
    /// The format the switches select: json, txt and yaml in that order
    /// of precedence, markdown otherwise.
    pub open spec fn spec_format(&self) -> OutputFormat {
        match self.command {
            Commands::Generate { json, txt, yaml, .. } => if json {
                OutputFormat::Json
            } else if txt {
                OutputFormat::Txt
            } else if yaml {
                OutputFormat::Yaml
            } else {
                OutputFormat::Md
            },
        }
    }

    /// The selected output format.
    pub fn format(&self) -> (r: OutputFormat)
        ensures
            r == self.spec_format(),
    {
        match &self.command {
            Commands::Generate { json, txt, yaml, .. } => {
                if *json {
                    OutputFormat::Json
                } else if *txt {
                    OutputFormat::Txt
                } else if *yaml {
                    OutputFormat::Yaml
                } else {
                    OutputFormat::Md
                }
            },
        }
    }

    /// Whether parallel materialization was requested.
    pub fn is_parallel(&self) -> (r: bool)
        ensures
            r == match self.command {
                Commands::Generate { parallel, .. } => parallel,
            },
    {
        match &self.command {
            Commands::Generate { parallel, .. } => *parallel,
        }
    }

    /// The user's comma-separated exclude patterns, if any were given.
    pub fn exclude_patterns(&self) -> (r: Option<&String>)
        ensures
            match self.command {
                Commands::Generate { ref exclude, .. } => match (r, exclude) {
                    (Option::Some(a), Option::Some(b)) => a@ == b@,
                    (Option::None, Option::None) => true,
                    _ => false,
                },
            },
    {
        match &self.command {
            Commands::Generate { exclude, .. } => exclude.as_ref(),
        }
    }

    /// Resolves the target directory beneath `root`. Without a requested
    /// path the root itself is the target. For a requested path the
    /// caller resolves the join (beneath the root unless absolute) on
    /// the filesystem and passes the canonical result in — `None` when
    /// it does not resolve to a directory. The canonical path is
    /// rejected when it escapes the project root, component-wise, so a
    /// path that climbs out through `..` or a sibling whose name merely
    /// extends the root's is a configuration error.
    pub fn get_target_dir(&self, root: &String, canonical: Option<&String>) -> (r: Result<
        String,
        JockeyError,
    >)
        ensures
            match self.command {
                Commands::Generate { ref path, .. } => match path {
                    Option::None => r matches Ok(t) && t@ == root@,
                    Option::Some(_) => match canonical {
                        Option::None => r matches Err(e) && e is Config,
                        Option::Some(c) => {
                            if c@ == root@ || (root@.len() < c@.len() && c@.subrange(
                                0,
                                root@.len() as int,
                            ) == root@ && c@[root@.len() as int] == '/') {
                                r matches Ok(t) && t@ == c@
                            } else {
                                r matches Err(e) && e is Config
                            }
                        },
                    },
                },
            },
    {
        match &self.command {
            Commands::Generate { path, .. } => {
                match path {
                    Option::None => Ok(root.clone()),
                    Option::Some(p) => {
                        match canonical {
                            Option::None => {
                                let mut msg = crate::text::str_to_string("Path '");
                                msg.append(p.as_str());
                                msg.append("' does not resolve to a directory");
                                Err(JockeyError::Config(msg))
                            },
                            Option::Some(c) => {
                                let rootlen = root.as_str().unicode_len();
                                let clen = c.as_str().unicode_len();
                                let contained = crate::text::str_eq(c.as_str(), root.as_str())
                                    || (crate::text::str_starts_with(c.as_str(), root.as_str())
                                    && rootlen < clen && c.as_str().get_char(rootlen) == '/');
                                if !contained {
                                    let mut msg = crate::text::str_to_string("Path '");
                                    msg.append(p.as_str());
                                    msg.append("' is outside the project root");
                                    return Err(JockeyError::Config(msg));
                                }
                                Ok((*c).clone())
                            },
                        }
                    },
                }
            },
        }
    }
}

} // verus!
