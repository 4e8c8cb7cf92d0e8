//! Project instructions: which file holds them, and when they are handed to
//! the prompt builder.

use crate::json;
use crate::json::Json;
use crate::text;
use crate::text::{chars_of, trim};
use vstd::prelude::*;
use vstd::string::*;

verus! {

/// Project folder where none is configured.
pub const DEFAULT_CWD_DIR: &'static str = ".astrid";

/// Project instructions capsule.
#[derive(Debug)]
pub struct AgentsInjector;

pub open spec fn instruction_file(cwd_dir: Option<Seq<char>>, file: Seq<char>) -> Seq<char> {
    "cwd://"@ + (match cwd_dir {
        Some(dir) => dir,
        None => DEFAULT_CWD_DIR@,
    }) + file
}

/// The two places of the instructions, in the order in which they are tried.
pub fn instructions_paths(cwd_dir: Option<&str>) -> (r: (String, String))
    ensures
        r.0@ == instruction_file(text::maybe(cwd_dir), "/AGENTS.md"@),
        r.1@ == instruction_file(text::maybe(cwd_dir), "/ASTRID.md"@),
{
    let dir: &str = match cwd_dir {
        Some(dir) => dir,
        None => DEFAULT_CWD_DIR,
    };
    let mut agents: String = "cwd://".to_owned();
    agents.append(dir);
    agents.append("/AGENTS.md");
    let mut astrid: String = "cwd://".to_owned();
    astrid.append(dir);
    astrid.append("/ASTRID.md");
    (agents, astrid)
}

/// The first file that exists.
pub fn instructions_path(cwd_dir: Option<&str>, agents_exists: bool, astrid_exists: bool) -> (r:
    Option<String>)
    ensures
        match r {
            Some(path) => if agents_exists {
                path@ == instruction_file(text::maybe(cwd_dir), "/AGENTS.md"@)
            } else {
                astrid_exists && path@ == instruction_file(text::maybe(cwd_dir), "/ASTRID.md"@)
            },
            None => !agents_exists && !astrid_exists,
        },
{
    let (agents, astrid) = instructions_paths(cwd_dir);
    if agents_exists {
        Some(agents)
    } else if astrid_exists {
        Some(astrid)
    } else {
        None
    }
}

impl AgentsInjector {
    /// The topic on which a build request is answered.
    pub fn response_topic<'a>(&self, payload: &'a Json) -> (r: Result<&'a str, &'static str>)
        ensures
            match (r, json::text_of(payload@, "response_topic"@)) {
                (Ok(topic), Some(model)) => topic@ == model,
                (Err(error), None) => error@ == "missing response_topic in before_build payload"@,
                _ => false,
            },
    {
        match payload.text_field("response_topic") {
            Some(topic) => Ok(topic),
            None => Err("missing response_topic in before_build payload"),
        }
    }

    /// Whether instructions are worth handing on: blank ones are not.
    pub fn on_before_prompt_build(&self, content: &str) -> (r: bool)
        ensures
            r == (text::trimmed(content@).len() > 0),
    {
        let kept = trim(&chars_of(content));
        chars_of(kept.as_str()).len() > 0
    }
}

} // verus!
