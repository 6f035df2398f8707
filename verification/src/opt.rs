//! The invocation model: which command runs, on which file, and in which
//! output format. Argument parsing itself lives with the caller; these are
//! the plain values it produces.
use vstd::prelude::*;

verus! {

/// One invocation of the tool.
#[derive(Debug)]
pub struct App {
    pub command: Command,
}

/// The two things the tool can do.
#[derive(Debug)]
pub enum Command {
    /// List the project names and ids present in an export file.
    Project { file: String },
    /// Analyze one project of an export file.
    Analyze { file: String, project: String, format: Format },
}

/// The output encodings a report can be rendered to.
#[derive(Clone, Copy, PartialEq, Eq, Structural, Debug)]
pub enum Format {
    Markdown,
    JSON,
}

/// String equality through the character sequences.
fn str_eq(a: &str, b: &str) -> (r: bool)
    ensures
        r == (a@ == b@),
{
    let sa: String = a.to_owned();
    let sb: String = b.to_owned();
    sa == sb
}

impl Format {
    /// The canonical name of the format.
    pub fn as_str(&self) -> (r: &'static str)
        ensures
            *self is Markdown ==> r@ == "markdown"@,
            *self is JSON ==> r@ == "json"@,
    {
        match self {
            Format::Markdown => "markdown",
            Format::JSON => "json",
        }
    }

    /// Parse a format name: `markdown` (or its short form `md`) and `json`
    /// are the accepted names; anything else is rejected.
    pub fn from_str(s: &str) -> (r: Result<Format, &'static str>)
        ensures
            match r {
                Result::Ok(f) => (s@ == "markdown"@ || s@ == "md"@ || s@ == "json"@) && (f
                    == Format::JSON <==> s@ == "json"@),
                Result::Err(e) => s@ != "markdown"@ && s@ != "md"@ && s@ != "json"@ && e@
                    == "invalid format"@,
            },
    {
        proof {
            reveal_strlit("markdown");
            reveal_strlit("md");
            reveal_strlit("json");
            assert("markdown"@.len() == 8);
            assert("md"@.len() == 2);
            assert("json"@.len() == 4);
            assert("markdown"@ != "json"@);
            assert("md"@ != "json"@);
        }
        if str_eq(s, "markdown") || str_eq(s, "md") {
            Result::Ok(Format::Markdown)
        } else if str_eq(s, "json") {
            Result::Ok(Format::JSON)
        } else {
            Result::Err("invalid format")
        }
    }
}

} // verus!
