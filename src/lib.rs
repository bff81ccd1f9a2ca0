//! Keeps commented source files and literate markdown files in sync.
//!
//! A commented source file holds prose as `//@` comment lines between lines
//! of code; its literate counterpart holds the prose as markdown and the code
//! in fenced blocks. Each direction is a line-by-line converter, and a
//! reconciliation of modification times decides which files to regenerate.

pub mod calendar;
pub mod check;
pub mod config;
pub mod context;
pub mod errors;
pub mod md2rs;
pub mod paths;
pub mod permalink;
pub mod round_trip;
pub mod rs2md;
pub mod text;
pub mod timestamp;

pub use config::{get_lit_dir, get_src_dir, Config};
pub use errors::{Error, Warning};

use vstd::prelude::*;
use crate::errors::warning_view;
use crate::md2rs::{src_init, src_run};
use crate::rs2md::{lit_finish, lit_init, lit_run};
use crate::text::{lines_of, lines_view, text_lines};

verus! {

/// The file whose modification time records the last synchronized run.
pub const STAMP: &'static str = "tango.stamp";

/// The markdown that the commented source `src` converts to.
pub open spec fn literate_of(src: Seq<char>) -> Seq<char> {
    let (m, o) = lit_run(lit_init(), text_lines(src));
    o + lit_finish(m)
}

/// The commented source that the markdown `md` converts to.
pub open spec fn source_of(md: Seq<char>) -> Seq<char> {
    src_run(src_init(), text_lines(md)).1
}

/// The links of `md` whose encoded code does not match the block before
/// them, as (actual, expected).
pub open spec fn link_warnings(md: Seq<char>) -> Seq<(Seq<char>, Seq<char>)> {
    src_run(src_init(), text_lines(md)).0.warnings
}

/// Converts the commented source `source` to markdown, appended to `target`.
pub fn rs2md(source: &str, target: &mut String)
    ensures
        final(target)@ == old(target)@ + literate_of(source@),
{
    let lines = lines_of(source);
    let mut converter = rs2md::Converter::new();
    converter.convert(&lines, target);
}

/// Converts the markdown `source` to commented source, appended to `target`.
/// The output is complete even when links do not match their blocks; those
/// are then reported as warnings.
pub fn md2rs(source: &str, target: &mut String) -> (r: Result<(), Error>)
    ensures
        final(target)@ == old(target)@ + source_of(source@),
        link_warnings(source@).len() == 0 ==> r is Ok,
        link_warnings(source@).len() > 0 ==> (r matches Err(Error::Warnings(ws)) && ws@.map_values(
            |x: Warning| warning_view(x),
        ) == link_warnings(source@)),
{
    let lines = lines_of(source);
    let converter = md2rs::Converter::new();
    match converter.convert(&lines, target) {
        Ok(()) => Ok(()),
        Err(md2rs::Exception::Warnings(ws)) => Err(Error::Warnings(ws)),
        Err(md2rs::Exception::IoError(e)) => Err(Error::IoError(e)),
    }
}

} // verus!
