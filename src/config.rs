//! Settings of a run: where the two trees live, and whether to tell cargo
//! which files the build depends on.

use vstd::prelude::*;

verus! {

/// The directory that holds the literate `.md` files unless configured.
pub fn get_lit_dir() -> (r: String)
    ensures
        r@ == "src"@,
{
    String::from_str("src")
}

/// The directory that holds the source `.rs` files unless configured.
pub fn get_src_dir() -> (r: String)
    ensures
        r@ == "src"@,
{
    String::from_str("src")
}

/// Where the two trees live, and whether to print `cargo:rerun-if-changed`
/// lines for the inputs.
pub struct Config {
    pub src_dir: String,
    pub lit_dir: String,
    pub rerun_if: bool,
}

impl Config {
    /// Both trees under `src`, no rerun lines.
    pub fn new() -> (r: Config)
        ensures
            r.src_dir@ == "src"@,
            r.lit_dir@ == "src"@,
            !r.rerun_if,
    {
        Config { src_dir: get_src_dir(), lit_dir: get_lit_dir(), rerun_if: false }
    }

    pub fn set_src_dir(&mut self, new_src_dir: String) -> (r: &mut Config)
        ensures
            r.src_dir == new_src_dir,
            r.lit_dir == old(self).lit_dir,
            r.rerun_if == old(self).rerun_if,
            *final(self) == *final(r),
    {
        self.src_dir = new_src_dir;
        self
    }

    pub fn set_lit_dir(&mut self, new_lit_dir: String) -> (r: &mut Config)
        ensures
            r.lit_dir == new_lit_dir,
            r.src_dir == old(self).src_dir,
            r.rerun_if == old(self).rerun_if,
            *final(self) == *final(r),
    {
        self.lit_dir = new_lit_dir;
        self
    }

    pub fn emit_rerun_if(&mut self) -> (r: &mut Config)
        ensures
            r.rerun_if,
            r.src_dir == old(self).src_dir,
            r.lit_dir == old(self).lit_dir,
            *final(self) == *final(r),
    {
        self.rerun_if = true;
        self
    }
}

} // verus!
