//! Paths of commented source files and of their literate counterparts: the
//! same relative path under each root, with the extension swapped.

use vstd::prelude::*;
use crate::check::PathText;
use crate::text::{chars_of, has_prefix, has_prefix_at};

verus! {

broadcast use vstd::string::group_string_axioms;

/// `p` is `root/rel.ext` for a nonempty `rel` that does not end in `/`.
pub open spec fn is_under(p: Seq<char>, root: Seq<char>, ext: Seq<char>) -> bool {
    let n = p.len();
    let r = root.len();
    let e = ext.len();
    &&& n >= r + e + 3
    &&& p.take(r as int) == root
    &&& p[r as int] == '/'
    &&& p.skip(n - e - 1) == seq!['.'] + ext
    &&& p[n - e - 2] != '/'
}

/// The part of `p` between `root/` and `.ext`.
pub open spec fn rel_part(p: Seq<char>, root: Seq<char>, ext: Seq<char>) -> Seq<char> {
    p.subrange(root.len() + 1int, p.len() - ext.len() - 1)
}

/// The path that `p`, under `root` with extension `ext`, has under `root2`
/// with extension `ext2`.
pub open spec fn moved(
    p: Seq<char>,
    root: Seq<char>,
    ext: Seq<char>,
    root2: Seq<char>,
    ext2: Seq<char>,
) -> Seq<char> {
    root2 + seq!['/'] + rel_part(p, root, ext) + seq!['.'] + ext2
}

/// The mapping between the two trees is a bijection: a path moved to the
/// other tree lies there, and moving it back gives the path it came from.
pub proof fn mapping_is_bijective(
    p: Seq<char>,
    root: Seq<char>,
    ext: Seq<char>,
    root2: Seq<char>,
    ext2: Seq<char>,
)
    requires
        is_under(p, root, ext),
    ensures
        is_under(moved(p, root, ext, root2, ext2), root2, ext2),
        moved(moved(p, root, ext, root2, ext2), root2, ext2, root, ext) == p,
{
    let q = moved(p, root, ext, root2, ext2);
    let rel = rel_part(p, root, ext);
    assert(q.take(root2.len() as int) =~= root2);
    assert(q[root2.len() as int] == '/');
    assert(q.skip(q.len() - ext2.len() - 1) =~= seq!['.'] + ext2);
    assert(q[q.len() - ext2.len() - 2] == rel.last());
    assert(rel_part(q, root2, ext2) =~= rel);
    assert(p =~= root + seq!['/'] + rel + seq!['.'] + ext) by {
        assert(p =~= p.take(root.len() as int) + p.subrange(root.len() as int, root.len() + 1int) + rel
            + p.skip(p.len() - ext.len() - 1));
    }
}

/// Whether `p` is `root/rel.ext` for a nonempty `rel` not ending in `/`.
pub fn check_path(p: &str, ext: &str, root: &str) -> (r: bool)
    ensures
        r == is_under(p@, root@, ext@),
{
    let v = chars_of(p);
    let rv = chars_of(root);
    let ev = chars_of(ext);
    let n = v.len();
    let r = rv.len();
    let e = ev.len();
    if n < 3 || n - 3 < r || n - 3 - r < e {
        return false;
    }
    assert(v@.skip(0) =~= v@);
    if !has_prefix_at(&v, 0, root) || v[r] != '/' || v[n - e - 1] != '.' || v[n - e - 2] == '/' {
        proof {
            if is_under(p@, root@, ext@) {
                assert(v@.skip(n - e - 1)[0] == (seq!['.'] + ext@)[0]);
            }
        }
        return false;
    }
    let ends = has_prefix_at(&v, n - e, ext);
    proof {
        assert(v@.skip(n - e).take(e as int) =~= v@.skip(n - e));
        assert(v@.skip(n - e - 1) =~= seq!['.'] + v@.skip(n - e));
        if v@.skip(n - e - 1) == seq!['.'] + ext@ {
            assert(v@.skip(n - e) =~= (seq!['.'] + ext@).drop_first());
            assert((seq!['.'] + ext@).drop_first() =~= ext@);
            assert(has_prefix(v@.skip(n - e), ext@));
        }
        if ends {
            assert(v@.skip(n - e) =~= ext@);
            assert(v@.skip(n - e - 1) =~= seq!['.'] + ext@);
        }
    }
    ends
}

/// A commented source file.
#[derive(Debug)]
pub struct RsPath(pub String);

/// A literate markdown file.
#[derive(Debug)]
pub struct MdPath(pub String);

impl PathText for RsPath {
    open spec fn path_view(&self) -> Seq<char> {
        self.0@
    }

    fn path_string(&self) -> (r: String) {
        self.0.clone()
    }
}

impl PathText for MdPath {
    open spec fn path_view(&self) -> Seq<char> {
        self.0@
    }

    fn path_string(&self) -> (r: String) {
        self.0.clone()
    }
}

/// Builds `root/rel.ext` from `rel` of another path.
fn build_path(root: &str, rel: &str, ext: &str) -> (r: String)
    ensures
        r@ == root@ + seq!['/'] + rel@ + seq!['.'] + ext@,
{
    let mut s = String::from_str(root);
    s.append("/");
    s.append(rel);
    s.append(".");
    s.append(ext);
    proof {
        reveal_strlit("/");
        reveal_strlit(".");
    }
    assert(s@ =~= root@ + seq!['/'] + rel@ + seq!['.'] + ext@);
    s
}

impl RsPath {
    /// A source path; it must lie under `src_dir` and end in `.rs`.
    pub fn new(p: String, src_dir: &str) -> (r: RsPath)
        requires
            is_under(p@, src_dir@, "rs"@),
        ensures
            r.0@ == p@,
    {
        RsPath(p)
    }

    /// The markdown file under `lit_dir` that belongs to this source file.
    pub fn to_md(&self, src_dir: &str, lit_dir: &str) -> (r: MdPath)
        requires
            is_under(self.0@, src_dir@, "rs"@),
        ensures
            r.0@ == moved(self.0@, src_dir@, "rs"@, lit_dir@, "md"@),
            is_under(r.0@, lit_dir@, "md"@),
    {
        let n = self.0.as_str().unicode_len();
        let r = src_dir.unicode_len();
        proof {
            reveal_strlit("rs");
            mapping_is_bijective(self.0@, src_dir@, "rs"@, lit_dir@, "md"@);
        }
        let rel = self.0.as_str().substring_char(r + 1, n - 3);
        MdPath(build_path(lit_dir, rel, "md"))
    }
}

impl MdPath {
    /// A markdown path; it must lie under `lit_dir` and end in `.md`.
    pub fn new(p: String, lit_dir: &str) -> (r: MdPath)
        requires
            is_under(p@, lit_dir@, "md"@),
        ensures
            r.0@ == p@,
    {
        MdPath(p)
    }

    /// The source file under `src_dir` that belongs to this markdown file.
    pub fn to_rs(&self, lit_dir: &str, src_dir: &str) -> (r: RsPath)
        requires
            is_under(self.0@, lit_dir@, "md"@),
        ensures
            r.0@ == moved(self.0@, lit_dir@, "md"@, src_dir@, "rs"@),
            is_under(r.0@, src_dir@, "rs"@),
    {
        let n = self.0.as_str().unicode_len();
        let r = lit_dir.unicode_len();
        proof {
            reveal_strlit("md");
            mapping_is_bijective(self.0@, lit_dir@, "md"@, src_dir@, "rs"@);
        }
        let rel = self.0.as_str().substring_char(r + 1, n - 3);
        RsPath(build_path(src_dir, rel, "rs"))
    }
}

/// Whether a file of this name takes part: names starting with `.` are
/// skipped.
pub fn keep_file_name(name: &str) -> (r: bool)
    ensures
        r == !(name@.len() > 0 && name@[0] == '.'),
{
    let v = chars_of(name);
    !(v.len() > 0 && v[0] == '.')
}

} // verus!
