//! Converting markdown to source and back, and source to markdown and back:
//! for documents of prose lines, blank lines and plain fenced code blocks,
//! the text comes back unchanged.

use vstd::prelude::*;
use crate::md2rs::{
    blank_lines, blank_prefix, fence_close, fence_open, lemma_blank_run, link_marker,
    link_name_bounds, src_init, src_run, src_step, SrcModel, State as SrcState,
};
use crate::rs2md::{lit_finish, lit_init, lit_run, lit_step, LitModel, State as LitState};
use crate::permalink::{play_suffix, play_url, url_code};
use crate::text::{
    all_ws, has_prefix, is_ws, leading_ws, lemma_find_first_is, lemma_leading_ws,
    lemma_leading_ws_is, lemma_trailing_ws_is, newlines, occurs_at, split_scan, text_lines, trim,
    trim_start,
};
use crate::{literate_of, source_of};

verus! {

/// Lines, each followed by a newline.
pub open spec fn joined(ls: Seq<Seq<char>>) -> Seq<char>
    decreases ls.len(),
{
    if ls.len() == 0 {
        Seq::empty()
    } else {
        joined(ls.drop_last()) + ls.last() + seq!['\n']
    }
}

/// A line that splitting text gives back as it is: no newline in it and no
/// carriage return at its end.
pub open spec fn line_ok(l: Seq<char>) -> bool {
    &&& forall|i: int| 0 <= i < l.len() ==> l[i] != '\n'
    &&& !(l.len() > 0 && l.last() == '\r')
}

/// A line of prose that neither converter reads as anything else: not
/// blank, not a fence, not a playground link.
pub open spec fn plain_prose(l: Seq<char>) -> bool {
    &&& line_ok(l)
    &&& l.len() > 0
    &&& !all_ws(l)
    &&& !has_prefix(l, fence_open())
    &&& link_name_bounds(l) is None
}

/// A line of code that both converters carry over unchanged: not blank,
/// not read as a `//@` line, not a closing fence, not a playground link.
pub open spec fn code_ok(l: Seq<char>) -> bool {
    &&& line_ok(l)
    &&& !all_ws(l)
    &&& !has_prefix(trim_start(l), "//@"@)
    &&& l != fence_close()
    &&& link_name_bounds(l) is None
}

/// The text that both converters gather from the lines of a code block: a
/// newline before each line.
pub open spec fn code_text(body: Seq<Seq<char>>) -> Seq<char>
    decreases body.len(),
{
    if body.len() == 0 {
        Seq::empty()
    } else {
        code_text(body.drop_last()) + seq!['\n'] + body.last()
    }
}

proof fn lemma_code_text_append(a: Seq<Seq<char>>, b: Seq<Seq<char>>)
    ensures
        code_text(a + b) == code_text(a) + code_text(b),
    decreases b.len(),
{
    if b.len() == 0 {
        assert(a + b =~= a);
        assert(code_text(a) + code_text(b) =~= code_text(a));
    } else {
        assert((a + b).drop_last() =~= a + b.drop_last());
        lemma_code_text_append(a, b.drop_last());
        assert(code_text(a + b) =~= code_text(a) + code_text(b));
    }
}

/// The lines of a code block: code lines and empty lines, the first and the
/// last not empty.
pub open spec fn body_ok(body: Seq<Seq<char>>) -> bool {
    &&& body.len() > 0
    &&& body[0].len() > 0
    &&& body.last().len() > 0
    &&& forall|j: int| 0 <= j < body.len() ==> (#[trigger] body[j]).len() == 0 || code_ok(body[j])
}

/// A part of a document: `(is_code, blanks, lines, name)`, a run of
/// `blanks` blank lines and then either one prose line, or a code block
/// that a playground link may follow under the name `name`.
pub type Part = (bool, nat, Seq<Seq<char>>, Option<Seq<char>>);

pub open spec fn unit_ok(u: Part) -> bool {
    if u.0 {
        &&& body_ok(u.2)
        &&& u.3 matches Some(n) ==> name_ok(n) && line_ok(link_line(n, u.2))
    } else {
        u.2.len() == 1 && plain_prose(u.2[0]) && u.3 is None
    }
}

/// A code block that no link closes.
pub open spec fn open_block(u: Part) -> bool {
    u.0 && u.3 is None
}

/// Parts that each hold, where a code block does not directly follow one
/// that no link closed.
pub open spec fn doc_ok(units: Seq<Part>) -> bool {
    &&& forall|i: int| 0 <= i < units.len() ==> unit_ok(#[trigger] units[i])
    &&& forall|i: int| 0 < i < units.len() ==> (#[trigger] units[i]).0 ==> !open_block(units[i - 1])
}

/// Whether the markdown converter is back at the start of a block after
/// `units`: at the beginning, or after a code block.
pub open spec fn ends_blank(units: Seq<Part>) -> bool {
    units.len() == 0 || units.last().0
}

/// The markdown lines of a part after its blank lines.
pub open spec fn md_piece(u: Part) -> Seq<Seq<char>> {
    if u.0 {
        seq![fence_open()] + u.2 + seq![fence_close()] + match u.3 {
            Some(n) => seq![link_line(n, u.2)],
            None => Seq::empty(),
        }
    } else {
        u.2
    }
}

/// The markdown lines of a document.
pub open spec fn md_units(units: Seq<Part>) -> Seq<Seq<char>>
    decreases units.len(),
{
    if units.len() == 0 {
        Seq::empty()
    } else {
        md_units(units.drop_last()) + blank_lines(units.last().1) + md_piece(units.last())
    }
}

/// The source lines of a code block and of its name, if any.
pub open spec fn src_block(u: Part) -> Seq<Seq<char>> {
    blank_lines(u.1) + u.2 + match u.3 {
        Some(n) => seq!["//@@@ "@ + n],
        None => Seq::empty(),
    }
}

/// The source lines of a document: blank lines after a code block or at the
/// start stay empty, inside prose they become bare `//@` lines.
pub open spec fn src_units(units: Seq<Part>) -> Seq<Seq<char>>
    decreases units.len(),
{
    if units.len() == 0 {
        Seq::empty()
    } else {
        let u = units.last();
        src_units(units.drop_last()) + (if u.0 {
            src_block(u)
        } else {
            unit_run(ends_blank(units.drop_last()), u.1) + seq!["//@ "@ + u.2[0]]
        })
    }
}

/// The source run that the blank lines before a prose line become.
pub open spec fn unit_run(first: bool, b: nat) -> Seq<Seq<char>> {
    if first {
        blank_lines(b)
    } else {
        marker_lines(b)
    }
}

/// `n` bare `//@` lines.
pub open spec fn marker_lines(n: nat) -> Seq<Seq<char>> {
    Seq::new(n, |i: int| "//@"@)
}

proof fn lemma_joined_append(a: Seq<Seq<char>>, b: Seq<Seq<char>>)
    ensures
        joined(a + b) == joined(a) + joined(b),
    decreases b.len(),
{
    if b.len() == 0 {
        assert(a + b =~= a);
        assert(joined(b) =~= Seq::<char>::empty());
        assert(joined(a) + joined(b) =~= joined(a));
    } else {
        assert((a + b).drop_last() =~= a + b.drop_last());
        lemma_joined_append(a, b.drop_last());
        assert(joined(a + b) =~= joined(a) + joined(b));
    }
}

proof fn lemma_joined_repeat(p: Seq<char>, n: nat)
    ensures
        joined(Seq::new(n, |i: int| p)) == newlines(p, n),
    decreases n,
{
    if n > 0 {
        assert(Seq::new(n, |i: int| p).drop_last() =~= Seq::new((n - 1) as nat, |i: int| p));
        lemma_joined_repeat(p, (n - 1) as nat);
    } else {
        assert(Seq::new(0, |i: int| p) =~= Seq::<Seq<char>>::empty());
    }
}

proof fn lemma_split_no_newline(s: Seq<char>, t: Seq<char>)
    requires
        forall|i: int| 0 <= i < t.len() ==> t[i] != '\n',
    ensures
        split_scan(s + t) == (split_scan(s).0, split_scan(s).1 + t),
    decreases t.len(),
{
    if t.len() == 0 {
        assert(s + t =~= s);
        assert(split_scan(s).1 + t =~= split_scan(s).1);
    } else {
        assert((s + t).drop_last() =~= s + t.drop_last());
        lemma_split_no_newline(s, t.drop_last());
        assert(split_scan(s).1 + t.drop_last() + seq![t.last()] =~= split_scan(s).1 + t);
    }
}

proof fn lemma_split_joined(ls: Seq<Seq<char>>)
    requires
        forall|i: int| 0 <= i < ls.len() ==> line_ok(#[trigger] ls[i]),
    ensures
        split_scan(joined(ls)) == (ls, Seq::<char>::empty()),
    decreases ls.len(),
{
    if ls.len() > 0 {
        let front = ls.drop_last();
        let l = ls.last();
        assert forall|i: int| 0 <= i < front.len() implies line_ok(#[trigger] front[i]) by {
            assert(front[i] == ls[i]);
        }
        lemma_split_joined(front);
        assert(line_ok(ls[ls.len() - 1]));
        lemma_split_no_newline(joined(front), l);
        let s = joined(front) + l + seq!['\n'];
        assert(s.drop_last() =~= joined(front) + l);
        assert(Seq::<char>::empty() + l =~= l);
        assert(front.push(l) =~= ls);
    } else {
        assert(ls =~= Seq::<Seq<char>>::empty());
    }
}

/// Text made of lines that splitting keeps splits back into those lines.
pub proof fn lemma_text_lines_joined(ls: Seq<Seq<char>>)
    requires
        forall|i: int| 0 <= i < ls.len() ==> line_ok(#[trigger] ls[i]),
    ensures
        text_lines(joined(ls)) == ls,
{
    lemma_split_joined(ls);
}

proof fn lemma_src_run_append(m: SrcModel, a: Seq<Seq<char>>, b: Seq<Seq<char>>)
    ensures
        src_run(m, a + b) == (src_run(src_run(m, a).0, b).0, src_run(m, a).1 + src_run(
            src_run(m, a).0,
            b,
        ).1),
    decreases b.len(),
{
    if b.len() == 0 {
        assert(a + b =~= a);
        assert(src_run(m, a).1 + Seq::<char>::empty() =~= src_run(m, a).1);
    } else {
        assert((a + b).drop_last() =~= a + b.drop_last());
        assert((a + b).last() == b.last());
        lemma_src_run_append(m, a, b.drop_last());
        let (m1, o1) = src_run(src_run(m, a).0, b.drop_last());
        assert(src_run(m, a).1 + o1 + src_step(m1, b.last()).1 =~= src_run(m, a).1 + (o1
            + src_step(m1, b.last()).1));
    }
}

proof fn lemma_lit_run_append(m: LitModel, a: Seq<Seq<char>>, b: Seq<Seq<char>>)
    ensures
        lit_run(m, a + b) == (lit_run(lit_run(m, a).0, b).0, lit_run(m, a).1 + lit_run(
            lit_run(m, a).0,
            b,
        ).1),
    decreases b.len(),
{
    if b.len() == 0 {
        assert(a + b =~= a);
        assert(lit_run(m, a).1 + Seq::<char>::empty() =~= lit_run(m, a).1);
    } else {
        assert((a + b).drop_last() =~= a + b.drop_last());
        assert((a + b).last() == b.last());
        lemma_lit_run_append(m, a, b.drop_last());
        let (m1, o1) = lit_run(lit_run(m, a).0, b.drop_last());
        assert(lit_run(m, a).1 + o1 + lit_step(m1, b.last()).1 =~= lit_run(m, a).1 + (o1
            + lit_step(m1, b.last()).1));
    }
}


proof fn lemma_joined_one(x: Seq<char>)
    ensures
        joined(seq![x]) == x + seq!['\n'],
{
    let one = seq![x];
    assert(one.drop_last() =~= Seq::<Seq<char>>::empty());
    assert(joined(one.drop_last()) == Seq::<char>::empty());
    assert(one.last() == x);
    assert(Seq::<char>::empty() + x + seq!['\n'] =~= x + seq!['\n']);
}

proof fn lemma_src_one(m: SrcModel, l: Seq<char>)
    ensures
        src_run(m, seq![l]) == src_step(m, l),
{
    assert(seq![l].drop_last() =~= Seq::<Seq<char>>::empty());
    assert(src_run(m, Seq::<Seq<char>>::empty()) == (m, Seq::<char>::empty()));
    assert(Seq::<char>::empty() + src_step(m, l).1 =~= src_step(m, l).1);
}

proof fn lemma_lit_one(m: LitModel, l: Seq<char>)
    ensures
        lit_run(m, seq![l]) == lit_step(m, l),
{
    assert(seq![l].drop_last() =~= Seq::<Seq<char>>::empty());
    assert(lit_run(m, Seq::<Seq<char>>::empty()) == (m, Seq::<char>::empty()));
    assert(Seq::<char>::empty() + lit_step(m, l).1 =~= lit_step(m, l).1);
}

/// A blank run and a prose line, read from prose or from the start of a
/// block.
proof fn lemma_src_prose(m: SrcModel, b: nat, l: Seq<char>)
    requires
        m.state == SrcState::MarkdownBlank || m.state == SrcState::MarkdownText,
        m.blanks == 0,
        plain_prose(l),
    ensures
        src_run(m, blank_lines(b) + seq![l]) == (SrcModel {
            state: SrcState::MarkdownText,
            blanks: 0,
            code: m.code,
            warnings: m.warnings,
        }, newlines(blank_prefix(m.state), b) + "//@ "@ + l + seq!['\n']),
{
    lemma_src_run_append(m, blank_lines(b), seq![l]);
    lemma_blank_run(m, b);
    let m1 = src_run(m, blank_lines(b)).0;
    lemma_src_one(m1, l);
    assert(Seq::<char>::empty() + (newlines(blank_prefix(m.state), b) + "//@ "@ + l + seq!['\n'])
        =~= newlines(blank_prefix(m.state), b) + "//@ "@ + l + seq!['\n']);
}

/// The lines of a code block, read inside the block: what is written plus
/// the blank lines still pending is what was pending plus the lines.
proof fn lemma_src_body(m: SrcModel, body: Seq<Seq<char>>)
    requires
        m.state == SrcState::Rust,
        forall|j: int| 0 <= j < body.len() ==> (#[trigger] body[j]).len() == 0 || code_ok(body[j]),
    ensures
        src_run(m, body).0.state == SrcState::Rust,
        src_run(m, body).0.warnings == m.warnings,
        src_run(m, body).0.code == m.code + code_text(body),
        src_run(m, body).1 + newlines(Seq::empty(), src_run(m, body).0.blanks) == newlines(
            Seq::empty(),
            m.blanks,
        ) + joined(body),
        body.len() > 0 && body.last().len() > 0 ==> src_run(m, body).0.blanks == 0,
    decreases body.len(),
{
    reveal_strlit("```");
    if body.len() == 0 {
        assert(m.code + code_text(body) =~= m.code);
        assert(joined(body) =~= Seq::<char>::empty());
        assert(newlines(Seq::empty(), m.blanks) + Seq::<char>::empty() =~= newlines(
            Seq::empty(),
            m.blanks,
        ));
        assert(Seq::<char>::empty() + newlines(Seq::empty(), m.blanks) =~= newlines(
            Seq::empty(),
            m.blanks,
        ));
    } else {
        let front = body.drop_last();
        let l = body.last();
        assert forall|j: int| 0 <= j < front.len() implies (#[trigger] front[j]).len() == 0
            || code_ok(front[j]) by {
            assert(front[j] == body[j]);
        }
        assert(body[body.len() - 1].len() == 0 || code_ok(body[body.len() - 1]));
        lemma_src_body(m, front);
        let (m1, o1) = src_run(m, front);
        let p = m1.blanks;
        let e = Seq::<char>::empty();
        assert(joined(body) == joined(front) + l + seq!['\n']);
        assert(o1 + newlines(e, p) == newlines(e, m.blanks) + joined(front));
        assert(m.code + code_text(body) =~= (m.code + code_text(front)) + seq!['\n'] + l);
        if l.len() == 0 {
            assert(l =~= e);
            assert(m1.code.push('\n') =~= m1.code + seq!['\n'] + l);
            assert(src_step(m1, l) == (crate::md2rs::src_blank(m1), e));
            assert(newlines(e, p + 1) == newlines(e, p) + e + seq!['\n']);
            assert(o1 + e + newlines(e, p + 1) =~= (o1 + newlines(e, p)) + l + seq!['\n']);
            assert(src_run(m, body).1 == o1 + e);
        } else {
            assert(l != fence_close());
            assert(src_step(m1, l).1 == newlines(e, p) + e + l + seq!['\n']);
            assert(newlines(e, 0) == e);
            assert(o1 + (newlines(e, p) + e + l + seq!['\n']) + newlines(e, 0) =~= (o1 + newlines(
                e,
                p,
            )) + l + seq!['\n']);
        }
    }
}

/// A blank run and a code block, read from prose or from the start of a
/// block: the blank lines and the code lines are written as they are.
proof fn lemma_src_code(m: SrcModel, b: nat, body: Seq<Seq<char>>)
    requires
        m.state == SrcState::MarkdownBlank || m.state == SrcState::MarkdownText,
        m.blanks == 0,
        body_ok(body),
    ensures
        src_run(m, blank_lines(b) + (seq![fence_open()] + body + seq![fence_close()])).0.state
            == SrcState::MarkdownBlank,
        src_run(m, blank_lines(b) + (seq![fence_open()] + body + seq![fence_close()])).0.blanks
            == 0,
        src_run(m, blank_lines(b) + (seq![fence_open()] + body + seq![fence_close()])).0.warnings
            == m.warnings,
        src_run(m, blank_lines(b) + (seq![fence_open()] + body + seq![fence_close()])).0.code
            == code_text(body),
        src_run(m, blank_lines(b) + (seq![fence_open()] + body + seq![fence_close()])).1 == joined(
            blank_lines(b) + body,
        ),
{
    reveal_strlit("```rust");
    reveal_strlit("```");
    let all = blank_lines(b) + (seq![fence_open()] + body + seq![fence_close()]);
    assert(all =~= blank_lines(b) + seq![fence_open()] + body + seq![fence_close()]);
    lemma_src_run_append(m, blank_lines(b) + seq![fence_open()] + body, seq![fence_close()]);
    lemma_src_run_append(m, blank_lines(b) + seq![fence_open()], body);
    lemma_src_run_append(m, blank_lines(b), seq![fence_open()]);
    lemma_blank_run(m, b);
    let m1 = src_run(m, blank_lines(b)).0;
    lemma_src_one(m1, fence_open());
    assert(has_prefix(fence_open(), fence_open())) by {
        assert(fence_open().take(7) =~= fence_open());
    }
    assert(fence_open().skip(7).len() == 0);
    let m2 = src_run(m, blank_lines(b) + seq![fence_open()]).0;
    assert(m2.state == SrcState::Rust && m2.blanks == b);
    lemma_src_body(m2, body);
    let m3 = src_run(m, blank_lines(b) + seq![fence_open()] + body).0;
    lemma_src_one(m3, fence_close());
    lemma_joined_append(blank_lines(b), body);
    lemma_joined_repeat(Seq::empty(), b);
    assert(blank_lines(b) =~= Seq::new(b, |i: int| Seq::<char>::empty()));
    let o2 = src_run(m2, body).1;
    assert(Seq::<char>::empty() + code_text(body) =~= code_text(body));
    assert(o2 + newlines(Seq::<char>::empty(), 0) =~= o2);
    assert(Seq::<char>::empty() + Seq::<char>::empty() + o2 + newlines(Seq::<char>::empty(), 0)
        =~= joined(blank_lines(b) + body));
}

/// Blank lines are only counted, whatever the state.
proof fn lemma_lit_blank_run(m: LitModel, n: nat)
    ensures
        lit_run(m, blank_lines(n)).0.state == m.state,
        lit_run(m, blank_lines(n)).0.blanks == m.blanks + n,
        lit_run(m, blank_lines(n)).0.note == m.note,
        lit_run(m, blank_lines(n)).1 == Seq::<char>::empty(),
    decreases n,
{
    if n > 0 {
        assert(blank_lines(n).drop_last() =~= blank_lines((n - 1) as nat));
        lemma_lit_blank_run(m, (n - 1) as nat);
        let e = Seq::<char>::empty();
        assert(trim_start(e) =~= e);
        assert(Seq::<char>::empty() + Seq::<char>::empty() =~= Seq::<char>::empty());
    } else {
        assert(blank_lines(0) =~= Seq::<Seq<char>>::empty());
    }
}

/// Bare `//@` lines inside prose are only counted.
proof fn lemma_lit_marker_run(m: LitModel, n: nat)
    requires
        m.state == LitState::MarkdownLines,
    ensures
        lit_run(m, marker_lines(n)) == (LitModel { blanks: m.blanks + n, ..m }, Seq::<char>::empty()),
    decreases n,
{
    reveal_strlit("//@");
    reveal_strlit("//@ ");
    reveal_strlit("//@@");
    reveal_strlit("//@@@");
    if n > 0 {
        assert(marker_lines(n).drop_last() =~= marker_lines((n - 1) as nat));
        lemma_lit_marker_run(m, (n - 1) as nat);
        lemma_marker_line();
        assert(Seq::<char>::empty() + Seq::<char>::empty() =~= Seq::<char>::empty());
    } else {
        assert(marker_lines(0) =~= Seq::<Seq<char>>::empty());
    }
}

/// How the reader of source sees a bare `//@` line.
proof fn lemma_marker_line()
    ensures
        trim_start("//@"@) == "//@"@,
        !has_prefix("//@"@, "//@ "@),
        !has_prefix("//@"@, "//@@@"@),
        !has_prefix("//@"@, "//@@"@),
        has_prefix("//@"@, "//@"@),
        "//@"@.skip(3) == Seq::<char>::empty(),
        all_ws(Seq::<char>::empty()),
{
    reveal_strlit("//@");
    reveal_strlit("//@ ");
    reveal_strlit("//@@");
    reveal_strlit("//@@@");
    let r = "//@"@;
    assert(leading_ws(r) == 0);
    assert(trim_start(r) =~= r);
    assert(r.take(3) =~= r);
    assert(r.skip(3) =~= Seq::<char>::empty());
}

/// How the reader of source sees a prose line `//@ l`.
proof fn lemma_prose_line(l: Seq<char>)
    requires
        plain_prose(l),
    ensures
        trim_start("//@ "@ + l) == "//@ "@ + l,
        has_prefix("//@ "@ + l, "//@ "@),
        ("//@ "@ + l).skip(4) == l,
        !all_ws(l),
{
    reveal_strlit("//@ ");
    let line = "//@ "@ + l;
    assert(leading_ws(line) == 0);
    assert(trim_start(line) =~= line);
    assert(line.take(4) =~= "//@ "@);
    assert(line.skip(4) =~= l);
}

/// How the reader of source sees a line of code.
proof fn lemma_code_line(c: Seq<char>)
    requires
        code_ok(c),
    ensures
        trim_start(c).len() > 0,
        !has_prefix(trim_start(c), "//@ "@),
        !has_prefix(trim_start(c), "//@@@"@),
        !has_prefix(trim_start(c), "//@@"@),
        !has_prefix(trim_start(c), "//@"@),
{
    reveal_strlit("//@");
    reveal_strlit("//@ ");
    reveal_strlit("//@@");
    reveal_strlit("//@@@");
    lemma_leading_ws(c);
    if leading_ws(c) == c.len() {
        assert(all_ws(c));
    }
    let r = trim_start(c);
    if has_prefix(r, "//@ "@) {
        assert(r.take(3) =~= "//@ "@.take(3));
        assert("//@ "@.take(3) =~= "//@"@);
    }
    if has_prefix(r, "//@@@"@) {
        assert(r.take(3) =~= "//@@@"@.take(3));
        assert("//@@@"@.take(3) =~= "//@"@);
    }
    if has_prefix(r, "//@@"@) {
        assert(r.take(3) =~= "//@@"@.take(3));
        assert("//@@"@.take(3) =~= "//@"@);
    }
}

/// After the run before a prose line the reader of source holds those blank
/// lines as pending, in prose or still in the code block before it.
proof fn lemma_lit_run_before_prose(m: LitModel, b: nat, first: bool)
    requires
        m.state == LitState::MarkdownFirstLine || m.state == LitState::MarkdownLines
            || m.state == LitState::Rust,
        m.blanks == 0,
        m.note is None,
        m.state == LitState::MarkdownLines ==> !first,
        m.state == LitState::Rust ==> first,
    ensures
        lit_run(m, unit_run(first, b)).1 == Seq::<char>::empty(),
        lit_run(m, unit_run(first, b)).0.blanks == b,
        lit_run(m, unit_run(first, b)).0.note is None,
        lit_run(m, unit_run(first, b)).0.state == (if m.state == LitState::MarkdownFirstLine
            && !first && b > 0 {
            LitState::MarkdownLines
        } else {
            m.state
        }),
{
    reveal_strlit("//@");
    if first {
        lemma_lit_blank_run(m, b);
    } else if m.state == LitState::MarkdownLines {
        lemma_lit_marker_run(m, b);
    } else if b > 0 {
        let rest = marker_lines((b - 1) as nat);
        assert(marker_lines(b) =~= seq!["//@"@] + rest);
        lemma_lit_run_append(m, seq!["//@"@], rest);
        lemma_lit_one(m, "//@"@);
        lemma_marker_line();
        let m1 = lit_run(m, seq!["//@"@]).0;
        assert(newlines(Seq::<char>::empty(), 0) =~= Seq::<char>::empty());
        assert(m1.state == LitState::MarkdownLines && m1.blanks == 1);
        lemma_lit_marker_run(m1, (b - 1) as nat);
        assert(Seq::<char>::empty() + Seq::<char>::empty() =~= Seq::<char>::empty());
    } else {
        assert(marker_lines(0) =~= Seq::<Seq<char>>::empty());
    }
}

/// A blank run and a prose line, read as source.
proof fn lemma_lit_prose(m: LitModel, b: nat, l: Seq<char>, first: bool)
    requires
        m.state == LitState::MarkdownFirstLine || m.state == LitState::MarkdownLines
            || m.state == LitState::Rust,
        m.blanks == 0,
        m.note is None,
        m.state == LitState::MarkdownLines ==> !first,
        m.state == LitState::Rust ==> first,
        plain_prose(l),
    ensures
        lit_run(m, unit_run(first, b) + seq!["//@ "@ + l]).0.state == (if m.state
            == LitState::Rust {
            LitState::MarkdownFirstLine
        } else {
            LitState::MarkdownLines
        }),
        lit_run(m, unit_run(first, b) + seq!["//@ "@ + l]).0.blanks == 0,
        lit_run(m, unit_run(first, b) + seq!["//@ "@ + l]).0.note is None,
        lit_run(m, unit_run(first, b) + seq!["//@ "@ + l]).1 == (if m.state == LitState::Rust {
            "```"@ + seq!['\n']
        } else {
            Seq::<char>::empty()
        }) + newlines(Seq::empty(), b) + l + seq!['\n'],
{
    let line = "//@ "@ + l;
    lemma_lit_run_append(m, unit_run(first, b), seq![line]);
    lemma_lit_run_before_prose(m, b, first);
    let m1 = lit_run(m, unit_run(first, b)).0;
    lemma_lit_one(m1, line);
    lemma_prose_line(l);
    let e = Seq::<char>::empty();
    assert(newlines(e, 0) =~= e);
    let (m2, o2) = lit_step(m1, line);
    if m.state == LitState::Rust {
        assert(o2 == "```"@ + seq!['\n'] + newlines(e, b) + (newlines(e, 0) + l + seq!['\n']));
        assert(e + o2 =~= "```"@ + seq!['\n'] + newlines(e, b) + l + seq!['\n']);
    } else if m1.state == LitState::MarkdownFirstLine {
        assert(o2 == newlines(e, b) + (newlines(e, 0) + l + seq!['\n']));
        assert(e + o2 =~= e + newlines(e, b) + l + seq!['\n']);
    } else {
        assert(o2 == e + (newlines(e, b) + l + seq!['\n']));
        assert(e + o2 =~= e + newlines(e, b) + l + seq!['\n']);
    }
}

/// The lines of a code block, read as source inside the block.
proof fn lemma_lit_body(m: LitModel, body: Seq<Seq<char>>)
    requires
        m.state == LitState::Rust,
        forall|j: int| 0 <= j < body.len() ==> (#[trigger] body[j]).len() == 0 || code_ok(body[j]),
    ensures
        lit_run(m, body).0.state == LitState::Rust,
        lit_run(m, body).0.note == m.note,
        lit_run(m, body).0.code == m.code + code_text(body),
        lit_run(m, body).1 + newlines(Seq::empty(), lit_run(m, body).0.blanks) == newlines(
            Seq::empty(),
            m.blanks,
        ) + joined(body),
        body.len() > 0 && body.last().len() > 0 ==> lit_run(m, body).0.blanks == 0,
    decreases body.len(),
{
    let e = Seq::<char>::empty();
    if body.len() == 0 {
        assert(m.code + code_text(body) =~= m.code);
        assert(joined(body) =~= e);
        assert(newlines(e, m.blanks) + e =~= newlines(e, m.blanks));
        assert(e + newlines(e, m.blanks) =~= newlines(e, m.blanks));
    } else {
        let front = body.drop_last();
        let l = body.last();
        assert forall|j: int| 0 <= j < front.len() implies (#[trigger] front[j]).len() == 0
            || code_ok(front[j]) by {
            assert(front[j] == body[j]);
        }
        assert(body[body.len() - 1].len() == 0 || code_ok(body[body.len() - 1]));
        lemma_lit_body(m, front);
        let (m1, o1) = lit_run(m, front);
        let p = m1.blanks;
        assert(joined(body) == joined(front) + l + seq!['\n']);
        assert(o1 + newlines(e, p) == newlines(e, m.blanks) + joined(front));
        assert(m.code + code_text(body) =~= (m.code + code_text(front)) + seq!['\n'] + l);
        if l.len() == 0 {
            assert(l =~= e);
            assert(m1.code.push('\n') =~= m1.code + seq!['\n'] + l);
            assert(trim_start(l) =~= e);
            assert(lit_step(m1, l).1 == e);
            assert(newlines(e, p + 1) == newlines(e, p) + e + seq!['\n']);
            assert(o1 + e + newlines(e, p + 1) =~= (o1 + newlines(e, p)) + l + seq!['\n']);
        } else {
            lemma_code_line(l);
            assert(lit_step(m1, l).1 == e + (newlines(e, p) + l + seq!['\n']));
            assert(newlines(e, 0) == e);
            assert(o1 + (e + (newlines(e, p) + l + seq!['\n'])) + newlines(e, 0) =~= (o1
                + newlines(e, p)) + l + seq!['\n']);
        }
    }
}

/// A blank run and a code block, read as source from prose or from the
/// start: the blank lines, then a fence and the code.
proof fn lemma_lit_code(m: LitModel, b: nat, body: Seq<Seq<char>>)
    requires
        m.state == LitState::MarkdownFirstLine || m.state == LitState::MarkdownLines,
        m.blanks == 0,
        m.note is None,
        body_ok(body),
    ensures
        lit_run(m, blank_lines(b) + body).0.state == LitState::Rust,
        lit_run(m, blank_lines(b) + body).0.blanks == 0,
        lit_run(m, blank_lines(b) + body).0.note is None,
        lit_run(m, blank_lines(b) + body).0.code == code_text(body),
        lit_run(m, blank_lines(b) + body).1 == newlines(Seq::empty(), b) + "```rust"@ + seq!['\n']
            + joined(body),
{
    let e = Seq::<char>::empty();
    let c0 = body[0];
    let rest = body.skip(1);
    assert(body =~= seq![c0] + rest);
    assert(blank_lines(b) + body =~= blank_lines(b) + seq![c0] + rest);
    lemma_lit_run_append(m, blank_lines(b) + seq![c0], rest);
    lemma_lit_run_append(m, blank_lines(b), seq![c0]);
    lemma_lit_blank_run(m, b);
    let m1 = lit_run(m, blank_lines(b)).0;
    lemma_lit_one(m1, c0);
    assert(code_ok(body[0]));
    lemma_code_line(c0);
    let m2 = lit_run(m, blank_lines(b) + seq![c0]).0;
    let o2 = lit_run(m, blank_lines(b) + seq![c0]).1;
    assert(newlines(e, 0) =~= e);
    assert(m2.state == LitState::Rust && m2.blanks == 0 && m2.note is None);
    assert(o2 =~= newlines(e, b) + "```rust"@ + seq!['\n'] + (c0 + seq!['\n']));
    assert forall|j: int| 0 <= j < rest.len() implies (#[trigger] rest[j]).len() == 0 || code_ok(
        rest[j],
    ) by {
        assert(rest[j] == body[j + 1]);
    }
    lemma_lit_body(m2, rest);
    lemma_code_text_append(seq![c0], rest);
    assert(seq![c0].drop_last() =~= Seq::<Seq<char>>::empty());
    assert(code_text(seq![c0].drop_last()) == e);
    assert(m2 == lit_step(m1, c0).0);
    assert(m2.code == e + seq!['\n'] + c0);
    assert(m2.code =~= code_text(seq![c0]));
    lemma_joined_append(seq![c0], rest);
    lemma_joined_one(c0);
    let o3 = lit_run(m2, rest).1;
    if rest.len() > 0 {
        assert(rest.last() == body.last());
    } else {
        assert(rest =~= Seq::<Seq<char>>::empty());
    }
    assert(o3 + newlines(e, 0) =~= o3);
    assert(o2 + o3 =~= newlines(e, b) + "```rust"@ + seq!['\n'] + joined(body));
}

/// What both readers hold after the parts `units`.
pub open spec fn doc_invariant(units: Seq<Part>) -> bool {
    let (sm, so) = src_run(src_init(), md_units(units));
    let (lm, lo) = lit_run(lit_init(), src_units(units));
    &&& so == joined(src_units(units))
    &&& sm.blanks == 0
    &&& sm.warnings == Seq::<(Seq<char>, Seq<char>)>::empty()
    &&& sm.state == (if ends_blank(units) {
        SrcState::MarkdownBlank
    } else {
        SrcState::MarkdownText
    })
    &&& lm.blanks == 0
    &&& lm.note is None
    &&& units.len() == 0 ==> lm.state == LitState::MarkdownFirstLine
    &&& units.len() > 0 && open_block(units.last()) ==> lm.state == LitState::Rust
    &&& units.len() > 0 && units.last().0 && units.last().3 is Some ==> lm.state
        == LitState::MarkdownFirstLine
    &&& units.len() > 0 && !units.last().0 ==> (lm.state == LitState::MarkdownFirstLine
        || lm.state == LitState::MarkdownLines)
    &&& lo + lit_finish(lm) == joined(md_units(units))
}

pub open spec fn lines_ok(ls: Seq<Seq<char>>) -> bool {
    forall|i: int| 0 <= i < ls.len() ==> line_ok(#[trigger] ls[i])
}

proof fn lemma_step_src(units: Seq<Part>)
    requires
        units.len() > 0,
        unit_ok(units.last()),
        doc_invariant(units.drop_last()),
    ensures
        src_run(src_init(), md_units(units)).1 == joined(src_units(units)),
        src_run(src_init(), md_units(units)).0.blanks == 0,
        src_run(src_init(), md_units(units)).0.warnings == Seq::<(Seq<char>, Seq<char>)>::empty(),
        src_run(src_init(), md_units(units)).0.state == (if ends_blank(units) {
            SrcState::MarkdownBlank
        } else {
            SrcState::MarkdownText
        }),
{
    reveal_strlit("//@");
    let front = units.drop_last();
    let u = units.last();
    let b = u.1;
    let piece = md_piece(u);
    assert(md_units(units) =~= md_units(front) + (blank_lines(b) + piece));
    lemma_src_run_append(src_init(), md_units(front), blank_lines(b) + piece);
    let sm = src_run(src_init(), md_units(front)).0;
    if u.0 {
        lemma_src_block(sm, u);
        assert(src_units(units) == src_units(front) + src_block(u));
        lemma_joined_append(src_units(front), src_block(u));
    } else {
        let l = u.2[0];
        assert(u.2 =~= seq![l]);
        lemma_src_prose(sm, b, l);
        let run = unit_run(ends_blank(front), b);
        assert(src_units(units) == src_units(front) + (run + seq!["//@ "@ + l]));
        lemma_joined_append(src_units(front), run + seq!["//@ "@ + l]);
        lemma_joined_append(run, seq!["//@ "@ + l]);
        lemma_joined_repeat(blank_prefix(sm.state), b);
        assert(run =~= Seq::new(b, |i: int| blank_prefix(sm.state)));
        lemma_joined_one("//@ "@ + l);
        assert(joined(src_units(front)) + (newlines(blank_prefix(sm.state), b) + "//@ "@ + l
            + seq!['\n']) =~= joined(src_units(units)));
    }
}

proof fn lemma_step_lit_code(units: Seq<Part>)
    requires
        units.len() > 0,
        unit_ok(units.last()),
        units.last().0,
        units.len() > 1 ==> !open_block(units.drop_last().last()),
        doc_invariant(units.drop_last()),
    ensures
        ({
            let (lm, lo) = lit_run(lit_init(), src_units(units));
            &&& lm.blanks == 0
            &&& lm.note is None
            &&& lm.state == (if units.last().3 is Some {
                LitState::MarkdownFirstLine
            } else {
                LitState::Rust
            })
            &&& lo + lit_finish(lm) == joined(md_units(units))
        }),
{
    let front = units.drop_last();
    let u = units.last();
    let e = Seq::<char>::empty();
    let (lm0, lo0) = lit_run(lit_init(), src_units(front));
    assert(src_units(units) == src_units(front) + src_block(u));
    lemma_lit_run_append(lit_init(), src_units(front), src_block(u));
    lemma_lit_block(lm0, u);
    assert(lit_finish(lm0) == e);
    assert(lo0 + e =~= lo0);
    assert(md_units(units) =~= md_units(front) + (blank_lines(u.1) + md_piece(u)));
    lemma_joined_append(md_units(front), blank_lines(u.1) + md_piece(u));
    let (lm, lo) = lit_run(lit_init(), src_units(units));
    let ob = lit_run(lm0, src_block(u)).1;
    assert(lo + lit_finish(lm) =~= lo0 + (ob + lit_finish(lm)));
}

#[verifier::rlimit(30)]
proof fn lemma_step_lit_prose(units: Seq<Part>)
    requires
        units.len() > 0,
        unit_ok(units.last()),
        !units.last().0,
        doc_invariant(units.drop_last()),
    ensures
        ({
            let (lm, lo) = lit_run(lit_init(), src_units(units));
            &&& lm.blanks == 0
            &&& lm.note is None
            &&& (lm.state == LitState::MarkdownFirstLine || lm.state == LitState::MarkdownLines)
            &&& lo + lit_finish(lm) == joined(md_units(units))
        }),
{
    reveal_strlit("```");
    let front = units.drop_last();
    let u = units.last();
    let b = u.1;
    let e = Seq::<char>::empty();
    let (lm0, lo0) = lit_run(lit_init(), src_units(front));
    let l = u.2[0];
    assert(u.2 =~= seq![l]);
    let first = ends_blank(front);
    let run = unit_run(first, b);
    assert(src_units(units) == src_units(front) + (run + seq!["//@ "@ + l]));
    lemma_lit_run_append(lit_init(), src_units(front), run + seq!["//@ "@ + l]);
    lemma_lit_prose(lm0, b, l, first);
    assert(md_units(units) == md_units(front) + blank_lines(b) + u.2);
    lemma_joined_append(md_units(front) + blank_lines(b), u.2);
    lemma_joined_append(md_units(front), blank_lines(b));
    lemma_joined_one(l);
    lemma_joined_repeat(e, b);
    assert(blank_lines(b) =~= Seq::new(b, |i: int| e));
    let pre = if lm0.state == LitState::Rust {
        "```"@ + seq!['\n']
    } else {
        e
    };
    assert(lit_finish(lm0) == pre);
    let lo = lit_run(lit_init(), src_units(units)).1;
    assert(lo == lo0 + (pre + newlines(e, b) + l + seq!['\n']));
    assert(lo + e =~= (lo0 + pre) + newlines(e, b) + (l + seq!['\n']));
}

proof fn lemma_step_lines(units: Seq<Part>)
    requires
        units.len() > 0,
        unit_ok(units.last()),
        lines_ok(md_units(units.drop_last())),
        lines_ok(src_units(units.drop_last())),
    ensures
        lines_ok(md_units(units)),
        lines_ok(src_units(units)),
{
    reveal_strlit("//@");
    reveal_strlit("//@ ");
    reveal_strlit("//@@@ ");
    reveal_strlit("```");
    reveal_strlit("```rust");
    let front = units.drop_last();
    let u = units.last();
    let b = u.1;
    let piece = md_piece(u);
    let tail = if u.0 {
        src_block(u)
    } else {
        unit_run(ends_blank(front), b) + seq!["//@ "@ + u.2[0]]
    };
    assert(md_units(units) == md_units(front) + blank_lines(b) + piece);
    assert(src_units(units) == src_units(front) + tail);
    assert(lines_ok(blank_lines(b) + piece)) by {
        assert forall|i: int| 0 <= i < (blank_lines(b) + piece).len() implies line_ok(
            #[trigger] (blank_lines(b) + piece)[i],
        ) by {
            if i >= b {
                let k = i - b;
                let x = piece[k];
                if u.0 {
                    if k > 0 && k < u.2.len() + 1 {
                        assert(x == u.2[k - 1]);
                    } else if k == u.2.len() + 2 {
                        let n = u.3->0;
                        assert(x == link_line(n, u.2));
                    }
                } else {
                    assert(x == u.2[0]);
                }
            }
        }
    }
    assert(lines_ok(tail)) by {
        assert forall|i: int| 0 <= i < tail.len() implies line_ok(#[trigger] tail[i]) by {
            if u.0 {
                if b <= i < b + u.2.len() {
                    assert(tail[i] == u.2[i - b]);
                } else if i == b + u.2.len() {
                    let n = u.3->0;
                    let x = "//@@@ "@ + n;
                    assert(tail[i] == x);
                    assert forall|j: int| 0 <= j < x.len() implies x[j] != '\n' by {
                        if j >= 6 {
                            assert(x[j] == n[j - 6]);
                        }
                    }
                    assert(x.last() == n.last());
                }
            } else if i >= b {
                let l = u.2[0];
                let x = "//@ "@ + l;
                assert(tail[i] == x);
                assert forall|j: int| 0 <= j < x.len() implies x[j] != '\n' by {
                    if j >= 4 {
                        assert(x[j] == l[j - 4]);
                    }
                }
                assert(x.last() == l.last());
            }
        }
    }
    assert forall|i: int| 0 <= i < md_units(units).len() implies line_ok(
        #[trigger] md_units(units)[i],
    ) by {
        if i < md_units(front).len() {
            assert(md_units(units)[i] == md_units(front)[i]);
        } else {
            assert(md_units(units)[i] == (blank_lines(b) + piece)[i - md_units(front).len()]);
        }
    }
    assert forall|i: int| 0 <= i < src_units(units).len() implies line_ok(
        #[trigger] src_units(units)[i],
    ) by {
        if i < src_units(front).len() {
            assert(src_units(units)[i] == src_units(front)[i]);
        } else {
            assert(src_units(units)[i] == tail[i - src_units(front).len()]);
        }
    }
}

proof fn lemma_doc(units: Seq<Part>)
    requires
        doc_ok(units),
    ensures
        doc_invariant(units),
        lines_ok(md_units(units)),
        lines_ok(src_units(units)),
    decreases units.len(),
{
    let e = Seq::<char>::empty();
    if units.len() == 0 {
        assert(joined(Seq::<Seq<char>>::empty()) =~= e);
        assert(src_run(src_init(), Seq::<Seq<char>>::empty()) == (src_init(), e));
        assert(lit_run(lit_init(), Seq::<Seq<char>>::empty()) == (lit_init(), e));
        assert(e + e =~= e);
    } else {
        let front = units.drop_last();
        assert(doc_ok(front)) by {
            assert forall|i: int| 0 <= i < front.len() implies unit_ok(#[trigger] front[i]) by {
                assert(front[i] == units[i]);
            }
            assert forall|i: int| 0 < i < front.len() && (#[trigger] front[i]).0 implies !open_block(
                front[i - 1],
            ) by {
                assert(front[i] == units[i]);
                assert(front[i - 1] == units[i - 1]);
            }
        }
        assert(unit_ok(units[units.len() - 1]));
        if units.len() > 1 {
            assert(units[units.len() - 1].0 ==> !open_block(units[units.len() - 2]));
        }
        lemma_doc(front);
        lemma_step_src(units);
        if units.last().0 {
            lemma_step_lit_code(units);
        } else {
            lemma_step_lit_prose(units);
        }
        lemma_step_lines(units);
    }
}

/// A document of prose lines, blank lines and plain code blocks, with no
/// blank line at its end, converts from markdown to source and back, and
/// from source to markdown and back, to exactly the text it started from.
/// A code block may be followed by a playground link that matches it. Prose
/// lines here are not blank, open no fence and are no playground link; code
/// lines are not blank, do not start with `//@` after whitespace, do not
/// close a fence and are no playground link; a block opens with a bare
/// fence, neither starts nor ends with a blank line, and does not directly
/// follow a block that no link closed; a block name has no `]` and no
/// whitespace at its ends; no line ends in a carriage return.
pub proof fn documents_survive_round_trip(units: Seq<Part>)
    requires
        doc_ok(units),
    ensures
        source_of(joined(md_units(units))) == joined(src_units(units)),
        literate_of(joined(src_units(units))) == joined(md_units(units)),
        literate_of(source_of(joined(md_units(units)))) == joined(md_units(units)),
        source_of(literate_of(joined(src_units(units)))) == joined(src_units(units)),
{
    lemma_doc(units);
    lemma_text_lines_joined(md_units(units));
    lemma_text_lines_joined(src_units(units));
}

/// A block name that both converters carry over: not empty, without `]` or
/// a line break, and without whitespace at either end.
pub open spec fn name_ok(n: Seq<char>) -> bool {
    &&& n.len() > 0
    &&& forall|i: int| 0 <= i < n.len() ==> n[i] != ']' && n[i] != '\n'
    &&& !is_ws(n[0])
    &&& !is_ws(n.last())
}

/// The markdown line that names a code block whose lines are `body`.
pub open spec fn link_line(n: Seq<char>, body: Seq<Seq<char>>) -> Seq<char> {
    "["@ + n + "]: "@ + play_url(code_text(body))
}

/// The markdown reader finds the name in a link line and the link matches
/// the block it has just read.
proof fn lemma_src_link(m: SrcModel, n: Seq<char>, body: Seq<Seq<char>>)
    requires
        m.state == SrcState::MarkdownBlank,
        m.code == code_text(body),
        name_ok(n),
    ensures
        src_step(m, link_line(n, body)) == (m, "//@@@ "@ + n + seq!['\n']),
{
    reveal_strlit("[");
    reveal_strlit("]: ");
    reveal_strlit("]: https://play.rust-lang.org/?code=");
    reveal_strlit("https://play.rust-lang.org/?code=");
    reveal_strlit("```rust");
    let line = link_line(n, body);
    let c = 1 + n.len() as int;
    let marker = link_marker();
    assert(line =~= "["@ + n + (marker + url_code(trim(code_text(body))) + play_suffix()));
    assert(occurs_at(line, "["@, 0)) by {
        assert(line.subrange(0, 1) =~= "["@);
    }
    lemma_find_first_is(line, "["@, 0);
    assert(occurs_at(line, marker, c)) by {
        assert(line.subrange(c, c + marker.len()) =~= marker);
    }
    assert forall|j: int| 0 <= j < c implies !occurs_at(line, marker, j) by {
        if occurs_at(line, marker, j) {
            assert(line.subrange(j, j + marker.len())[0] == marker[0]);
            if j > 0 {
                assert(line[j] == n[j - 1]);
            }
        }
    }
    lemma_find_first_is(line, marker, c);
    assert(link_name_bounds(line) == Some((1int, c)));
    assert(line.subrange(1, c) =~= n);
    assert(line.skip(c + 3) =~= play_url(code_text(body)));
    assert(!has_prefix(line, fence_open())) by {
        assert(line.take(7)[0] == '[');
    }
}

/// The source reader meets a `//@@@` line right after the code it names:
/// it closes the block and writes the link.
proof fn lemma_lit_link(m: LitModel, n: Seq<char>, body: Seq<Seq<char>>)
    requires
        m.state == LitState::Rust,
        m.blanks == 0,
        m.code == code_text(body),
        name_ok(n),
    ensures
        lit_step(m, "//@@@ "@ + n) == (LitModel {
            state: LitState::MarkdownFirstLine,
            ..m
        }, "```"@ + seq!['\n'] + link_line(n, body) + seq!['\n']),
{
    reveal_strlit("//@ ");
    reveal_strlit("//@@@");
    reveal_strlit("//@@@ ");
    let line = "//@@@ "@ + n;
    let e = Seq::<char>::empty();
    assert(leading_ws(line) == 0);
    assert(trim_start(line) =~= line);
    assert(!has_prefix(line, "//@ "@)) by {
        assert(line.take(4)[3] == '@');
    }
    assert(has_prefix(line, "//@@@"@)) by {
        assert(line.take(5) =~= "//@@@"@);
    }
    let l = line.skip(5);
    assert(l =~= seq![' '] + n);
    assert(!all_ws(l)) by {
        assert(l[1] == n[0]);
    }
    lemma_leading_ws_is(l, 1);
    assert(trim_start(l) =~= n);
    lemma_trailing_ws_is(n, 0);
    assert(trim(l) =~= n);
    assert(newlines(e, 0) =~= e);
    assert("```"@ + seq!['\n'] + newlines(e, 0) + "["@ + n + "]: "@ + play_url(code_text(body))
        + seq!['\n'] =~= "```"@ + seq!['\n'] + link_line(n, body) + seq!['\n']);
}

/// A blank run, a code block and its link, if any, read as markdown.
proof fn lemma_src_block(m: SrcModel, u: Part)
    requires
        m.state == SrcState::MarkdownBlank || m.state == SrcState::MarkdownText,
        m.blanks == 0,
        u.0,
        unit_ok(u),
    ensures
        src_run(m, blank_lines(u.1) + md_piece(u)).0.state == SrcState::MarkdownBlank,
        src_run(m, blank_lines(u.1) + md_piece(u)).0.blanks == 0,
        src_run(m, blank_lines(u.1) + md_piece(u)).0.warnings == m.warnings,
        src_run(m, blank_lines(u.1) + md_piece(u)).1 == joined(src_block(u)),
{
    let b = u.1;
    let body = u.2;
    let block = seq![fence_open()] + body + seq![fence_close()];
    let names = match u.3 {
        Some(n) => seq![link_line(n, body)],
        None => Seq::<Seq<char>>::empty(),
    };
    let src_names = match u.3 {
        Some(n) => seq!["//@@@ "@ + n],
        None => Seq::<Seq<char>>::empty(),
    };
    assert(blank_lines(b) + md_piece(u) =~= (blank_lines(b) + block) + names);
    lemma_src_run_append(m, blank_lines(b) + block, names);
    lemma_src_code(m, b, body);
    let m1 = src_run(m, blank_lines(b) + block).0;
    let o1 = src_run(m, blank_lines(b) + block).1;
    lemma_joined_append(blank_lines(b) + body, src_names);
    assert(src_block(u) == blank_lines(b) + body + src_names);
    match u.3 {
        Some(n) => {
            lemma_src_one(m1, link_line(n, body));
            lemma_src_link(m1, n, body);
            lemma_joined_one("//@@@ "@ + n);
        },
        None => {
            assert(src_run(m1, names) == (m1, Seq::<char>::empty()));
            assert(joined(src_names) =~= Seq::<char>::empty());
            assert(o1 + Seq::<char>::empty() =~= o1);
        },
    }
}

/// The source lines of a block and of its name, if any, read as source.
proof fn lemma_lit_block(m: LitModel, u: Part)
    requires
        m.state == LitState::MarkdownFirstLine || m.state == LitState::MarkdownLines,
        m.blanks == 0,
        m.note is None,
        u.0,
        unit_ok(u),
    ensures
        lit_run(m, src_block(u)).0.blanks == 0,
        lit_run(m, src_block(u)).0.note is None,
        lit_run(m, src_block(u)).0.state == (if u.3 is Some {
            LitState::MarkdownFirstLine
        } else {
            LitState::Rust
        }),
        lit_run(m, src_block(u)).1 + lit_finish(lit_run(m, src_block(u)).0) == joined(
            blank_lines(u.1) + md_piece(u),
        ),
{
    reveal_strlit("```");
    let b = u.1;
    let body = u.2;
    let e = Seq::<char>::empty();
    let src_names = match u.3 {
        Some(n) => seq!["//@@@ "@ + n],
        None => Seq::<Seq<char>>::empty(),
    };
    let names = match u.3 {
        Some(n) => seq![link_line(n, body)],
        None => Seq::<Seq<char>>::empty(),
    };
    assert(src_block(u) == blank_lines(b) + body + src_names);
    lemma_lit_run_append(m, blank_lines(b) + body, src_names);
    lemma_lit_code(m, b, body);
    let m1 = lit_run(m, blank_lines(b) + body).0;
    let o1 = lit_run(m, blank_lines(b) + body).1;
    let block = seq![fence_open()] + body + seq![fence_close()];
    assert(blank_lines(b) + md_piece(u) =~= blank_lines(b) + block + names);
    lemma_joined_append(blank_lines(b) + block, names);
    lemma_joined_append(blank_lines(b) + (seq![fence_open()] + body), seq![fence_close()]);
    assert(blank_lines(b) + block =~= blank_lines(b) + (seq![fence_open()] + body) + seq![
        fence_close(),
    ]);
    lemma_joined_append(blank_lines(b), seq![fence_open()] + body);
    lemma_joined_append(seq![fence_open()], body);
    lemma_joined_one(fence_open());
    lemma_joined_one(fence_close());
    lemma_joined_repeat(e, b);
    assert(blank_lines(b) =~= Seq::new(b, |i: int| e));
    assert(joined(blank_lines(b) + block) =~= o1 + ("```"@ + seq!['\n']));
    match u.3 {
        Some(n) => {
            lemma_lit_one(m1, "//@@@ "@ + n);
            lemma_lit_link(m1, n, body);
            lemma_joined_one(link_line(n, body));
            assert(lit_finish(LitModel { state: LitState::MarkdownFirstLine, ..m1 }) == e);
            assert(o1 + ("```"@ + seq!['\n'] + link_line(n, body) + seq!['\n']) + e =~= joined(
                blank_lines(b) + block,
            ) + joined(names));
        },
        None => {
            assert(lit_run(m1, src_names) == (m1, e));
            assert(joined(names) =~= e);
            assert(o1 + e + ("```"@ + seq!['\n']) =~= joined(blank_lines(b) + block) + e);
        },
    }
}

} // verus!
