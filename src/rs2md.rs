//! Commented source to literate markdown: `//@` lines become prose, other
//! lines are gathered into fenced code blocks, `//@@` lines give the next
//! fence its attributes (of several pending ones, the first is kept) and
//! `//@@@` lines name the block before them with a playground link.

use vstd::prelude::*;
use crate::permalink::{encode_to_url, play_url};
use crate::text::{
    all_ws, blank_from, chars_of, has_prefix, has_prefix_at, lines_view, newlines, push_lines,
    skip_ws, trim, trim_bounds, trim_start,
};

verus! {

broadcast use vstd::string::group_string_axioms;

/// Where the converter stands in the source it reads.
#[derive(Clone, Copy, PartialEq, Eq, Structural, Debug)]
pub enum State {
    /// Prose may start: the beginning, or just after a code block.
    MarkdownFirstLine,
    /// Inside prose.
    MarkdownLines,
    /// Inside code, which is written in a fenced block.
    Rust,
}

/// What the converter remembers between lines.
pub ghost struct LitModel {
    pub state: State,
    /// Blank lines read and not yet written.
    pub blanks: nat,
    /// The text of the current or last code block, a newline before each line.
    pub code: Seq<char>,
    /// Attributes for the next fence, if a `//@@` line gave some.
    pub note: Option<Seq<char>>,
}

/// Counting a blank line; inside code it also joins the code text.
pub open spec fn lit_blank(m: LitModel) -> LitModel {
    LitModel {
        blanks: m.blanks + 1,
        code: if m.state == State::Rust {
            m.code.push('\n')
        } else {
            m.code
        },
        ..m
    }
}

/// Writing a line as it is, after the pending blank lines.
pub open spec fn lit_nonblank(m: LitModel, line: Seq<char>) -> (LitModel, Seq<char>) {
    (
        LitModel {
            blanks: 0,
            code: if m.state == State::Rust {
                m.code + seq!['\n'] + line
            } else {
                m.code
            },
            ..m
        },
        newlines(Seq::empty(), m.blanks) + line + seq!['\n'],
    )
}

/// The line that opens a fence, with the attributes of `note` if any.
pub open spec fn fence_line(note: Option<Seq<char>>) -> Seq<char> {
    match note {
        None => "```rust"@ + seq!['\n'],
        Some(n) => "```rust "@ + n + seq!['\n'],
    }
}

/// Opening a code block: pending blank lines, then the fence.
pub open spec fn lit_enter_code(m: LitModel) -> (LitModel, Seq<char>) {
    (
        LitModel { state: State::Rust, blanks: 0, code: Seq::empty(), note: None },
        newlines(Seq::empty(), m.blanks) + fence_line(m.note),
    )
}

/// Moving on to prose: a code block is closed; pending blank lines are
/// written unless prose is already under way.
pub open spec fn lit_advance(m: LitModel) -> (LitModel, Seq<char>) {
    match m.state {
        State::Rust => (
            LitModel { state: State::MarkdownFirstLine, blanks: 0, ..m },
            "```"@ + seq!['\n'] + newlines(Seq::empty(), m.blanks),
        ),
        State::MarkdownFirstLine => (
            LitModel { state: State::MarkdownLines, blanks: 0, ..m },
            newlines(Seq::empty(), m.blanks),
        ),
        State::MarkdownLines => (m, Seq::empty()),
    }
}

/// One line of source: the new model and the markdown written.
pub open spec fn lit_step(m: LitModel, line: Seq<char>) -> (LitModel, Seq<char>) {
    let r = trim_start(line);
    if r.len() == 0 {
        (lit_blank(m), Seq::empty())
    } else if has_prefix(r, "//@ "@) {
        let l = r.skip(4);
        let m1 = if all_ws(l) {
            lit_blank(m)
        } else {
            m
        };
        let (m2, o2) = lit_advance(m1);
        if all_ws(l) {
            (m2, o2)
        } else {
            let (m3, o3) = lit_nonblank(m2, l);
            (m3, o2 + o3)
        }
    } else if has_prefix(r, "//@@@"@) {
        let l = r.skip(5);
        if all_ws(l) {
            (m, Seq::empty())
        } else {
            let (m2, o2) = lit_advance(m);
            (m2, o2 + "["@ + trim(l) + "]: "@ + play_url(m2.code) + seq!['\n'])
        }
    } else if has_prefix(r, "//@@"@) {
        let l = r.skip(4);
        if all_ws(l) || m.note is Some {
            (m, Seq::empty())
        } else {
            (LitModel { note: Some(trim(l)), ..m }, Seq::empty())
        }
    } else if has_prefix(r, "//@"@) {
        let l = r.skip(3);
        let (m2, o2) = lit_advance(m);
        if all_ws(l) {
            (lit_blank(m2), o2)
        } else {
            let (m3, o3) = lit_nonblank(m2, l);
            (m3, o2 + o3)
        }
    } else {
        let (m2, o2) = if m.state != State::Rust {
            lit_enter_code(m)
        } else {
            (m, Seq::empty())
        };
        let (m3, o3) = lit_nonblank(m2, line);
        (m3, o2 + o3)
    }
}

/// What is written once the input ends: an open code block is closed.
pub open spec fn lit_finish(m: LitModel) -> Seq<char> {
    if m.state == State::Rust {
        "```"@ + seq!['\n']
    } else {
        Seq::empty()
    }
}

/// The model before the first line.
pub open spec fn lit_init() -> LitModel {
    LitModel { state: State::MarkdownFirstLine, blanks: 0, code: Seq::empty(), note: None }
}

/// Lines `lines`, read in order from `m`.
pub open spec fn lit_run(m: LitModel, lines: Seq<Seq<char>>) -> (LitModel, Seq<char>)
    decreases lines.len(),
{
    if lines.len() == 0 {
        (m, Seq::empty())
    } else {
        let (m1, o1) = lit_run(m, lines.drop_last());
        let (m2, o2) = lit_step(m1, lines.last());
        (m2, o1 + o2)
    }
}

/// Converts commented source to markdown one line at a time.
pub struct Converter {
    pub output_state: State,
    pub blank_line_count: usize,
    pub buffered_code: String,
    pub meta_note: Option<String>,
}

impl Converter {
    pub open spec fn model(&self) -> LitModel {
        LitModel {
            state: self.output_state,
            blanks: self.blank_line_count as nat,
            code: self.buffered_code@,
            note: match self.meta_note {
                None => None,
                Some(n) => Some(n@),
            },
        }
    }

    pub fn new() -> (r: Converter)
        ensures
            r.model() == lit_init(),
    {
        Converter {
            output_state: State::MarkdownFirstLine,
            blank_line_count: 0,
            buffered_code: String::new(),
            meta_note: None,
        }
    }

    /// Closes a code block left open when the input ends.
    pub fn finalize(&mut self, w: &mut String)
        ensures
            final(self).model() == old(self).model(),
            final(w)@ == old(w)@ + lit_finish(old(self).model()),
    {
        match self.output_state {
            State::Rust => self.finis_code_block(w),
            State::MarkdownFirstLine | State::MarkdownLines => {},
        }
    }

    fn finis_code_block(&mut self, w: &mut String)
        ensures
            *final(self) == *old(self),
            final(w)@ == old(w)@ + "```"@ + seq!['\n'],
    {
        w.append("```");
        w.append("\n");
        proof {
            reveal_strlit("\n");
        }
        assert(w@ =~= old(w)@ + "```"@ + seq!['\n']);
    }

    /// Writes the fence that opens a code block and forgets the attributes.
    fn start_code_block(&mut self, w: &mut String)
        ensures
            final(self).output_state == old(self).output_state,
            final(self).blank_line_count == old(self).blank_line_count,
            final(self).buffered_code@ == Seq::<char>::empty(),
            final(self).meta_note is None,
            final(w)@ == old(w)@ + fence_line(old(self).model().note),
    {
        proof {
            reveal_strlit("\n");
        }
        match &self.meta_note {
            Some(note) => {
                w.append("```rust ");
                w.append(note.as_str());
                w.append("\n");
            },
            None => {
                w.append("```rust");
                w.append("\n");
            },
        }
        assert(w@ =~= old(w)@ + fence_line(old(self).model().note));
        self.meta_note = None;
        self.buffered_code = String::new();
    }

    /// Writes the playground link named `name` for the last code block.
    fn emit_named_code(&mut self, name: &str, w: &mut String)
        ensures
            *final(self) == *old(self),
            final(w)@ == old(w)@ + "["@ + name@ + "]: "@ + play_url(old(self).buffered_code@)
                + seq!['\n'],
    {
        let url = encode_to_url(self.buffered_code.as_str());
        w.append("[");
        w.append(name);
        w.append("]: ");
        w.append(url.as_str());
        w.append("\n");
        proof {
            reveal_strlit("\n");
        }
        assert(w@ =~= old(w)@ + "["@ + name@ + "]: "@ + play_url(old(self).buffered_code@) + seq![
            '\n',
        ]);
    }

    /// Keeps `note` as the attributes of the next fence, unless a note is
    /// already pending: the first one wins.
    fn set_meta_note(&mut self, note: &str)
        ensures
            old(self).meta_note is Some ==> final(self).model() == old(self).model(),
            old(self).meta_note is None ==> final(self).model() == (LitModel {
                note: Some(note@),
                ..old(self).model()
            }),
    {
        if self.meta_note.is_none() {
            self.meta_note = Some(String::from_str(note));
        }
    }

    /// Writes a line as it is, after the pending blank lines.
    fn nonblank_line(&mut self, line: &str, w: &mut String)
        ensures
            final(self).model() == lit_nonblank(old(self).model(), line@).0,
            final(w)@ == old(w)@ + lit_nonblank(old(self).model(), line@).1,
    {
        proof {
            reveal_strlit("");
            assert(""@ =~= Seq::<char>::empty());
            reveal_strlit("\n");
        }
        push_lines(w, "", self.blank_line_count);
        if self.output_state == State::Rust {
            self.buffered_code.append("\n");
            self.buffered_code.append(line);
        }
        self.blank_line_count = 0;
        w.append(line);
        w.append("\n");
        assert(self.buffered_code@ =~= lit_nonblank(old(self).model(), line@).0.code);
        assert(w@ =~= old(w)@ + lit_nonblank(old(self).model(), line@).1);
    }

    /// Counts a blank line; inside code it also joins the code text.
    fn blank_line(&mut self)
        requires
            old(self).blank_line_count < usize::MAX,
        ensures
            final(self).model() == lit_blank(old(self).model()),
    {
        self.blank_line_count = self.blank_line_count + 1;
        if self.output_state == State::Rust {
            self.buffered_code.append("\n");
            proof {
                reveal_strlit("\n");
            }
        }
        assert(self.buffered_code@ =~= lit_blank(old(self).model()).code);
    }

    /// Moves to state `s`, writing what the move calls for.
    fn transition(&mut self, w: &mut String, s: State)
        requires
            s == State::MarkdownFirstLine ==> old(self).output_state == State::Rust,
            s == State::MarkdownLines ==> old(self).output_state == State::MarkdownFirstLine,
            s == State::Rust ==> old(self).output_state != State::Rust,
        ensures
            s != State::Rust ==> final(self).model() == lit_advance(old(self).model()).0,
            s != State::Rust ==> final(w)@ == old(w)@ + lit_advance(old(self).model()).1,
            s == State::Rust ==> final(self).model() == lit_enter_code(old(self).model()).0,
            s == State::Rust ==> final(w)@ == old(w)@ + lit_enter_code(old(self).model()).1,
    {
        proof {
            reveal_strlit("");
            assert(""@ =~= Seq::<char>::empty());
        }
        match s {
            State::MarkdownFirstLine => {
                self.finis_code_block(w);
                push_lines(w, "", self.blank_line_count);
                self.blank_line_count = 0;
            },
            State::MarkdownLines => {
                push_lines(w, "", self.blank_line_count);
                self.blank_line_count = 0;
            },
            State::Rust => {
                push_lines(w, "", self.blank_line_count);
                self.blank_line_count = 0;
                self.start_code_block(w);
            },
        }
        self.output_state = s;
        assert(w@ =~= old(w)@ + (if s == State::Rust {
            lit_enter_code(old(self).model()).1
        } else {
            lit_advance(old(self).model()).1
        }));
    }

    /// Reads one line of source and writes its markdown form to `w`.
    pub fn handle(&mut self, line: &str, w: &mut String)
        requires
            old(self).blank_line_count < usize::MAX,
        ensures
            final(self).model() == lit_step(old(self).model(), line@).0,
            final(w)@ == old(w)@ + lit_step(old(self).model(), line@).1,
    {
        let v = chars_of(line);
        let k = skip_ws(&v, 0);
        assert(v@.skip(0) =~= line@);
        assert(trim_start(line@) == v@.skip(k as int));
        if k == v.len() {
            self.blank_line();
        } else if has_prefix_at(&v, k, "//@ ") {
            proof {
                reveal_strlit("//@ ");
                assert(v@.skip(k as int).skip(4) =~= v@.skip(k + 4));
            }
            self.prose_line(line, &v, k + 4, true, w);
        } else if has_prefix_at(&v, k, "//@@@") {
            proof {
                reveal_strlit("//@@@");
                assert(v@.skip(k as int).skip(5) =~= v@.skip(k + 5));
            }
            self.name_line(&v, line, k + 5, w);
        } else if has_prefix_at(&v, k, "//@@") {
            proof {
                reveal_strlit("//@@");
                assert(v@.skip(k as int).skip(4) =~= v@.skip(k + 4));
            }
            if !blank_from(&v, k + 4) {
                let (a, b) = trim_bounds(&v, k + 4);
                self.set_meta_note(line.substring_char(a, b));
            }
        } else if has_prefix_at(&v, k, "//@") {
            proof {
                reveal_strlit("//@");
                assert(v@.skip(k as int).skip(3) =~= v@.skip(k + 3));
            }
            self.prose_line(line, &v, k + 3, false, w);
        } else {
            if self.output_state != State::Rust {
                self.transition(w, State::Rust);
            }
            self.nonblank_line(line, w);
            proof {
                assert(newlines(Seq::empty(), 0) == Seq::<char>::empty());
            }
            assert(w@ =~= old(w)@ + lit_step(old(self).model(), line@).1);
        }
    }

    /// A prose line whose text starts at index `from`; `spaced` tells a
    /// `//@ ` line, whose blank text counts before the move to prose, from a
    /// bare `//@` line, whose blank text counts after it.
    fn prose_line(&mut self, line: &str, v: &Vec<char>, from: usize, spaced: bool, w: &mut String)
        requires
            v@ == line@,
            from <= v.len(),
            old(self).blank_line_count < usize::MAX,
        ensures
            ({
                let l = v@.skip(from as int);
                let m = old(self).model();
                let m1 = if spaced && all_ws(l) {
                    lit_blank(m)
                } else {
                    m
                };
                let (m2, o2) = lit_advance(m1);
                if all_ws(l) {
                    &&& final(self).model() == (if spaced {
                        m2
                    } else {
                        lit_blank(m2)
                    })
                    &&& final(w)@ == old(w)@ + o2
                } else {
                    &&& final(self).model() == lit_nonblank(m2, l).0
                    &&& final(w)@ == old(w)@ + o2 + lit_nonblank(m2, l).1
                }
            }),
    {
        let blank = blank_from(v, from);
        if spaced && blank {
            self.blank_line();
        }
        let ghost mid = w@;
        self.advance(w);
        if blank {
            if !spaced {
                self.blank_line();
            }
        } else {
            let text = line.substring_char(from, v.len());
            assert(text@ =~= v@.skip(from as int));
            self.nonblank_line(text, w);
            assert(w@ =~= old(w)@ + (w@.subrange(old(w)@.len() as int, mid.len() as int)) + w@.skip(
                mid.len() as int,
            ));
        }
    }

    /// A `//@@@` line whose name starts at index `from`.
    fn name_line(&mut self, v: &Vec<char>, line: &str, from: usize, w: &mut String)
        requires
            v@ == line@,
            from <= v.len(),
        ensures
            ({
                let l = v@.skip(from as int);
                let m = old(self).model();
                if all_ws(l) {
                    &&& final(self).model() == m
                    &&& final(w)@ == old(w)@
                } else {
                    let (m2, o2) = lit_advance(m);
                    &&& final(self).model() == m2
                    &&& final(w)@ == old(w)@ + o2 + "["@ + trim(l) + "]: "@ + play_url(m2.code)
                        + seq!['\n']
                }
            }),
    {
        if !blank_from(v, from) {
            let (a, b) = trim_bounds(v, from);
            let name = line.substring_char(a, b);
            self.advance(w);
            self.emit_named_code(name, w);
        }
    }

    /// Converts `lines` in order, writing to `w`, and closes a code block
    /// left open at the end.
    pub fn convert(&mut self, lines: &Vec<String>, w: &mut String)
        requires
            old(self).blank_line_count + lines.len() <= usize::MAX,
        ensures
            final(self).model() == lit_run(old(self).model(), lines_view(lines@)).0,
            final(w)@ == old(w)@ + lit_run(old(self).model(), lines_view(lines@)).1 + lit_finish(
                lit_run(old(self).model(), lines_view(lines@)).0,
            ),
    {
        let ghost m0 = self.model();
        let ghost all = lines_view(lines@);
        let mut i: usize = 0;
        while i < lines.len()
            invariant
                i <= lines.len(),
                all == lines_view(lines@),
                m0 == old(self).model(),
                self.blank_line_count <= m0.blanks + i,
                m0.blanks + lines.len() <= usize::MAX,
                self.model() == lit_run(m0, all.take(i as int)).0,
                w@ == old(w)@ + lit_run(m0, all.take(i as int)).1,
            decreases lines.len() - i,
        {
            self.handle(lines[i].as_str(), w);
            proof {
                assert(all.take(i + 1).drop_last() =~= all.take(i as int));
                assert(all.take(i + 1).last() == lines@[i as int]@);
                assert(w@ =~= old(w)@ + lit_run(m0, all.take(i + 1)).1);
            }
            i = i + 1;
        }
        assert(all.take(i as int) =~= all);
        self.finalize(w);
    }

    /// Moves on to prose from whatever state the converter is in.
    fn advance(&mut self, w: &mut String)
        ensures
            final(self).model() == lit_advance(old(self).model()).0,
            final(w)@ == old(w)@ + lit_advance(old(self).model()).1,
    {
        match self.output_state {
            State::Rust => self.transition(w, State::MarkdownFirstLine),
            State::MarkdownFirstLine => self.transition(w, State::MarkdownLines),
            State::MarkdownLines => {},
        }
    }
}

} // verus!
