//! Literate markdown to commented source: prose lines get a `//@ ` prefix,
//! fenced code blocks become bare code, fence attributes become `//@@`
//! lines and playground links become `//@@@` block names.

use vstd::prelude::*;
use crate::errors::{Warning, warning_view};
use crate::permalink::{encode_to_url, play_url};
use crate::text::{lines_view, chars_of, find, find_first, has_prefix, has_prefix_at, newlines, occurs_at, push_lines};

verus! {

broadcast use vstd::string::group_string_axioms;

/// Where the converter stands in the markdown it reads.
#[derive(Clone, Copy, PartialEq, Eq, Structural, Debug)]
pub enum State {
    /// Nothing pending: the start, or just after a code block.
    MarkdownBlank,
    /// Inside prose.
    MarkdownText,
    /// Writing the attributes of a fence that is being opened.
    MarkdownMeta,
    /// Inside a fenced code block.
    Rust,
}

/// What the converter remembers between lines.
pub ghost struct SrcModel {
    pub state: State,
    /// Blank lines read and not yet written.
    pub blanks: nat,
    /// The text of the current or last code block, a newline before each line.
    pub code: Seq<char>,
    /// Mismatching links seen so far, as (actual, expected).
    pub warnings: Seq<(Seq<char>, Seq<char>)>,
}

pub open spec fn fence_open() -> Seq<char> {
    "```rust"@
}

pub open spec fn fence_close() -> Seq<char> {
    "```"@
}

/// What follows the name of a playground link.
pub open spec fn link_marker() -> Seq<char> {
    "]: https://play.rust-lang.org/?code="@
}

/// The bounds of the name in a line `[name]: <playground link>`, where the
/// first `[` comes before the marker with at least one character between.
pub open spec fn link_name_bounds(line: Seq<char>) -> Option<(int, int)> {
    match (find_first(line, "["@), find_first(line, link_marker())) {
        (Some(o), Some(c)) => if o + 1 < c {
            Some((o + 1, c))
        } else {
            None
        },
        _ => None,
    }
}

/// The line written for each pending blank line before a line in `s`.
pub open spec fn blank_prefix(s: State) -> Seq<char> {
    match s {
        State::MarkdownText | State::MarkdownMeta => "//@"@,
        _ => Seq::empty(),
    }
}

/// The prefix of a non-blank line written in state `s`.
pub open spec fn line_prefix(s: State) -> Seq<char> {
    match s {
        State::MarkdownBlank | State::MarkdownText => "//@ "@,
        State::MarkdownMeta => "//@@"@,
        State::Rust => Seq::empty(),
    }
}

/// Writing a non-blank line: the pending blank lines first, then the line
/// with the prefix of the state.
pub open spec fn src_nonblank(m: SrcModel, line: Seq<char>) -> (SrcModel, Seq<char>) {
    (
        SrcModel {
            state: if m.state == State::MarkdownBlank {
                State::MarkdownText
            } else {
                m.state
            },
            blanks: 0,
            code: if m.state == State::Rust {
                m.code + seq!['\n'] + line
            } else {
                m.code
            },
            warnings: m.warnings,
        },
        newlines(blank_prefix(m.state), m.blanks) + line_prefix(m.state) + line + seq!['\n'],
    )
}

/// Reading a blank line: it is only counted, and kept in the code text.
pub open spec fn src_blank(m: SrcModel) -> SrcModel {
    SrcModel {
        state: m.state,
        blanks: m.blanks + 1,
        code: if m.state == State::Rust {
            m.code.push('\n')
        } else {
            m.code
        },
        warnings: m.warnings,
    }
}

/// One line of markdown: the new model and the source text written.
pub open spec fn src_step(m: SrcModel, line: Seq<char>) -> (SrcModel, Seq<char>) {
    if (m.state == State::MarkdownBlank || m.state == State::MarkdownText) && has_prefix(
        line,
        fence_open(),
    ) {
        let rest = line.skip(7);
        if rest.len() > 0 {
            (
                SrcModel { state: State::Rust, blanks: 0, code: Seq::empty(), warnings: m.warnings },
                newlines(Seq::empty(), m.blanks) + "//@@"@ + rest + seq!['\n'],
            )
        } else {
            (
                SrcModel {
                    state: State::Rust,
                    blanks: m.blanks,
                    code: Seq::empty(),
                    warnings: m.warnings,
                },
                Seq::empty(),
            )
        }
    } else if m.state == State::Rust && line == fence_close() {
        (
            SrcModel { state: State::MarkdownBlank, blanks: 0, code: m.code, warnings: m.warnings },
            newlines(Seq::empty(), m.blanks),
        )
    } else if line.len() == 0 {
        (src_blank(m), Seq::empty())
    } else {
        match link_name_bounds(line) {
            Some((a, b)) => {
                let expect = play_url(m.code);
                let actual = line.skip(b + 3);
                (
                    SrcModel {
                        state: m.state,
                        blanks: m.blanks,
                        code: m.code,
                        warnings: if expect == actual {
                            m.warnings
                        } else {
                            m.warnings.push((actual, expect))
                        },
                    },
                    "//@@@ "@ + line.subrange(a, b) + seq!['\n'],
                )
            },
            None => src_nonblank(m, line),
        }
    }
}

/// The model before the first line.
pub open spec fn src_init() -> SrcModel {
    SrcModel { state: State::MarkdownBlank, blanks: 0, code: Seq::empty(), warnings: Seq::empty() }
}

/// Lines `lines`, read in order from `m`.
pub open spec fn src_run(m: SrcModel, lines: Seq<Seq<char>>) -> (SrcModel, Seq<char>)
    decreases lines.len(),
{
    if lines.len() == 0 {
        (m, Seq::empty())
    } else {
        let (m1, o1) = src_run(m, lines.drop_last());
        let (m2, o2) = src_step(m1, lines.last());
        (m2, o1 + o2)
    }
}

/// `n` empty lines.
pub open spec fn blank_lines(n: nat) -> Seq<Seq<char>> {
    Seq::new(n, |i: int| Seq::<char>::empty())
}

/// Empty lines are only counted, and inside code kept in the code text.
pub proof fn lemma_blank_run(m: SrcModel, n: nat)
    ensures
        src_run(m, blank_lines(n)).1 == Seq::<char>::empty(),
        src_run(m, blank_lines(n)).0 == (SrcModel {
            state: m.state,
            blanks: m.blanks + n,
            code: if m.state == State::Rust {
                m.code + newlines(Seq::empty(), n)
            } else {
                m.code
            },
            warnings: m.warnings,
        }),
    decreases n,
{
    reveal_strlit("```rust");
    reveal_strlit("```");
    if n > 0 {
        assert(blank_lines(n).drop_last() =~= blank_lines((n - 1) as nat));
        lemma_blank_run(m, (n - 1) as nat);
        let e = Seq::<char>::empty();
        assert(blank_lines(n).last() == e);
        assert(!has_prefix(e, fence_open()));
        assert(e != fence_close());
        assert(m.code + newlines(Seq::empty(), (n - 1) as nat) + seq!['\n'] =~= m.code + newlines(
            Seq::empty(),
            n,
        ));
        assert(Seq::<char>::empty() + Seq::<char>::empty() =~= Seq::<char>::empty());
    } else {
        assert(blank_lines(0) =~= Seq::<Seq<char>>::empty());
    }
}

/// A run of `n` empty lines between two lines of prose reaches the source
/// as `n` bare `//@` lines, and between two lines of code as `n` empty
/// lines, written when the line after the run arrives.
pub proof fn blank_runs_keep_their_length(m: SrcModel, n: nat, line: Seq<char>)
    requires
        m.blanks == 0,
        m.state == State::MarkdownText || m.state == State::Rust,
        line.len() > 0,
        link_name_bounds(line) is None,
        m.state == State::MarkdownText ==> !has_prefix(line, fence_open()),
        m.state == State::Rust ==> line != fence_close(),
    ensures
        m.state == State::MarkdownText ==> src_run(m, blank_lines(n).push(line)).1 == newlines(
            "//@"@,
            n,
        ) + "//@ "@ + line + seq!['\n'],
        m.state == State::Rust ==> src_run(m, blank_lines(n).push(line)).1 == newlines(
            Seq::empty(),
            n,
        ) + line + seq!['\n'],
{
    let all = blank_lines(n).push(line);
    assert(all.drop_last() =~= blank_lines(n));
    lemma_blank_run(m, n);
    assert(Seq::<char>::empty() + Seq::<char>::empty() =~= Seq::<char>::empty());
    assert(newlines(Seq::empty(), n) + Seq::<char>::empty() + line + seq!['\n'] =~= newlines(
        Seq::empty(),
        n,
    ) + line + seq!['\n']);
}

/// Converts markdown to commented source one line at a time.
pub struct Converter {
    pub state: State,
    pub blank_line_count: usize,
    pub buffered_lines: String,
    pub warnings: Vec<Warning>,
}

/// How a conversion ended when it did not end cleanly.
#[derive(Debug)]
pub enum Exception {
    IoError(std::io::Error),
    Warnings(Vec<Warning>),
}

impl Converter {
    pub open spec fn model(&self) -> SrcModel {
        SrcModel {
            state: self.state,
            blanks: self.blank_line_count as nat,
            code: self.buffered_lines@,
            warnings: self.warnings@.map_values(|w: Warning| warning_view(w)),
        }
    }

    /// Between lines the converter is never in the middle of a fence.
    pub open spec fn wf(&self) -> bool {
        self.state != State::MarkdownMeta
    }

    pub fn new() -> (r: Converter)
        ensures
            r.model() == src_init(),
            r.wf(),
    {
        let r = Converter {
            state: State::MarkdownBlank,
            blank_line_count: 0,
            buffered_lines: String::new(),
            warnings: Vec::new(),
        };
        assert(r.model().warnings =~= Seq::<(Seq<char>, Seq<char>)>::empty());
        r
    }

    /// Reads one line of markdown and writes its source form to `w`.
    pub fn handle(&mut self, line: &str, w: &mut String)
        requires
            old(self).wf(),
            old(self).blank_line_count < usize::MAX,
        ensures
            final(self).wf(),
            final(self).model() == src_step(old(self).model(), line@).0,
            final(w)@ == old(w)@ + src_step(old(self).model(), line@).1,
    {
        let v = chars_of(line);
        assert(v@.skip(0) =~= v@);
        let opens = has_prefix_at(&v, 0, "```rust");
        let closes = v.len() == 3 && has_prefix_at(&v, 0, "```");
        proof {
            reveal_strlit("```");
            if v.len() == 3 && has_prefix(v@, fence_close()) {
                assert(v@ =~= v@.take(3));
            }
        }
        if (self.state == State::MarkdownBlank || self.state == State::MarkdownText) && opens {
            self.open_fence(line, &v, w);
        } else if self.state == State::Rust && closes {
            self.transition(w, State::MarkdownBlank);
        } else if v.len() == 0 {
            self.blank_line();
        } else {
            self.text_line(line, &v, w);
        }
    }

    /// A fence opens: its attributes, if any, become a `//@@` line.
    fn open_fence(&mut self, line: &str, v: &Vec<char>, w: &mut String)
        requires
            old(self).state == State::MarkdownBlank || old(self).state == State::MarkdownText,
            v@ == line@,
            has_prefix(line@, fence_open()),
        ensures
            final(self).wf(),
            final(self).model() == src_step(old(self).model(), line@).0,
            final(w)@ == old(w)@ + src_step(old(self).model(), line@).1,
    {
        proof {
            reveal_strlit("```rust");
        }
        self.buffered_lines = String::new();
        if v.len() > 7 {
            let rest = line.substring_char(7, v.len());
            assert(rest@ =~= line@.skip(7));
            self.transition(w, State::MarkdownMeta);
            self.meta_note(rest, w);
        }
        self.transition(w, State::Rust);
        proof {
            assert(newlines(Seq::empty(), 0) == Seq::<char>::empty());
            if v.len() > 7 {
                assert(w@ =~= old(w)@ + src_step(old(self).model(), line@).1);
            } else {
                assert(line@.skip(7).len() == 0);
                assert(w@ =~= old(w)@ + src_step(old(self).model(), line@).1);
            }
        }
    }

    /// A non-blank line that neither opens nor closes a fence.
    fn text_line(&mut self, line: &str, v: &Vec<char>, w: &mut String)
        requires
            old(self).wf(),
            v@ == line@,
            v@.len() > 0,
        ensures
            final(self).wf(),
            final(self).model() == (match link_name_bounds(line@) {
                Some((a, b)) => {
                    let expect = play_url(old(self).model().code);
                    let actual = line@.skip(b + 3);
                    SrcModel {
                        state: old(self).model().state,
                        blanks: old(self).model().blanks,
                        code: old(self).model().code,
                        warnings: if expect == actual {
                            old(self).model().warnings
                        } else {
                            old(self).model().warnings.push((actual, expect))
                        },
                    }
                },
                None => src_nonblank(old(self).model(), line@).0,
            }),
            final(w)@ == old(w)@ + (match link_name_bounds(line@) {
                Some((a, b)) => "//@@@ "@ + line@.subrange(a, b) + seq!['\n'],
                None => src_nonblank(old(self).model(), line@).1,
            }),
    {
        proof {
            reveal_strlit("[");
            reveal_strlit("]: https://play.rust-lang.org/?code=");
        }
        let open_pat = chars_of("[");
        let close_pat = chars_of("]: https://play.rust-lang.org/?code=");
        assert(open_pat@.len() == 1 && close_pat@.len() > 3);
        let open = find(v, &open_pat);
        let close = find(v, &close_pat);
        match (open, close) {
            (Some(o), Some(c)) => {
                assert(occurs_at(v@, open_pat@, o as int) && occurs_at(v@, close_pat@, c as int));
                assert(o < v.len() && c + 3 <= v.len());
                if o + 1 < c {
                    let expect = encode_to_url(self.buffered_lines.as_str());
                    let actual = line.substring_char(c + 3, v.len()).to_string();
                    assert(actual@ =~= line@.skip(c + 3));
                    let ghost old_warnings = self.warnings@;
                    if expect != actual {
                        let warning = Warning::EncodedUrlMismatch { actual, expect };
                        self.warnings.push(warning);
                        assert(self.warnings@.map_values(|w: Warning| warning_view(w))
                            =~= old_warnings.map_values(|w: Warning| warning_view(w)).push(
                            (line@.skip(c + 3), play_url(old(self).model().code)),
                        ));
                    }
                    let name = line.substring_char(o + 1, c);
                    self.name_block(line, name, w);
                } else {
                    self.nonblank_line(line, w);
                }
            },
            _ => {
                self.nonblank_line(line, w);
            },
        }
    }

    /// Converts `lines` in order, writing to `w`; the warnings gathered on
    /// the way, if any, are the error.
    pub fn convert(self, lines: &Vec<String>, w: &mut String) -> (r: Result<(), Exception>)
        requires
            self.wf(),
            self.blank_line_count + lines.len() <= usize::MAX,
        ensures
            final(w)@ == old(w)@ + src_run(self.model(), lines_view(lines@)).1,
            src_run(self.model(), lines_view(lines@)).0.warnings.len() == 0 ==> r is Ok,
            src_run(self.model(), lines_view(lines@)).0.warnings.len() > 0 ==> (r matches Err(
                Exception::Warnings(ws),
            ) && ws@.map_values(|x: Warning| warning_view(x)) == src_run(
                self.model(),
                lines_view(lines@),
            ).0.warnings),
    {
        let ghost m0 = self.model();
        let ghost all = lines_view(lines@);
        let mut c = self;
        let mut i: usize = 0;
        while i < lines.len()
            invariant
                i <= lines.len(),
                all == lines_view(lines@),
                c.wf(),
                c.blank_line_count <= m0.blanks + i,
                m0.blanks + lines.len() <= usize::MAX,
                c.model() == src_run(m0, all.take(i as int)).0,
                w@ == old(w)@ + src_run(m0, all.take(i as int)).1,
            decreases lines.len() - i,
        {
            let ghost before = w@;
            c.handle(lines[i].as_str(), w);
            proof {
                assert(all.take(i + 1).drop_last() =~= all.take(i as int));
                assert(all.take(i + 1).last() == lines@[i as int]@);
                assert(w@ =~= old(w)@ + src_run(m0, all.take(i + 1)).1);
            }
            i = i + 1;
        }
        assert(all.take(i as int) =~= all);
        if c.warnings.len() == 0 {
            Ok(())
        } else {
            Err(Exception::Warnings(c.warnings))
        }
    }

    /// Writes a fence attribute line.
    pub fn meta_note(&mut self, note: &str, w: &mut String)
        requires
            note@.len() > 0,
        ensures
            final(self).model() == src_nonblank(old(self).model(), note@).0,
            final(w)@ == old(w)@ + src_nonblank(old(self).model(), note@).1,
    {
        self.nonblank_line(note, w)
    }

    /// Writes the block name of a playground link.
    pub fn name_block(&mut self, _line: &str, name: &str, w: &mut String)
        requires
            name@.len() > 0,
        ensures
            *final(self) == *old(self),
            final(w)@ == old(w)@ + "//@@@ "@ + name@ + seq!['\n'],
    {
        w.append("//@@@ ");
        w.append(name);
        w.append("\n");
        proof {
            reveal_strlit("\n");
        }
        assert(w@ =~= old(w)@ + "//@@@ "@ + name@ + seq!['\n']);
    }

    /// Writes a non-blank line, after the blank lines pending before it.
    pub fn nonblank_line(&mut self, line: &str, w: &mut String)
        ensures
            final(self).model() == src_nonblank(old(self).model(), line@).0,
            final(w)@ == old(w)@ + src_nonblank(old(self).model(), line@).1,
            final(self).warnings@ == old(self).warnings@,
    {
        let (blank_prefix, line_prefix) = match self.state {
            State::MarkdownBlank => ("", "//@ "),
            State::MarkdownText => ("//@", "//@ "),
            State::MarkdownMeta => ("//@", "//@@"),
            State::Rust => ("", ""),
        };
        proof {
            reveal_strlit("");
            assert(""@ =~= Seq::<char>::empty());
        }
        assert(blank_prefix@ == crate::md2rs::blank_prefix(self.state));
        assert(line_prefix@ == crate::md2rs::line_prefix(self.state));
        push_lines(w, blank_prefix, self.blank_line_count);
        self.blank_line_count = 0;
        match self.state {
            State::MarkdownBlank => self.transition(w, State::MarkdownText),
            State::MarkdownMeta => {},
            State::MarkdownText => {},
            State::Rust => {
                self.buffered_lines.append("\n");
                self.buffered_lines.append(line);
            },
        }
        w.append(line_prefix);
        w.append(line);
        w.append("\n");
        proof {
            reveal_strlit("\n");
            assert(newlines(Seq::empty(), 0) == Seq::<char>::empty());
        }
        assert(self.buffered_lines@ =~= src_nonblank(old(self).model(), line@).0.code);
        assert(w@ =~= old(w)@ + src_nonblank(old(self).model(), line@).1);
    }

    /// Counts a blank line; inside code it also joins the code text.
    fn blank_line(&mut self)
        requires
            old(self).blank_line_count < usize::MAX,
        ensures
            final(self).model() == src_blank(old(self).model()),
    {
        if self.state == State::Rust {
            self.buffered_lines.append("\n");
            proof {
                reveal_strlit("\n");
            }
        }
        self.blank_line_count = self.blank_line_count + 1;
        assert(self.buffered_lines@ =~= src_blank(old(self).model()).code);
    }

    /// Writes the pending blank lines as empty lines.
    fn finish_section(&mut self, w: &mut String)
        ensures
            final(self).state == old(self).state,
            final(self).blank_line_count == 0,
            final(self).buffered_lines == old(self).buffered_lines,
            final(self).warnings == old(self).warnings,
            final(w)@ == old(w)@ + newlines(Seq::empty(), old(self).blank_line_count as nat),
    {
        proof {
            reveal_strlit("");
            assert(""@ =~= Seq::<char>::empty());
        }
        push_lines(w, "", self.blank_line_count);
        self.blank_line_count = 0;
    }

    /// Moves to state `s`, writing what the move calls for.
    fn transition(&mut self, w: &mut String, s: State)
        requires
            s == State::MarkdownMeta ==> old(self).state != State::Rust,
            s == State::Rust ==> old(self).state != State::Rust,
            s == State::MarkdownText ==> old(self).state == State::MarkdownBlank,
            s == State::MarkdownBlank ==> old(self).state == State::Rust,
        ensures
            final(self).state == s,
            final(self).warnings == old(self).warnings,
            s == State::Rust ==> final(self).buffered_lines@ == Seq::<char>::empty()
                && final(self).blank_line_count == old(self).blank_line_count && final(w)@ == old(
                w,
            )@,
            s != State::Rust ==> final(self).buffered_lines == old(self).buffered_lines
                && final(self).blank_line_count == 0 && final(w)@ == old(w)@ + newlines(
                Seq::empty(),
                old(self).blank_line_count as nat,
            ),
    {
        match s {
            State::MarkdownMeta => {
                self.finish_section(w);
            },
            State::Rust => {
                self.buffered_lines = String::new();
            },
            State::MarkdownText => {
                self.finish_section(w);
            },
            State::MarkdownBlank => {
                self.finish_section(w);
            },
        }
        self.state = s;
    }
}

} // verus!
