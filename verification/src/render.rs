//! What each row looks like: the text pieces of one display line and the style of each,
//! padded so the trailing clear glyph "x" lands in the rightmost column - the column a
//! click clears from (see `App::click_row`).
use vstd::prelude::*;

use crate::app::App;
use crate::log::{Row, RowView};
use crate::text::{
    append_chars, lemma_split_nonempty, replace_char, replace_char_spec, split_chars, split_spec,
    str_chars, string_of,
};

verus! {

/// The styles a row's pieces are drawn in.
#[derive(Clone, Copy, PartialEq, Eq, Structural, Debug)]
pub enum Style {
    Plain,
    Dim,
    Header,
    HeaderHighlighted,
    /// A file that resolved to a path: a link.
    Item,
    ItemHighlighted,
    /// A file that did not resolve: plain, not a link.
    Unlinked,
    WarnIcon,
    Checkbox,
    CheckboxHighlighted,
    Command,
    CommandHighlighted,
    CommandDone,
    ClearIcon,
}

/// One piece of text of a display line, with its style.
pub struct Segment {
    pub text: String,
    pub style: Style,
}

impl View for Segment {
    type V = (Seq<char>, Style);

    open spec fn view(&self) -> (Seq<char>, Style) {
        (self.text@, self.style)
    }
}

/// The views of a line's segments.
pub open spec fn segments_view(s: Seq<Segment>) -> Seq<(Seq<char>, Style)> {
    s.map_values(|x: Segment| x@)
}

/// Number of characters in all the pieces.
pub open spec fn total_chars(s: Seq<(Seq<char>, Style)>) -> int
    decreases s.len(),
{
    if s.len() == 0 {
        0
    } else {
        total_chars(s.drop_last()) + s.last().0.len()
    }
}

/// `n` spaces.
pub open spec fn spaces(n: int) -> Seq<char> {
    Seq::new(n as nat, |i: int| ' ')
}

/// The pieces, then padding up to the last column of a line `width` wide, then the clear
/// glyph (which lands in the last column whenever the pieces fit before it).
pub open spec fn with_clear_glyph_spec(s: Seq<(Seq<char>, Style)>, width: int) -> Seq<
    (Seq<char>, Style),
> {
    let last_col = if width > 0 {
        width - 1
    } else {
        0
    };
    let content = total_chars(s);
    s + (if last_col > content {
        seq![(spaces(last_col - content), Style::Plain)]
    } else {
        Seq::<(Seq<char>, Style)>::empty()
    }) + seq![(seq!['x'], Style::ClearIcon)]
}

/// The warning sign shown before a flagged item.
pub open spec fn warn_piece(warn: Option<Seq<char>>) -> Seq<(Seq<char>, Style)> {
    if warn is Some {
        seq![("\u{26a0} "@, Style::WarnIcon)]
    } else {
        Seq::<(Seq<char>, Style)>::empty()
    }
}

/// How a command's text is shown on its single line: each newline becomes " ⏎ ".
pub open spec fn flat_command(c: Seq<char>) -> Seq<char> {
    replace_char_spec(c, '\n', " \u{23ce} "@)
}

/// The display line of a row. Blank rows are empty; every other row ends in the clear
/// glyph. `done` says whether the row is a command marked done.
pub open spec fn row_line_spec(row: RowView, highlighted: bool, done: bool, width: int) -> Seq<
    (Seq<char>, Style),
> {
    match row {
        RowView::Blank => Seq::<(Seq<char>, Style)>::empty(),
        RowView::GroupHeader { ts, repo } => with_clear_glyph_spec(
            seq![
                (ts, Style::Dim),
                ("  "@, Style::Plain),
                (repo, if highlighted {
                    Style::HeaderHighlighted
                } else {
                    Style::Header
                }),
            ],
            width,
        ),
        RowView::FileItem { label, abspath, warn, .. } => {
            let text = match abspath {
                Some(p) => p,
                None => label,
            };
            let style = if abspath is Some {
                if highlighted {
                    Style::ItemHighlighted
                } else {
                    Style::Item
                }
            } else {
                Style::Unlinked
            };
            with_clear_glyph_spec(
                seq![("  "@, Style::Plain)] + warn_piece(warn) + seq![(text, style)],
                width,
            )
        },
        RowView::CommandItem { command, step, warn, .. } => {
            let checkbox = if done {
                "[x] "@
            } else {
                "[ ] "@
            };
            let checkbox_style = if highlighted {
                Style::CheckboxHighlighted
            } else {
                Style::Checkbox
            };
            let text_style = if done {
                Style::CommandDone
            } else if highlighted {
                Style::CommandHighlighted
            } else {
                Style::Command
            };
            let step_piece = match step {
                Some(s) => seq![(s + ". "@, Style::Dim)],
                None => Seq::<(Seq<char>, Style)>::empty(),
            };
            with_clear_glyph_spec(
                seq![("  "@, Style::Plain), (checkbox, checkbox_style)] + warn_piece(warn)
                    + step_piece + seq![(flat_command(command), text_style)],
                width,
            )
        },
    }
}

fn segment(text: &str, style: Style) -> (r: Segment)
    ensures
        r@ == (text@, style),
{
    Segment { text: text.to_owned(), style }
}

fn push_segment(line: &mut Vec<Segment>, seg: Segment)
    ensures
        segments_view(final(line)@) == segments_view(old(line)@).push(seg@),
{
    let ghost before = line@;
    line.push(seg);
    proof {
        assert(segments_view(line@) =~= segments_view(before).push(seg@));
    }
}

/// Appends padding and the trailing clear glyph (see `with_clear_glyph_spec`).
fn with_clear_glyph(line: &mut Vec<Segment>, width: u16)
    ensures
        segments_view(final(line)@) == with_clear_glyph_spec(
            segments_view(old(line)@),
            width as int,
        ),
{
    let ghost sv = segments_view(line@);
    // Characters so far, saturating: only whether they reach the last column matters past
    // that point.
    let mut content: usize = 0;
    let mut i: usize = 0;
    proof {
        assert(sv.take(0) =~= Seq::<(Seq<char>, Style)>::empty());
    }
    while i < line.len()
        invariant
            i <= line@.len(),
            sv == segments_view(line@),
            content == (if total_chars(sv.take(i as int)) <= usize::MAX {
                total_chars(sv.take(i as int))
            } else {
                usize::MAX as int
            }),
        decreases line@.len() - i,
    {
        let n = str_chars(line[i].text.as_str()).len();
        proof {
            assert(sv.take(i + 1).drop_last() =~= sv.take(i as int));
            assert(sv.take(i + 1).last() == line@[i as int]@);
        }
        content = content.saturating_add(n);
        i += 1;
    }
    proof {
        assert(sv.take(line@.len() as int) =~= sv);
    }
    let ghost content_total = total_chars(sv);
    let last_col: usize = if width > 0 {
        (width - 1) as usize
    } else {
        0
    };
    if last_col > content {
        let mut pad = String::new();
        let mut k: usize = 0;
        while k < last_col - content
            invariant
                k <= last_col - content,
                pad@ == spaces(k as int),
            decreases last_col - content - k,
        {
            crate::text::push_char(&mut pad, ' ');
            proof {
                assert(spaces(k + 1) =~= spaces(k as int).push(' '));
            }
            k += 1;
        }
        push_segment(line, Segment { text: pad, style: Style::Plain });
        proof {
            assert(last_col - content == last_col - content_total);
        }
    }
    let ghost mid = segments_view(line@);
    push_segment(line, segment("x", Style::ClearIcon));
    proof {
        reveal_strlit("x");
        assert("x"@ =~= seq!['x']);
        if last_col > content {
            assert(mid =~= sv + seq![(spaces(last_col - content_total), Style::Plain)]);
        } else {
            assert(mid =~= sv + Seq::<(Seq<char>, Style)>::empty());
        }
    }
}

/// The display line of `row` in a list `width` columns wide (see `row_line_spec`), with
/// done-ness looked up in the panel's done marks.
pub fn render_row(row: &Row, highlighted: bool, app: &App, width: u16) -> (r: Vec<Segment>)
    ensures
        segments_view(r@) == row_line_spec(
            row@,
            highlighted,
            match row@ {
                RowView::CommandItem { key, .. } => app.done_set().contains(key),
                _ => false,
            },
            width as int,
        ),
{
    let mut line: Vec<Segment> = Vec::new();
    proof {
        assert(segments_view(line@) =~= Seq::<(Seq<char>, Style)>::empty());
    }
    match row {
        Row::Blank => {},
        Row::GroupHeader { ts, repo } => {
            push_segment(&mut line, Segment { text: ts.clone(), style: Style::Dim });
            push_segment(&mut line, segment("  ", Style::Plain));
            let style = if highlighted {
                Style::HeaderHighlighted
            } else {
                Style::Header
            };
            push_segment(&mut line, Segment { text: repo.clone(), style });
            proof {
                assert(segments_view(line@) =~= seq![
                    (ts@, Style::Dim),
                    ("  "@, Style::Plain),
                    (repo@, style),
                ]);
            }
            with_clear_glyph(&mut line, width);
        },
        Row::FileItem { label, abspath, warn, .. } => {
            let (text, style) = match abspath {
                Some(p) => (
                    p.clone(),
                    if highlighted {
                        Style::ItemHighlighted
                    } else {
                        Style::Item
                    },
                ),
                None => (label.clone(), Style::Unlinked),
            };
            push_segment(&mut line, segment("  ", Style::Plain));
            if warn.is_some() {
                push_segment(&mut line, segment("\u{26a0} ", Style::WarnIcon));
            }
            push_segment(&mut line, Segment { text, style });
            proof {
                let w = if warn is Some {
                    seq![("\u{26a0} "@, Style::WarnIcon)]
                } else {
                    Seq::<(Seq<char>, Style)>::empty()
                };
                assert(segments_view(line@) =~= seq![("  "@, Style::Plain)] + w + seq![
                    (text@, style),
                ]);
            }
            with_clear_glyph(&mut line, width);
        },
        Row::CommandItem { command, step, warn, key } => {
            let done = app.is_done(key.as_str());
            let checkbox = if done {
                "[x] "
            } else {
                "[ ] "
            };
            let checkbox_style = if highlighted {
                Style::CheckboxHighlighted
            } else {
                Style::Checkbox
            };
            let text_style = if done {
                Style::CommandDone
            } else if highlighted {
                Style::CommandHighlighted
            } else {
                Style::Command
            };
            push_segment(&mut line, segment("  ", Style::Plain));
            push_segment(&mut line, segment(checkbox, checkbox_style));
            let ghost after_box = segments_view(line@);
            if warn.is_some() {
                push_segment(&mut line, segment("\u{26a0} ", Style::WarnIcon));
            }
            let ghost after_warn = segments_view(line@);
            if let Some(s) = step {
                let mut t = s.clone();
                let dot = str_chars(". ");
                append_chars(&mut t, dot.as_slice(), 0, dot.len());
                proof {
                    assert(dot@.subrange(0, dot@.len() as int) =~= dot@);
                }
                push_segment(&mut line, Segment { text: t, style: Style::Dim });
            }
            let ghost after_step = segments_view(line@);
            let cs = str_chars(command.as_str());
            let marker = str_chars(" \u{23ce} ");
            let flat = replace_char(cs.as_slice(), '\n', marker.as_slice());
            push_segment(&mut line, Segment { text: flat, style: text_style });
            proof {
                let w = if warn is Some {
                    seq![("\u{26a0} "@, Style::WarnIcon)]
                } else {
                    Seq::<(Seq<char>, Style)>::empty()
                };
                let sp = match step {
                    Some(s) => seq![(s@ + ". "@, Style::Dim)],
                    None => Seq::<(Seq<char>, Style)>::empty(),
                };
                assert(after_box =~= seq![("  "@, Style::Plain), (checkbox@, checkbox_style)]);
                assert(after_warn =~= after_box + w);
                assert(after_step =~= after_warn + sp);
                assert(segments_view(line@) =~= seq![
                    ("  "@, Style::Plain),
                    (checkbox@, checkbox_style),
                ] + w + sp + seq![(flat_command(command@), text_style)]);
                if done {
                    assert(checkbox@ == "[x] "@);
                } else {
                    assert(checkbox@ == "[ ] "@);
                }
            }
            with_clear_glyph(&mut line, width);
        },
    }
    line
}

/// A line that ended in "\r\n" loses its '\r' along with the '\n'.
pub open spec fn strip_cr(l: Seq<char>) -> Seq<char> {
    if l.len() > 0 && l.last() == '\r' {
        l.drop_last()
    } else {
        l
    }
}

/// The lines of `s`, as `str::lines` yields them: cut at each '\n', a '\r' just before a
/// '\n' is part of the line ending, and a final line ending adds no empty last line.
pub open spec fn text_lines(s: Seq<char>) -> Seq<Seq<char>> {
    let p = split_spec(s, '\n');
    let ended = p.drop_last().map_values(|l: Seq<char>| strip_cr(l));
    if p.last().len() == 0 {
        ended
    } else {
        ended.push(p.last())
    }
}

/// The full-screen view of a command, one piece per display line: a title, a blank line,
/// the command's own lines (real line breaks, unlike its row), a blank line, how to leave.
pub open spec fn detail_lines_spec(command: Seq<char>) -> Seq<(Seq<char>, Style)> {
    seq![("command"@, Style::Header), (Seq::<char>::empty(), Style::Plain)] + text_lines(
        command,
    ).map_values(|l: Seq<char>| (l, Style::Plain)) + seq![
        (Seq::<char>::empty(), Style::Plain),
        ("Esc / Enter to dismiss"@, Style::Dim),
    ]
}

/// The lines of the full-screen view of `command` (see `detail_lines_spec`).
pub fn detail_lines(command: &str) -> (r: Vec<Segment>)
    ensures
        segments_view(r@) == detail_lines_spec(command@),
{
    let cs = str_chars(command);
    let parts = split_chars(cs.as_slice(), '\n');
    let ghost p = split_spec(cs@, '\n');
    proof {
        lemma_split_nonempty(cs@, '\n');
    }
    let mut out: Vec<Segment> = Vec::new();
    push_segment(&mut out, segment("command", Style::Header));
    push_segment(&mut out, Segment { text: String::new(), style: Style::Plain });
    let ghost head = segments_view(out@);
    let n = parts.len();
    let mut k: usize = 0;
    proof {
        assert(p.take(0).map_values(|l: Seq<char>| (strip_cr(l), Style::Plain)) =~= Seq::<
            (Seq<char>, Style),
        >::empty());
        assert(segments_view(out@) =~= head + Seq::<(Seq<char>, Style)>::empty());
    }
    while k + 1 < n
        invariant
            n == parts@.len(),
            n == p.len(),
            n >= 1,
            forall|i: int| 0 <= i < n ==> #[trigger] parts@[i]@ == p[i],
            k + 1 <= n,
            segments_view(out@) == head + p.take(k as int).map_values(
                |l: Seq<char>| (strip_cr(l), Style::Plain),
            ),
        decreases n - k,
    {
        let part = &parts[k];
        let len = part.len();
        proof {
            assert(parts@[k as int]@ == p[k as int]);
        }
        let hi = if len > 0 && part[len - 1] == '\r' {
            len - 1
        } else {
            len
        };
        let line = string_of(part.as_slice(), 0, hi);
        let ghost before = segments_view(out@);
        push_segment(&mut out, Segment { text: line, style: Style::Plain });
        proof {
            let l = p[k as int];
            if len > 0 && part@[len - 1] == '\r' {
                assert(l.subrange(0, hi as int) =~= l.drop_last());
            } else {
                assert(l.subrange(0, hi as int) =~= l);
            }
            assert(p.take(k + 1).drop_last() =~= p.take(k as int));
            assert(p.take(k + 1).map_values(|l: Seq<char>| (strip_cr(l), Style::Plain)) =~= p.take(
                k as int,
            ).map_values(|l: Seq<char>| (strip_cr(l), Style::Plain)).push((strip_cr(l), Style::Plain)));
            assert(segments_view(out@) =~= head + p.take(k + 1).map_values(
                |l: Seq<char>| (strip_cr(l), Style::Plain),
            ));
        }
        k += 1;
    }
    let ghost mid = segments_view(out@);
    let last = &parts[n - 1];
    proof {
        assert(parts@[n - 1]@ == p[n - 1]);
        assert(p.take(n - 1) =~= p.drop_last());
    }
    if last.len() > 0 {
        let line = string_of(last.as_slice(), 0, last.len());
        proof {
            assert(last@.subrange(0, last@.len() as int) =~= last@);
        }
        push_segment(&mut out, Segment { text: line, style: Style::Plain });
    }
    let ghost body = segments_view(out@);
    push_segment(&mut out, Segment { text: String::new(), style: Style::Plain });
    push_segment(&mut out, segment("Esc / Enter to dismiss", Style::Dim));
    proof {
        let lines = text_lines(cs@);
        let ended = p.drop_last().map_values(|l: Seq<char>| strip_cr(l));
        assert(p.drop_last().map_values(|l: Seq<char>| (strip_cr(l), Style::Plain))
            =~= ended.map_values(|l: Seq<char>| (l, Style::Plain)));
        if p.last().len() == 0 {
            assert(body =~= head + lines.map_values(|l: Seq<char>| (l, Style::Plain)));
        } else {
            assert(lines.map_values(|l: Seq<char>| (l, Style::Plain)) =~= ended.map_values(
                |l: Seq<char>| (l, Style::Plain),
            ).push((p.last(), Style::Plain)));
            assert(body =~= head + lines.map_values(|l: Seq<char>| (l, Style::Plain)));
        }
        assert(segments_view(out@) =~= detail_lines_spec(cs@));
    }
    out
}

} // verus!
