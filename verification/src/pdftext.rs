//! Plain-text extraction helpers around page rendering: pulling text
//! runs out of a PDF content stream, dressing extracted text up as
//! Markdown, and splitting a converter's Markdown output into pages.

use vstd::prelude::*;
use vstd::string::*;
use crate::text::{
    byte_len, contains_seq, contains_str, first_idx, has_prefix, is_blank, last_idx,
    lemma_first_idx, lemma_first_idx_none, lemma_last_idx, lemma_last_idx_none, split_lines,
    split_lines_vec, starts_with_str, str_views, trim_spec, trim_str, find_char, rfind_char,
};

verus! {

/// What one content-stream line contributes: for a line with a `Tj` or
/// `TJ` text-showing operator, the span between its first `(` and last
/// `)` plus a newline; nothing otherwise (or when no such span exists).
pub open spec fn tj_text(l: Seq<char>) -> Seq<char> {
    if contains_seq(l, "Tj"@) || contains_seq(l, "TJ"@) {
        match (first_idx(l, '('), last_idx(l, ')')) {
            (Some(a), Some(b)) => if a + 1 <= b {
                l.subrange(a + 1, b) + "\n"@
            } else {
                Seq::empty()
            },
            _ => Seq::empty(),
        }
    } else {
        Seq::empty()
    }
}

/// The text runs of a whole content stream, line by line.
pub open spec fn extracted_text(lines: Seq<Seq<char>>) -> Seq<char>
    decreases lines.len(),
{
    if lines.len() == 0 {
        Seq::empty()
    } else {
        extracted_text(lines.drop_last()) + tj_text(lines.last())
    }
}

/// Collects the parenthesized text runs of the `Tj`/`TJ` lines of a PDF
/// page's content stream, one per line.  A crude reading of the stream:
/// escapes and multi-operator lines are beyond it.
pub fn extract_pdf_text(content: &str) -> (r: String)
    ensures
        r@ == extracted_text(split_lines(content@)),
{
    let lines = split_lines_vec(content);
    let ghost lvs = str_views(lines@);
    let n = lines.len();
    let mut out = String::new();
    let mut i: usize = 0;
    proof {
        assert(lvs.take(0) =~= Seq::<Seq<char>>::empty());
        assert(out@ =~= extracted_text(lvs.take(0)));
    }
    while i < n
        invariant
            0 <= i <= n,
            n == lines@.len(),
            lvs == str_views(lines@),
            out@ == extracted_text(lvs.take(i as int)),
        decreases n - i,
    {
        proof {
            assert(lvs.take(i + 1).drop_last() =~= lvs.take(i as int));
            assert(lvs.take(i + 1).last() == lines@[i as int]@);
        }
        let line = &lines[i];
        if contains_str(line.as_str(), "Tj") || contains_str(line.as_str(), "TJ") {
            let ln = line.as_str().unicode_len();
            let open = find_char(line.as_str(), '(');
            let close = rfind_char(line.as_str(), ')');
            proof {
                match open {
                    Some(j) => lemma_first_idx(line@, '(', j as int),
                    None => lemma_first_idx_none(line@, '('),
                }
                match close {
                    Some(j) => lemma_last_idx(line@, ')', j as int),
                    None => lemma_last_idx_none(line@, ')'),
                }
            }
            match (open, close) {
                (Some(a), Some(b)) => {
                    if b > a {
                        out.append(line.as_str().substring_char(a + 1, b));
                        out.append("\n");
                        proof {
                            assert(out@ =~= extracted_text(lvs.take(i as int)) + tj_text(
                                lines@[i as int]@,
                            ));
                        }
                    } else {
                        proof {
                            assert(tj_text(lines@[i as int]@) =~= Seq::<char>::empty());
                            assert(out@ =~= extracted_text(lvs.take(i as int)) + tj_text(
                                lines@[i as int]@,
                            ));
                        }
                    }
                },
                _ => {
                    proof {
                        assert(tj_text(lines@[i as int]@) =~= Seq::<char>::empty());
                        assert(out@ =~= extracted_text(lvs.take(i as int)) + tj_text(
                            lines@[i as int]@,
                        ));
                    }
                },
            }
        } else {
            proof {
                assert(tj_text(lines@[i as int]@) =~= Seq::<char>::empty());
                assert(out@ =~= extracted_text(lvs.take(i as int)) + tj_text(lines@[i as int]@));
            }
        }
        i += 1;
    }
    proof {
        assert(lvs.take(n as int) =~= lvs);
    }
    out
}

/// What one trimmed line becomes in the Markdown rendering: a blank
/// line turns into a paragraph break; a short line (under 50 bytes, not
/// ending in a fullwidth stop or a comma) that announces a chapter or a
/// section becomes a heading; everything else passes through.
pub open spec fn formatted_line(t: Seq<char>) -> Seq<char> {
    if t.len() == 0 {
        "\n\n"@
    } else if byte_len(t) < 50 && t.last() != '。' && t.last() != ',' && has_prefix(t, "第"@) && (
    contains_seq(t, "章"@) || contains_seq(t, "节"@)) {
        "## "@ + t + "\n\n"@
    } else {
        t + "\n"@
    }
}

/// The Markdown rendering of extracted text, line by line.
pub open spec fn formatted_text(lines: Seq<Seq<char>>) -> Seq<char>
    decreases lines.len(),
{
    if lines.len() == 0 {
        Seq::empty()
    } else {
        formatted_text(lines.drop_last()) + formatted_line(trim_spec(lines.last()))
    }
}

/// Dresses extracted plain text up as Markdown: lines are trimmed,
/// blank lines become paragraph breaks, and short chapter/section
/// announcements become headings.
pub fn format_as_markdown(text: &str) -> (r: String)
    ensures
        r@ == formatted_text(split_lines(text@)),
{
    let lines = split_lines_vec(text);
    let ghost lvs = str_views(lines@);
    let n = lines.len();
    let mut out = String::new();
    let mut i: usize = 0;
    proof {
        assert(lvs.take(0) =~= Seq::<Seq<char>>::empty());
        assert(out@ =~= formatted_text(lvs.take(0)));
    }
    while i < n
        invariant
            0 <= i <= n,
            n == lines@.len(),
            lvs == str_views(lines@),
            out@ == formatted_text(lvs.take(i as int)),
        decreases n - i,
    {
        proof {
            assert(lvs.take(i + 1).drop_last() =~= lvs.take(i as int));
            assert(lvs.take(i + 1).last() == lines@[i as int]@);
        }
        let trimmed = trim_str(lines[i].as_str());
        let tn = trimmed.unicode_len();
        if tn == 0 {
            out.append("\n\n");
        } else {
            let heading = trimmed.len() < 50 && trimmed.get_char(tn - 1) != '。'
                && trimmed.get_char(tn - 1) != ',' && starts_with_str(trimmed, "第") && (
            contains_str(trimmed, "章") || contains_str(trimmed, "节"));
            if heading {
                out.append("## ");
                out.append(trimmed);
                out.append("\n\n");
            } else {
                out.append(trimmed);
                out.append("\n");
            }
        }
        proof {
            assert(out@ =~= formatted_text(lvs.take(i as int)) + formatted_line(
                trim_spec(lines@[i as int]@),
            ));
        }
        i += 1;
    }
    proof {
        assert(lvs.take(n as int) =~= lvs);
    }
    out
}

/// A page-separator line of a converter's Markdown output: it starts
/// with three dashes and mentions `Page`.
pub open spec fn is_page_separator(l: Seq<char>) -> bool {
    has_prefix(l, "---"@) && contains_seq(l, "Page"@)
}

/// The pages between separator lines, the current page's text collected
/// in `cur` (each line with its newline restored).
pub open spec fn md_pages(
    lines: Seq<Seq<char>>,
    cur: Seq<char>,
    acc: Seq<Seq<char>>,
) -> Seq<Seq<char>>
    decreases lines.len(),
{
    if lines.len() == 0 {
        acc + if cur.len() > 0 {
            seq![cur]
        } else {
            Seq::empty()
        }
    } else if is_page_separator(lines[0]) {
        md_pages(
            lines.drop_first(),
            Seq::empty(),
            acc + if cur.len() > 0 {
                seq![cur]
            } else {
                Seq::empty()
            },
        )
    } else {
        md_pages(lines.drop_first(), cur + lines[0] + "\n"@, acc)
    }
}

/// What `split_markdown_by_pages` returns: the content split at page
/// separators, or — with no separator and no content line — the whole
/// content as a single page.
pub open spec fn md_pages_of(s: Seq<char>) -> Seq<Seq<char>> {
    let pages = md_pages(split_lines(s), Seq::empty(), Seq::empty());
    if pages.len() == 0 {
        seq![s]
    } else {
        pages
    }
}

/// Splits a converter's Markdown output at its page-marker lines
/// (`---` … `Page` …).  Output with no marker comes back whole, as one
/// page.
pub fn split_markdown_by_pages(content: &str) -> (r: Vec<String>)
    ensures
        str_views(r@) == md_pages_of(content@),
{
    let lines = split_lines_vec(content);
    let ghost lvs = str_views(lines@);
    let ghost goal = md_pages(lvs, Seq::empty(), Seq::empty());
    let n = lines.len();
    let mut pages: Vec<String> = Vec::new();
    let mut current = String::new();
    let mut i: usize = 0;
    proof {
        assert(lvs.skip(0) =~= lvs);
        assert(str_views(pages@) =~= Seq::<Seq<char>>::empty());
    }
    while i < n
        invariant
            0 <= i <= n,
            n == lines@.len(),
            lvs == str_views(lines@),
            goal == md_pages(lvs.skip(i as int), current@, str_views(pages@)),
        decreases n - i,
    {
        let ghost rest = lvs.skip(i as int);
        proof {
            assert(rest[0] == lines@[i as int]@);
            assert(rest.drop_first() =~= lvs.skip(i + 1));
        }
        let line = &lines[i];
        if starts_with_str(line.as_str(), "---") && contains_str(line.as_str(), "Page") {
            let ghost old_pages = str_views(pages@);
            let ghost old_cur = current@;
            if !current.as_str().is_empty() {
                pages.push(current);
                proof {
                    assert(str_views(pages@) =~= old_pages + seq![old_cur]);
                }
                current = String::new();
            } else {
                proof {
                    assert(old_cur =~= Seq::<char>::empty());
                    assert(str_views(pages@) =~= old_pages + Seq::<Seq<char>>::empty());
                }
            }
            proof {
                assert(current@ =~= Seq::<char>::empty());
            }
        } else {
            current.append(line.as_str());
            current.append("\n");
        }
        i += 1;
    }
    proof {
        assert(lvs.skip(n as int) =~= Seq::<Seq<char>>::empty());
    }
    let ghost flushed = str_views(pages@);
    let ghost last_cur = current@;
    if !current.as_str().is_empty() {
        pages.push(current);
        proof {
            assert(str_views(pages@) =~= flushed + seq![last_cur]);
        }
    } else {
        proof {
            assert(last_cur =~= Seq::<char>::empty());
            assert(str_views(pages@) =~= flushed + Seq::<Seq<char>>::empty());
        }
    }
    if pages.len() == 0 {
        pages.push(content.to_owned());
        proof {
            assert(goal =~= Seq::<Seq<char>>::empty());
            assert(str_views(pages@) =~= seq![content@]);
        }
    } else {
        proof {
            assert(str_views(pages@) =~= goal);
        }
    }
    pages
}

} // verus!
