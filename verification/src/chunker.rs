//! The text chunker: splits page text into bounded segments, either by
//! a sliding character window or along blank-line paragraph boundaries.
//!
//! The two scans measure size differently: the window of
//! [`TextChunker::chunk`] counts characters, while the paragraph
//! accumulation of [`TextChunker::chunk_by_paragraph`] counts bytes.

use vstd::prelude::*;
use vstd::string::*;
use crate::text::{byte_len, is_blank, split_para, str_views, all_space, split_paragraphs};

verus! {

/// The windows a sliding scan of `s` emits from position `start` on:
/// each window is `size` characters (short at the end of the text), the
/// scan advances by `size - overlap`, and whitespace-only windows are
/// dropped.
pub open spec fn windows_from(s: Seq<char>, size: int, overlap: int, start: int) -> Seq<Seq<char>>
    recommends
        0 <= overlap < size,
    decreases s.len() - start
        when 0 <= overlap < size && 0 <= start
{
    if !(0 <= start < s.len()) {
        Seq::empty()
    } else if start + size >= s.len() {
        let w = s.subrange(start, s.len() as int);
        if is_blank(w) {
            Seq::empty()
        } else {
            seq![w]
        }
    } else {
        let w = s.subrange(start, start + size);
        let tail = windows_from(s, size, overlap, start + (size - overlap));
        if is_blank(w) {
            tail
        } else {
            seq![w] + tail
        }
    }
}

/// The chunks a paragraph-accumulating scan emits: paragraphs are joined
/// into `cur` (separated by a blank line, whose two bytes count against
/// the budget) while appending the next one still fits the byte budget
/// `size`; otherwise `cur` is flushed — unless it is whitespace-only —
/// and the paragraph starts a new buffer.  So every chunk stays within
/// the budget, except a single paragraph over it, which becomes its own
/// oversized chunk.
pub open spec fn para_chunks(
    paras: Seq<Seq<char>>,
    size: int,
    cur: Seq<char>,
    acc: Seq<Seq<char>>,
) -> Seq<Seq<char>>
    decreases paras.len(),
{
    if paras.len() == 0 {
        acc + if is_blank(cur) {
            Seq::empty()
        } else {
            seq![cur]
        }
    } else {
        let p = paras[0];
        let joiner: int = if cur.len() == 0 {
            0int
        } else {
            2int
        };
        if byte_len(cur) + joiner + byte_len(p) > size {
            let acc2 = acc + if is_blank(cur) {
                Seq::empty()
            } else {
                seq![cur]
            };
            para_chunks(paras.drop_first(), size, p, acc2)
        } else {
            let cur2 = if cur.len() == 0 {
                p
            } else {
                cur + seq!['\n', '\n'] + p
            };
            para_chunks(paras.drop_first(), size, cur2, acc)
        }
    }
}

/// Splits page text into bounded, optionally overlapping segments.
pub struct TextChunker {
    chunk_size: usize,
    overlap: usize,
}

impl TextChunker {
    /// The window/budget size in use.
    pub closed spec fn spec_chunk_size(&self) -> int {
        self.chunk_size as int
    }

    /// The overlap between consecutive windows of [`Self::chunk`].
    pub closed spec fn spec_overlap(&self) -> int {
        self.overlap as int
    }

    /// The overlap must stay under the window size, or the sliding scan
    /// of [`Self::chunk`] would not advance.
    pub open spec fn wf(&self) -> bool {
        0 <= self.spec_overlap() < self.spec_chunk_size()
    }

    pub fn new(chunk_size: usize, overlap: usize) -> (r: TextChunker)
        requires
            overlap < chunk_size,
        ensures
            r.spec_chunk_size() == chunk_size,
            r.spec_overlap() == overlap,
            r.wf(),
    {
        TextChunker { chunk_size, overlap }
    }

    /// Splits `text` into sliding character windows of `chunk_size`
    /// characters advancing by `chunk_size - overlap`, dropping
    /// whitespace-only windows.
    pub fn chunk(&self, text: &str) -> (r: Vec<String>)
        requires
            self.wf(),
        ensures
            str_views(r@) == windows_from(
                text@,
                self.spec_chunk_size(),
                self.spec_overlap(),
                0,
            ),
    {
        let n = text.unicode_len();
        let ghost size = self.spec_chunk_size();
        let ghost ov = self.spec_overlap();
        let mut out: Vec<String> = Vec::new();
        let mut start: usize = 0;
        proof {
            assert(str_views(out@) + windows_from(text@, size, ov, 0) =~= windows_from(
                text@,
                size,
                ov,
                0,
            ));
        }
        while start < n
            invariant
                self.wf(),
                size == self.spec_chunk_size(),
                ov == self.spec_overlap(),
                0 <= start,
                n == text@.len(),
                windows_from(text@, size, ov, 0) == str_views(out@) + windows_from(
                    text@,
                    size,
                    ov,
                    start as int,
                ),
            decreases n - start,
        {
            let end = if n - start <= self.chunk_size {
                n
            } else {
                start + self.chunk_size
            };
            let piece = text.substring_char(start, end);
            let ghost w = text@.subrange(start as int, end as int);
            if !all_space(piece) {
                out.push(piece.to_owned());
                proof {
                    assert(str_views(out@) =~= str_views(out@.drop_last()) + seq![w]);
                    assert(str_views(out@.drop_last()) + (seq![w] + windows_from(
                        text@,
                        size,
                        ov,
                        if end >= n {
                            n as int
                        } else {
                            end - ov
                        },
                    )) =~= str_views(out@) + windows_from(
                        text@,
                        size,
                        ov,
                        if end >= n {
                            n as int
                        } else {
                            end - ov
                        },
                    ));
                    assert(windows_from(text@, size, ov, n as int) =~= Seq::<Seq<char>>::empty());
                }
            } else {
                proof {
                    assert(windows_from(text@, size, ov, n as int) =~= Seq::<Seq<char>>::empty());
                }
            }
            if end >= n {
                proof {
                    assert(str_views(out@) + Seq::<Seq<char>>::empty() =~= str_views(out@));
                    assert(windows_from(text@, size, ov, n as int) =~= Seq::<Seq<char>>::empty());
                }
                start = n;
            } else {
                start = end - self.overlap;
            }
        }
        proof {
            assert(str_views(out@) + windows_from(text@, size, ov, start as int) =~= str_views(
                out@,
            ));
        }
        out
    }

    /// Splits `text` on blank-line paragraph boundaries and accumulates
    /// paragraphs into chunks of at most `chunk_size` bytes, except that
    /// a single longer paragraph becomes its own oversized chunk.
    pub fn chunk_by_paragraph(&self, text: &str) -> (r: Vec<String>)
        ensures
            str_views(r@) == para_chunks(
                split_para(text@),
                self.spec_chunk_size(),
                Seq::empty(),
                Seq::empty(),
            ),
    {
        let paras = split_paragraphs(text);
        let ghost size = self.spec_chunk_size();
        let ghost goal = para_chunks(split_para(text@), size, Seq::empty(), Seq::empty());
        let mut chunks: Vec<String> = Vec::new();
        let mut current = String::new();
        let mut k: usize = 0;
        proof {
            assert(str_views(paras@).skip(0) =~= str_views(paras@));
            assert(str_views(chunks@) =~= Seq::<Seq<char>>::empty());
        }
        while k < paras.len()
            invariant
                size == self.spec_chunk_size(),
                0 <= k <= paras.len(),
                goal == para_chunks(
                    str_views(paras@).skip(k as int),
                    size,
                    current@,
                    str_views(chunks@),
                ),
            decreases paras.len() - k,
        {
            let ghost rest = str_views(paras@).skip(k as int);
            proof {
                assert(rest[0] == paras@[k as int]@);
                assert(rest.drop_first() =~= str_views(paras@).skip(k + 1));
            }
            let para = &paras[k];
            let cur_len = current.as_str().len();
            let para_len = para.as_str().len();
            let joiner: usize = if current.as_str().is_empty() {
                0
            } else {
                2
            };
            if cur_len > self.chunk_size || joiner > self.chunk_size - cur_len || para_len
                > self.chunk_size - cur_len - joiner {
                let ghost old_chunks = chunks@;
                let ghost old_cur = current@;
                if !all_space(current.as_str()) {
                    chunks.push(current.clone());
                    proof {
                        assert(chunks@.drop_last() =~= old_chunks);
                        assert(chunks@.last()@ == old_cur);
                        assert(str_views(chunks@) =~= str_views(old_chunks) + seq![old_cur]);
                    }
                } else {
                    proof {
                        assert(str_views(chunks@) =~= str_views(old_chunks) + Seq::<
                            Seq<char>,
                        >::empty());
                    }
                }
                current = para.clone();
                proof {
                    assert(current@ == rest[0]);
                    assert(goal == para_chunks(
                        str_views(paras@).skip(k + 1),
                        size,
                        current@,
                        str_views(chunks@),
                    ));
                }
            } else {
                let ghost cur0 = current@;
                let was_empty = current.as_str().is_empty();
                if !was_empty {
                    current.append("\n\n");
                    proof {
                        reveal_strlit("\n\n");
                        assert("\n\n"@ =~= seq!['\n', '\n']);
                    }
                }
                current.append(para.as_str());
                proof {
                    if was_empty {
                        assert(cur0 =~= Seq::<char>::empty());
                        assert(current@ =~= rest[0]);
                    } else {
                        assert(current@ =~= cur0 + seq!['\n', '\n'] + rest[0]);
                    }
                    assert(goal == para_chunks(
                        str_views(paras@).skip(k + 1),
                        size,
                        current@,
                        str_views(chunks@),
                    ));
                }
            }
            k += 1;
        }
        proof {
            assert(str_views(paras@).skip(paras@.len() as int) =~= Seq::<Seq<char>>::empty());
        }
        if !all_space(current.as_str()) {
            chunks.push(current);
            proof {
                assert(str_views(chunks@) =~= str_views(chunks@.drop_last()) + seq![
                    chunks@.last()@,
                ]);
            }
        } else {
            proof {
                assert(str_views(chunks@) + Seq::<Seq<char>>::empty() =~= str_views(chunks@));
            }
        }
        chunks
    }
}

} // verus!
