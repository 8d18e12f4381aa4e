//! Content analysis over file bytes: the text heuristic, decoding through
//! the detection engines, preview extraction, word and line counts, and
//! query snippets. The shell reads the bytes; everything here is a pure
//! function of them.
use vstd::prelude::*;

use crate::encoding::{decode_bytes, decoded_text, detect_encoding_name, detected_encoding,
    is_likely_text, likely_text_spec};
use crate::text::{chars_of, contains_seq, find_first, lower, lower_vec, matches_at,
    string_of, sub_vec};
use crate::types::ContentPreview;

verus! {

/// Whitespace-separated word count of a character sequence.
pub open spec fn word_count_spec(s: Seq<char>) -> int {
    crate::text::split_ws(s).len() as int
}

/// Number of newline characters in a sequence.
pub open spec fn newline_count(s: Seq<char>) -> int
    decreases s.len(),
{
    if s.len() == 0 {
        0
    } else {
        newline_count(s.drop_last()) + (if s.last() == '\n' {
            1int
        } else {
            0int
        })
    }
}

/// The number of lines a text has: its newline count, plus one when it
/// ends mid-line; the empty text has none.
pub open spec fn lines_of(s: Seq<char>) -> int {
    if s.len() == 0 {
        0
    } else if s.last() == '\n' {
        newline_count(s)
    } else {
        newline_count(s) + 1
    }
}

/// Analyzes file contents: previews, counts, encodings, snippets.
pub struct ContentAnalyzer {
    pub max_file_size: u64,
    pub preview_length: usize,
}

impl ContentAnalyzer {
    /// An analyzer that reads at most `max_file_size` bytes of content
    /// and previews the first thousand characters.
    pub fn new(max_file_size: u64) -> (r: ContentAnalyzer)
        ensures
            r.max_file_size == max_file_size,
            r.preview_length == 1000,
    {
        ContentAnalyzer { max_file_size, preview_length: 1000 }
    }

    /// Analyzes the bytes of one file: nothing for oversized or
    /// binary-looking data, else the preview, counts and encoding name.
    pub fn analyze_bytes(&self, data: &[u8], file_size: u64) -> (r: Option<ContentPreview>)
        ensures
            file_size > self.max_file_size ==> r is None,
            !likely_text_spec(data@) ==> r is None,
            (file_size <= self.max_file_size && likely_text_spec(data@)) ==> (r is Some && {
                let text = decoded_text(data@);
                let p = r->Some_0;
                &&& p.preview@ == text.take(
                    if self.preview_length <= text.len() {
                        self.preview_length as int
                    } else {
                        text.len() as int
                    },
                )
                &&& p.word_count == word_count_spec(text)
                &&& p.line_count == lines_of(text)
                &&& p.encoding@ == detected_encoding(sample_of(data@))
            }),
    {
        if file_size > self.max_file_size {
            return None;
        }
        if !is_likely_text(data) {
            return None;
        }
        let decoded = decode_bytes(data);
        let dv = chars_of(decoded.as_str());
        let cut: usize = if self.preview_length <= dv.len() {
            self.preview_length
        } else {
            dv.len()
        };
        let pv = sub_vec(&dv, 0, cut);
        proof {
            assert(pv@ =~= decoded@.take(
                if self.preview_length <= decoded@.len() {
                    self.preview_length as int
                } else {
                    decoded@.len() as int
                },
            ));
        }
        let preview = string_of(&pv);
        let words = crate::text::split_ws_vec(&dv);
        let word_count = words.len();
        proof {
            assert(crate::text::views_of(words@).len() == words@.len());
        }
        let line_count = count_lines(&dv);
        let sample_len: usize = if data.len() > 8192 {
            8192
        } else {
            data.len()
        };
        let sample = slice_prefix(data, sample_len);
        proof {
            assert(sample@ =~= sample_of(data@));
        }
        let encoding = detect_encoding_name(sample);
        Some(ContentPreview { preview, word_count, line_count, encoding })
    }

    /// The decoded text, cut to at most `max_length` characters.
    pub fn extract_text(&self, data: &[u8], max_length: usize) -> (r: String)
        ensures
            r@ == decoded_text(data@).take(
                if max_length <= decoded_text(data@).len() {
                    max_length as int
                } else {
                    decoded_text(data@).len() as int
                },
            ),
    {
        let decoded = decode_bytes(data);
        let dv = chars_of(decoded.as_str());
        let cut: usize = if max_length <= dv.len() {
            max_length
        } else {
            dv.len()
        };
        let pv = sub_vec(&dv, 0, cut);
        proof {
            assert(pv@ =~= decoded_text(data@).take(
                if max_length <= decoded_text(data@).len() {
                    max_length as int
                } else {
                    decoded_text(data@).len() as int
                },
            ));
        }
        string_of(&pv)
    }

    /// A window of `context_chars` characters around the first
    /// case-insensitive occurrence of the query in the decoded text, or
    /// nothing when the query does not occur.
    pub fn get_snippet(&self, data: &[u8], query: &str, context_chars: usize) -> (r: Option<
        String,
    >)
        ensures
            ({
                let text = decoded_text(data@);
                match r {
                    Some(snip) => exists|i: int|
                        {
                            &&& #[trigger] matches_at(lower(text), lower(query@), i)
                            &&& (forall|j: int|
                                0 <= j < i ==> !matches_at(lower(text), lower(query@), j))
                            &&& snip@ == text.subrange(
                                window_lo(i, context_chars as int),
                                window_hi(i, query@.len() as int, context_chars as int, text.len() as int),
                            )
                        },
                    None => !contains_seq(lower(text), lower(query@)),
                }
            }),
    {
        let decoded = decode_bytes(data);
        let dv = chars_of(decoded.as_str());
        let dl = lower_vec(&dv);
        let ql = lower_vec(&chars_of(query));
        match find_first(&dl, &ql) {
            Some(pos) => {
                let lo: usize = if pos >= context_chars {
                    pos - context_chars
                } else {
                    0
                };
                let ideal_hi: usize = if ql.len() <= usize::MAX - pos {
                    if context_chars <= usize::MAX - (pos + ql.len()) {
                        pos + ql.len() + context_chars
                    } else {
                        usize::MAX
                    }
                } else {
                    usize::MAX
                };
                let hi: usize = if ideal_hi <= dv.len() {
                    ideal_hi
                } else {
                    dv.len()
                };
                proof {
                    assert(lo as int == window_lo(pos as int, context_chars as int));
                    assert(hi as int == window_hi(
                        pos as int,
                        query@.len() as int,
                        context_chars as int,
                        decoded_text(data@).len() as int,
                    ));
                }
                let sv = sub_vec(&dv, lo, hi);
                Some(string_of(&sv))
            },
            None => None,
        }
    }
}

/// The lower edge of a snippet window.
pub open spec fn window_lo(pos: int, context: int) -> int {
    if pos >= context {
        pos - context
    } else {
        0
    }
}

/// The upper edge of a snippet window, clamped to the text.
pub open spec fn window_hi(pos: int, qlen: int, context: int, len: int) -> int {
    if pos + qlen + context <= len {
        pos + qlen + context
    } else {
        len
    }
}

/// The sample the encoding detector sees: the first 8192 bytes.
pub open spec fn sample_of(data: Seq<u8>) -> Seq<u8> {
    if data.len() > 8192 {
        data.take(8192)
    } else {
        data
    }
}

/// The prefix of a byte slice, through vstd's verified subrange.
fn slice_prefix(data: &[u8], n: usize) -> (r: &[u8])
    requires
        n <= data@.len(),
    ensures
        r@ == data@.take(n as int),
{
    let r = vstd::slice::slice_subrange(data, 0, n);
    proof {
        assert(data@.subrange(0, n as int) =~= data@.take(n as int));
    }
    r
}

/// Lines counted in one pass.
fn count_lines(v: &Vec<char>) -> (r: usize)
    ensures
        r == lines_of(v@),
{
    let mut newlines: usize = 0;
    let mut i: usize = 0;
    proof {
        assert(newline_count(v@.take(0)) == 0);
    }
    while i < v.len()
        invariant
            i <= v@.len(),
            newlines == newline_count(v@.take(i as int)),
            newlines <= i,
        decreases v.len() - i,
    {
        proof {
            assert(v@.take(i + 1).drop_last() =~= v@.take(i as int));
            assert(v@.take(i + 1).last() == v@[i as int]);
        }
        if v[i] == '\n' {
            newlines = newlines + 1;
        }
        i = i + 1;
    }
    proof {
        assert(v@.take(v@.len() as int) =~= v@);
    }
    if v.len() == 0 {
        0
    } else if v[v.len() - 1] == '\n' {
        newlines
    } else {
        proof {
            assert(newline_count(v@) == newline_count(v@.drop_last()));
            lemma_newline_le(v@.drop_last());
        }
        newlines + 1
    }
}

/// There are no more newlines than characters.
proof fn lemma_newline_le(s: Seq<char>)
    ensures
        newline_count(s) <= s.len(),
    decreases s.len(),
{
    if s.len() > 0 {
        lemma_newline_le(s.drop_last());
    }
}

} // verus!
