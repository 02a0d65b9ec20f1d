//! The document parser: split an exposition text into family chunks.
//!
//! A text is split into lines; comment lines are counted, and upon the
//! third comment line since the last flush the accumulated family chunk is
//! closed and a new one begins with that line.  The final in-progress
//! chunk is flushed when the text ends.

use vstd::prelude::*;

use crate::error::ParseError;
use crate::error::ParseErrorView;
use crate::family::spec_family;
use crate::family::MetricFamily;
use crate::family::MetricFamilyView;
use crate::grammar::index_of_from;
use crate::grammar::lemma_index_of_from;
use crate::line::find_char;
use crate::meta::strings_view;
use crate::records::lines_view;
use vstd::string::StrSliceExecFns;

verus! {

/// The lines of a text: split at `\n`, with one `\r` stripped from the
/// end of each newline-terminated piece, and no final empty line for a
/// text that ends in `\n`.
pub open spec fn split_lines_from(s: Seq<char>, pos: int) -> Seq<Seq<char>>
    decreases s.len() - pos,
    when 0 <= pos
    via split_lines_from_dec
{
    if pos >= s.len() {
        Seq::empty()
    } else {
        let k = index_of_from(s, pos, '\n');
        if k == -1 {
            seq![s.subrange(pos, s.len() as int)]
        } else {
            let piece = s.subrange(pos, k);
            let line = if piece.len() > 0 && piece.last() == '\r' {
                piece.drop_last()
            } else {
                piece
            };
            seq![line] + split_lines_from(s, k + 1)
        }
    }
}

#[via_fn]
proof fn split_lines_from_dec(s: Seq<char>, pos: int) {
    lemma_index_of_from(s, pos, '\n');
}

/// The lines of a whole text.
pub open spec fn spec_lines(s: Seq<char>) -> Seq<Seq<char>> {
    split_lines_from(s, 0)
}

/// A comment line begins with `#`.
pub open spec fn is_comment(line: Seq<char>) -> bool {
    line.len() > 0 && line[0] == '#'
}

/// Group the lines from index `i` on into family chunks, `cur` being the
/// chunk accumulated so far and `ncom` its comment lines seen.  A third
/// comment line closes the chunk and seeds the next; at the end of the
/// lines a nonempty chunk is flushed.
pub open spec fn chunks_from(
    lines: Seq<Seq<char>>,
    i: int,
    cur: Seq<Seq<char>>,
    ncom: int,
) -> Seq<Seq<Seq<char>>>
    decreases lines.len() - i,
{
    if !(0 <= i < lines.len()) {
        if cur.len() == 0 {
            Seq::empty()
        } else {
            seq![cur]
        }
    } else {
        let line = lines[i];
        if is_comment(line) {
            if ncom == 2 {
                seq![cur] + chunks_from(lines, i + 1, seq![line], 1)
            } else {
                chunks_from(lines, i + 1, cur.push(line), ncom + 1)
            }
        } else {
            chunks_from(lines, i + 1, cur.push(line), ncom)
        }
    }
}

/// The family chunks of a line list.
pub open spec fn spec_chunks(lines: Seq<Seq<char>>) -> Seq<Seq<Seq<char>>> {
    chunks_from(lines, 0, Seq::empty(), 0)
}

/// The families of a chunk list, in order; the first failing chunk fails
/// the whole document.
pub open spec fn spec_families(chunks: Seq<Seq<Seq<char>>>) -> Result<
    Seq<MetricFamilyView>,
    ParseErrorView,
>
    decreases chunks.len(),
{
    if chunks.len() == 0 {
        Ok(Seq::empty())
    } else {
        match spec_families(chunks.drop_last()) {
            Err(e) => Err(e),
            Ok(fs) => match spec_family(chunks.last()) {
                Err(e) => Err(e),
                Ok(f) => Ok(fs.push(f)),
            },
        }
    }
}

/// Parsing an appended chunk list parses each part in order.
pub proof fn lemma_spec_families_app(a: Seq<Seq<Seq<char>>>, b: Seq<Seq<Seq<char>>>)
    ensures
        spec_families(a + b) == (match spec_families(a) {
            Err(e) => Err(e),
            Ok(fs) => match spec_families(b) {
                Err(e) => Err(e),
                Ok(gs) => Ok(fs + gs),
            },
        }),
    decreases b.len(),
{
    if b.len() == 0 {
        assert(a + b =~= a);
        match spec_families(a) {
            Ok(fs) => {
                assert(fs + Seq::<MetricFamilyView>::empty() =~= fs);
            },
            Err(_) => {},
        }
    } else {
        lemma_spec_families_app(a, b.drop_last());
        assert((a + b).drop_last() =~= a + b.drop_last());
        assert((a + b).last() == b.last());
        match spec_families(a) {
            Ok(fs) => {
                match spec_families(b.drop_last()) {
                    Ok(gs) => {
                        match spec_family(b.last()) {
                            Ok(f) => {
                                assert((fs + gs).push(f) =~= fs + gs.push(f));
                            },
                            Err(_) => {},
                        }
                    },
                    Err(_) => {},
                }
            },
            Err(_) => {},
        }
    }
}

/// What parsing a whole exposition text yields.
pub open spec fn spec_document(s: Seq<char>) -> Result<Seq<MetricFamilyView>, ParseErrorView> {
    spec_families(spec_chunks(spec_lines(s)))
}

/// The view of a family list.
pub open spec fn families_view(fs: Seq<MetricFamily>) -> Seq<MetricFamilyView> {
    fs.map_values(|f: MetricFamily| f@)
}

/// Split a text into its lines.
#[verifier::loop_isolation(false)]
fn split_lines(s: &str) -> (r: Vec<String>)
    ensures
        strings_view(r@) == spec_lines(s@),
{
    let n = s.unicode_len();
    let mut lines: Vec<String> = Vec::new();
    let mut pos: usize = 0;
    proof {
        assert(strings_view(lines@) + split_lines_from(s@, 0) =~= split_lines_from(s@, 0));
    }
    while pos < n
        invariant
            pos <= n,
            spec_lines(s@) == strings_view(lines@) + split_lines_from(s@, pos as int),
        decreases n - pos,
    {
        match find_char(s, pos, '\n') {
            None => {
                let piece = s.substring_char(pos, n).to_owned();
                let ghost before = lines@;
                lines.push(piece);
                proof {
                    let lseq = s@.subrange(pos as int, s@.len() as int);
                    assert(strings_view(lines@) =~= strings_view(before).push(lseq));
                    assert(split_lines_from(s@, pos as int) == seq![lseq]);
                    assert(strings_view(before) + split_lines_from(s@, pos as int) =~= strings_view(
                        lines@,
                    ));
                }
                return lines;
            },
            Some(end) => {
                let line_end = if end > pos && s.get_char(end - 1) == '\r' {
                    end - 1
                } else {
                    end
                };
                let piece = s.substring_char(pos, line_end).to_owned();
                let ghost before = lines@;
                let ghost raw = s@.subrange(pos as int, end as int);
                let ghost lseq = (if raw.len() > 0 && raw.last() == '\r' {
                    raw.drop_last()
                } else {
                    raw
                });
                proof {
                    if raw.len() > 0 {
                        assert(raw.last() == s@[end - 1]);
                    }
                    if raw.len() > 0 && raw.last() == '\r' {
                        assert(raw.drop_last() =~= s@.subrange(pos as int, line_end as int));
                    }
                    assert(piece@ == lseq);
                }
                lines.push(piece);
                proof {
                    assert(strings_view(lines@) =~= strings_view(before).push(lseq));
                    assert(split_lines_from(s@, pos as int) == seq![lseq] + split_lines_from(
                        s@,
                        end + 1,
                    ));
                    assert(strings_view(before) + split_lines_from(s@, pos as int)
                        =~= strings_view(lines@) + split_lines_from(s@, end + 1));
                }
                pos = end + 1;
            },
        }
    }
    proof {
        assert(split_lines_from(s@, pos as int) =~= Seq::<Seq<char>>::empty());
        assert(strings_view(lines@) + split_lines_from(s@, pos as int) =~= strings_view(lines@));
    }
    lines
}

/// Borrow every line of a chunk buffer.
#[verifier::loop_isolation(false)]
fn as_str_vec<'a>(v: &'a Vec<String>) -> (r: Vec<&'a str>)
    ensures
        lines_view(r@) == strings_view(v@),
{
    let mut refs: Vec<&'a str> = Vec::new();
    let mut i: usize = 0;
    proof {
        assert(lines_view(refs@) =~= strings_view(v@).take(0));
    }
    while i < v.len()
        invariant
            i <= v@.len(),
            lines_view(refs@) == strings_view(v@).take(i as int),
        decreases v@.len() - i,
    {
        let ghost before = refs@;
        refs.push(v[i].as_str());
        proof {
            assert(lines_view(refs@) =~= lines_view(before).push(v@[i as int]@));
            assert(strings_view(v@).take(i + 1) =~= strings_view(v@).take(i as int).push(
                v@[i as int]@,
            ));
        }
        i = i + 1;
    }
    proof {
        assert(strings_view(v@).take(v@.len() as int) =~= strings_view(v@));
    }
    refs
}

/// Whether a line is a comment line.
fn is_comment_x(l: &str) -> (b: bool)
    ensures
        b == is_comment(l@),
{
    l.unicode_len() > 0 && l.get_char(0) == '#'
}

/// A parsed exposition document: its metric families in source order.
#[derive(Debug, PartialEq)]
pub struct PrometheusData {
    pub metrics: Vec<MetricFamily>,
}

impl View for PrometheusData {
    type V = Seq<MetricFamilyView>;

    open spec fn view(&self) -> Seq<MetricFamilyView> {
        families_view(self.metrics@)
    }
}

impl PrometheusData {
    /// Parse a whole exposition text into its families.
    #[verifier::loop_isolation(false)]
    pub fn from_string(s: &str) -> (r: Result<PrometheusData, ParseError>)
        ensures
            (match r {
                Ok(d) => Ok(d@),
                Err(e) => Err(e@),
            }) == spec_document(s@),
    {
        let lines = split_lines(s);
        let ghost lsv = strings_view(lines@);
        let mut metrics: Vec<MetricFamily> = Vec::new();
        let mut cur: Vec<String> = Vec::new();
        let mut ncom: usize = 0;
        let ghost mut done: Seq<Seq<Seq<char>>> = Seq::empty();
        let n = lines.len();
        let mut i: usize = 0;
        proof {
            assert(strings_view(cur@) =~= Seq::<Seq<char>>::empty());
            assert(done + chunks_from(lsv, 0, strings_view(cur@), 0) =~= chunks_from(
                lsv,
                0,
                Seq::empty(),
                0,
            ));
            assert(families_view(metrics@) =~= Seq::<MetricFamilyView>::empty());
        }
        while i < n
            invariant
                i <= n,
                n == lines@.len(),
                ncom <= 2,
                spec_chunks(lsv) == done + chunks_from(lsv, i as int, strings_view(cur@), ncom as int),
                spec_families(done) == Ok::<Seq<MetricFamilyView>, ParseErrorView>(
                    families_view(metrics@),
                ),
            decreases n - i,
        {
            let is_c = is_comment_x(lines[i].as_str());
            proof {
                assert(lsv[i as int] == lines@[i as int]@);
            }
            if is_c && ncom == 2 {
                let refs = as_str_vec(&cur);
                let ghost curv = strings_view(cur@);
                let ghost rest = chunks_from(lsv, i + 1, seq![lsv[i as int]], 1);
                proof {
                    lemma_spec_families_app(done, seq![curv]);
                    assert(seq![curv].drop_last() =~= Seq::<Seq<Seq<char>>>::empty());
                    assert(done + (seq![curv] + rest) =~= (done + seq![curv]) + rest);
                }
                match MetricFamily::from_raw(&refs) {
                    Err(e) => {
                        proof {
                            lemma_spec_families_app(done + seq![curv], rest);
                        }
                        return Err(e);
                    },
                    Ok(f) => {
                        let ghost mv = families_view(metrics@);
                        metrics.push(f);
                        proof {
                            assert(families_view(metrics@) =~= mv.push(f@));
                            assert(mv + seq![f@] =~= mv.push(f@));
                            done = done + seq![curv];
                        }
                    },
                }
                cur = Vec::new();
                cur.push(lines[i].clone());
                ncom = 1;
                proof {
                    assert(strings_view(cur@) =~= seq![lsv[i as int]]);
                }
            } else {
                let ghost cur0 = strings_view(cur@);
                cur.push(lines[i].clone());
                if is_c {
                    ncom = ncom + 1;
                }
                proof {
                    assert(strings_view(cur@) =~= cur0.push(lsv[i as int]));
                }
            }
            i = i + 1;
        }
        if cur.len() == 0 {
            proof {
                assert(strings_view(cur@).len() == 0);
                assert(done + chunks_from(lsv, n as int, strings_view(cur@), ncom as int)
                    =~= done);
            }
            return Ok(PrometheusData { metrics });
        }
        let refs = as_str_vec(&cur);
        let ghost curv = strings_view(cur@);
        proof {
            assert(strings_view(cur@).len() > 0);
            assert(done + chunks_from(lsv, n as int, strings_view(cur@), ncom as int) =~= done
                + seq![curv]);
            lemma_spec_families_app(done, seq![curv]);
            assert(seq![curv].drop_last() =~= Seq::<Seq<Seq<char>>>::empty());
        }
        match MetricFamily::from_raw(&refs) {
            Err(e) => Err(e),
            Ok(f) => {
                let ghost mv = families_view(metrics@);
                metrics.push(f);
                proof {
                    assert(families_view(metrics@) =~= mv.push(f@));
                    assert(mv + seq![f@] =~= mv.push(f@));
                }
                Ok(PrometheusData { metrics })
            },
        }
    }
}

} // verus!
