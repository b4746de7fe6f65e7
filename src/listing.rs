//! Reading the runtime's container listing: one name per line of its output.

use vstd::prelude::*;
use crate::resolver::{chars_of, names_view};

verus! {

/// The text that the bytes `b` decode to as UTF-8, each invalid sequence
/// replaced by U+FFFD.
pub uninterp spec fn utf8_lossy(b: Seq<u8>) -> Seq<char>;

/// Relies on `String::from_utf8_lossy`: the decoded text depends on the bytes
/// alone, and no bytes decode to no text.
#[verifier::external_body]
fn decode_lossy(b: &[u8]) -> (r: String)
    ensures
        r@ == utf8_lossy(b@),
        b@.len() == 0 ==> r@.len() == 0,
{
    String::from_utf8_lossy(b).into_owned()
}

/// The pieces of `s` between line feeds: always one more than there are line
/// feeds, the last one being what follows the final line feed.
pub open spec fn split_newlines(s: Seq<char>) -> Seq<Seq<char>>
    decreases s.len(),
{
    if s.len() == 0 {
        seq![Seq::empty()]
    } else {
        let p = split_newlines(s.drop_last());
        if s.last() == '\n' {
            p.push(Seq::empty())
        } else {
            p.update(p.len() - 1, p.last().push(s.last()))
        }
    }
}

/// A line that was ended by a line feed, without a carriage return before it.
pub open spec fn strip_cr(l: Seq<char>) -> Seq<char> {
    if l.len() > 0 && l.last() == '\r' {
        l.drop_last()
    } else {
        l
    }
}

/// The lines of `s`: the text before each line feed (less one carriage return
/// right before it), then the text after the last line feed unless it is empty.
pub open spec fn lines_of(s: Seq<char>) -> Seq<Seq<char>> {
    let p = split_newlines(s);
    let ended = p.drop_last().map_values(|l: Seq<char>| strip_cr(l));
    if p.last().len() == 0 {
        ended
    } else {
        ended.push(p.last())
    }
}

proof fn lemma_split_nonempty(s: Seq<char>)
    ensures
        split_newlines(s).len() >= 1,
    decreases s.len(),
{
    if s.len() > 0 {
        lemma_split_nonempty(s.drop_last());
    }
}

/// Splits the listing text into its lines, in order: empty output gives no
/// names, and a final line feed adds no empty name.
pub fn parse_lines(text: &str) -> (r: Vec<String>)
    ensures
        names_view(r@) == lines_of(text@),
{
    let s = chars_of(text);
    let n = s.len();
    let mut out: Vec<String> = Vec::new();
    let mut start: usize = 0;
    let mut i: usize = 0;
    proof {
        assert(s@.subrange(0, 0) =~= Seq::<char>::empty());
    }
    while i < n
        invariant
            s@ == text@,
            n == s@.len(),
            start <= i <= n,
            split_newlines(s@.subrange(0, i as int)).len() >= 1,
            split_newlines(s@.subrange(0, i as int)).last() == s@.subrange(start as int, i as int),
            names_view(out@) == split_newlines(s@.subrange(0, i as int)).drop_last().map_values(
                |l: Seq<char>| strip_cr(l),
            ),
        decreases n - i,
    {
        let ghost before = s@.subrange(0, i as int);
        let ghost after = s@.subrange(0, i + 1);
        let ghost p = split_newlines(before);
        assert(after.drop_last() =~= before);
        assert(after.last() == s@[i as int]);
        if s[i] == '\n' {
            let end: usize = if i > start && s[i - 1] == '\r' {
                i - 1
            } else {
                i
            };
            let line = String::from_str(text.substring_char(start, end));
            proof {
                let piece = s@.subrange(start as int, i as int);
                assert(line@ == strip_cr(piece)) by {
                    if piece.len() > 0 && piece.last() == '\r' {
                        assert(piece.drop_last() =~= s@.subrange(start as int, end as int));
                    } else {
                        assert(piece =~= s@.subrange(start as int, end as int));
                    }
                }
            }
            let ghost old_names = names_view(out@);
            out.push(line);
            proof {
                assert(names_view(out@) =~= old_names.push(line@));
                assert(p =~= p.drop_last().push(p.last()));
                let q = split_newlines(after);
                assert(q == p.push(Seq::empty()));
                assert(q.drop_last() =~= p);
                assert(names_view(out@) =~= p.map_values(|l: Seq<char>| strip_cr(l)));
                assert(s@.subrange(i + 1, i + 1) =~= Seq::<char>::empty());
            }
            start = i + 1;
        } else {
            proof {
                let q = split_newlines(after);
                assert(q.drop_last() =~= p.drop_last());
                assert(s@.subrange(start as int, i + 1) =~= s@.subrange(start as int, i as int).push(
                    s@[i as int],
                ));
            }
        }
        i += 1;
    }
    proof {
        assert(s@.subrange(0, n as int) =~= s@);
    }
    if start < n {
        let line = String::from_str(text.substring_char(start, n));
        let ghost old_names = names_view(out@);
        out.push(line);
        proof {
            assert(names_view(out@) =~= old_names.push(line@));
            let p = split_newlines(s@);
            assert(names_view(out@) =~= p.drop_last().map_values(|l: Seq<char>| strip_cr(l)).push(
                p.last(),
            ));
        }
    }
    out
}

/// The container names in the runtime's listing output, in the order given.
/// A listing command that reported failure yields no names.
pub fn container_names(succeeded: bool, stdout: &[u8]) -> (r: Vec<String>)
    ensures
        !succeeded ==> r@.len() == 0,
        succeeded ==> names_view(r@) == lines_of(utf8_lossy(stdout@)),
{
    if !succeeded {
        return Vec::new();
    }
    let text = decode_lossy(stdout);
    parse_lines(text.as_str())
}

} // verus!
