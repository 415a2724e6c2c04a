//! Line and column scanning for the input files: a file is a sequence of
//! lines (separated by a newline, an optional carriage return stripped), and
//! a line is a sequence of columns separated by spaces or tabs.

use vstd::prelude::*;
use vstd::string::StrSliceExecFns;

verus! {

/// Column separator inside a line.
pub open spec fn is_space(c: char) -> bool {
    c == ' ' || c == '\t'
}

/// First position at or after `i` that ends a column: a separator or the end
/// of the line.
pub open spec fn token_end(s: Seq<char>, i: int) -> int
    decreases s.len() - i,
{
    if i < 0 || i >= s.len() || is_space(s[i]) {
        i
    } else {
        token_end(s, i + 1)
    }
}

proof fn lemma_token_end_bounds(s: Seq<char>, i: int)
    requires
        0 <= i <= s.len(),
    ensures
        i <= token_end(s, i) <= s.len(),
        i < s.len() && !is_space(s[i]) ==> token_end(s, i) > i,
    decreases s.len() - i,
{
    if i < s.len() && !is_space(s[i]) {
        lemma_token_end_bounds(s, i + 1);
    }
}

/// The columns of a line from position `i` on, in order.
pub open spec fn tokens_from(s: Seq<char>, i: int) -> Seq<Seq<char>>
    decreases s.len() - i,
    when i >= 0
    via tokens_from_dec
{
    if i < 0 || i >= s.len() {
        Seq::empty()
    } else if is_space(s[i]) {
        tokens_from(s, i + 1)
    } else {
        seq![s.subrange(i, token_end(s, i))] + tokens_from(s, token_end(s, i))
    }
}

#[via_fn]
proof fn tokens_from_dec(s: Seq<char>, i: int) {
    if 0 <= i < s.len() && !is_space(s[i]) {
        lemma_token_end_bounds(s, i);
    }
}

/// The columns of a whole line.
pub open spec fn spec_tokens(s: Seq<char>) -> Seq<Seq<char>> {
    tokens_from(s, 0)
}

/// The views of a vector of owned strings.
pub open spec fn strs_view(v: Seq<String>) -> Seq<Seq<char>> {
    v.map_values(|t: String| t@)
}

/// Splits a line into its columns.
pub fn tokenize(s: &str) -> (r: Vec<String>)
    ensures
        strs_view(r@) == spec_tokens(s@),
{
    let n = s.unicode_len();
    let mut out: Vec<String> = Vec::new();
    let mut i: usize = 0;
    proof {
        assert(strs_view(out@) + tokens_from(s@, 0) =~= tokens_from(s@, 0));
    }
    while i < n
        invariant
            0 <= i <= n == s@.len(),
            strs_view(out@) + tokens_from(s@, i as int) == spec_tokens(s@),
        decreases n - i,
    {
        let c = s.get_char(i);
        if c == ' ' || c == '\t' {
            proof {
                assert(is_space(s@[i as int]));
                assert(tokens_from(s@, i as int) == tokens_from(s@, i + 1));
            }
            i = i + 1;
        } else {
            let mut j: usize = i;
            proof {
                assert(!is_space(s@[i as int]));
            }
            while j < n && !(s.get_char(j) == ' ' || s.get_char(j) == '\t')
                invariant
                    i <= j <= n == s@.len(),
                    token_end(s@, i as int) == token_end(s@, j as int),
                decreases n - j,
            {
                proof {
                    assert(!is_space(s@[j as int]));
                    assert(token_end(s@, j as int) == token_end(s@, j + 1));
                }
                j = j + 1;
            }
            proof {
                assert(token_end(s@, j as int) == j) by {
                    if j < n {
                        assert(is_space(s@[j as int]));
                    }
                }
                assert(token_end(s@, i as int) == j);
                lemma_token_end_bounds(s@, i as int);
                assert(i < j);
            }
            let tok = s.substring_char(i, j).to_owned();
            let ghost prev = strs_view(out@);
            out.push(tok);
            proof {
                assert(strs_view(out@) =~= prev.push(s@.subrange(i as int, j as int)));
                assert(tokens_from(s@, i as int) == seq![
                    s@.subrange(i as int, token_end(s@, i as int)),
                ] + tokens_from(s@, token_end(s@, i as int)));
                assert(strs_view(out@) + tokens_from(s@, j as int) =~= prev + tokens_from(
                    s@,
                    i as int,
                ));
            }
            i = j;
        }
    }
    proof {
        assert(tokens_from(s@, i as int) =~= Seq::<Seq<char>>::empty());
        assert(strs_view(out@) + Seq::<Seq<char>>::empty() =~= strs_view(out@));
    }
    out
}

/// First position at or after `i` that ends a line: a newline or the end of
/// the file.
pub open spec fn line_end(s: Seq<char>, i: int) -> int
    decreases s.len() - i,
{
    if i < 0 || i >= s.len() || s[i] == '\n' {
        i
    } else {
        line_end(s, i + 1)
    }
}

proof fn lemma_line_end_bounds(s: Seq<char>, i: int)
    requires
        0 <= i <= s.len(),
    ensures
        i <= line_end(s, i) <= s.len(),
    decreases s.len() - i,
{
    if i < s.len() && s[i] != '\n' {
        lemma_line_end_bounds(s, i + 1);
    }
}

/// A line with one trailing carriage return removed.
pub open spec fn strip_cr(t: Seq<char>) -> Seq<char> {
    if t.len() > 0 && t.last() == '\r' {
        t.drop_last()
    } else {
        t
    }
}

/// The lines of a file from position `i` on; a file that does not end in a
/// newline still ends its last line.
pub open spec fn lines_from(s: Seq<char>, i: int) -> Seq<Seq<char>>
    decreases s.len() - i,
    when i >= 0
    via lines_from_dec
{
    if i < 0 || i >= s.len() {
        Seq::empty()
    } else {
        let e = line_end(s, i);
        let next = if e + 1 <= s.len() {
            e + 1
        } else {
            s.len() as int
        };
        seq![strip_cr(s.subrange(i, e))] + lines_from(s, next)
    }
}

#[via_fn]
proof fn lines_from_dec(s: Seq<char>, i: int) {
    if 0 <= i < s.len() {
        lemma_line_end_bounds(s, i);
    }
}

/// The lines of a whole file.
pub open spec fn spec_lines(s: Seq<char>) -> Seq<Seq<char>> {
    lines_from(s, 0)
}

/// Splits a file into its lines.
pub fn split_lines(s: &str) -> (r: Vec<String>)
    ensures
        strs_view(r@) == spec_lines(s@),
{
    let n = s.unicode_len();
    let mut out: Vec<String> = Vec::new();
    let mut i: usize = 0;
    proof {
        assert(strs_view(out@) + lines_from(s@, 0) =~= lines_from(s@, 0));
    }
    while i < n
        invariant
            0 <= i <= n == s@.len(),
            strs_view(out@) + lines_from(s@, i as int) == spec_lines(s@),
        decreases n - i,
    {
        let mut j: usize = i;
        while j < n && s.get_char(j) != '\n'
            invariant
                i <= j <= n == s@.len(),
                line_end(s@, i as int) == line_end(s@, j as int),
            decreases n - j,
        {
            proof {
                assert(s@[j as int] != '\n');
                assert(line_end(s@, j as int) == line_end(s@, j + 1));
            }
            j = j + 1;
        }
        proof {
            assert(line_end(s@, j as int) == j) by {
                if j < n {
                    assert(s@[j as int] == '\n');
                }
            }
            assert(line_end(s@, i as int) == j);
        }
        let ghost full_line = s@.subrange(i as int, j as int);
        let line = if j > i && s.get_char(j - 1) == '\r' {
            s.substring_char(i, j - 1)
        } else {
            s.substring_char(i, j)
        };
        proof {
            if j > i && s@[j - 1] == '\r' {
                assert(full_line.len() > 0);
                assert(full_line.last() == s@[j - 1]);
                assert(full_line.drop_last() =~= s@.subrange(i as int, j - 1));
                assert(line@ == strip_cr(full_line));
            } else {
                if full_line.len() > 0 {
                    assert(full_line.last() == s@[j - 1]);
                }
                assert(line@ == strip_cr(full_line));
            }
        }
        let ghost prev = strs_view(out@);
        out.push(line.to_owned());
        proof {
            assert(strs_view(out@) =~= prev.push(strip_cr(full_line)));
        }
        let next = if j < n {
            j + 1
        } else {
            n
        };
        proof {
            assert(lines_from(s@, i as int) == seq![strip_cr(full_line)] + lines_from(
                s@,
                next as int,
            ));
            assert(strs_view(out@) + lines_from(s@, next as int) =~= prev + lines_from(
                s@,
                i as int,
            ));
        }
        i = next;
    }
    proof {
        assert(lines_from(s@, i as int) =~= Seq::<Seq<char>>::empty());
        assert(strs_view(out@) + Seq::<Seq<char>>::empty() =~= strs_view(out@));
    }
    out
}

} // verus!
