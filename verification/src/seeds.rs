//! Secret seeds, one per line of the seeds file.  A line is kept when it is
//! non-empty and consists of tryte characters only; every other line is
//! skipped.  Seeds are never persisted by this crate.

use vstd::prelude::*;

use crate::text::spec_lines;
use crate::text::split_lines;
use crate::text::strs_view;
use crate::trytes::check_trytes;
use crate::trytes::is_trytes;

verus! {

/// A line of the seeds file that is kept: non-empty, trytes only.
pub open spec fn is_seed_line(l: Seq<char>) -> bool {
    l.len() > 0 && is_trytes(l)
}

/// The seeds of one run, in file order.
#[derive(Debug)]
pub struct Seeds {
    inner: Vec<String>,
}

impl View for Seeds {
    type V = Seq<Seq<char>>;

    closed spec fn view(&self) -> Seq<Seq<char>> {
        strs_view(self.inner@)
    }
}

impl Seeds {
    /// Reads the seeds file: keeps exactly the non-empty all-tryte lines, in
    /// order.
    pub fn from_text(s: &str) -> (r: Seeds)
        ensures
            r@ == spec_lines(s@).filter(|l: Seq<char>| is_seed_line(l)),
    {
        let mut lines = split_lines(s);
        let ghost ls = spec_lines(s@);
        let mut inner: Vec<String> = Vec::new();
        let ghost mut k: int = 0;
        proof {
            reveal(Seq::filter);
            assert(strs_view(lines@).len() == lines@.len());
        }
        while lines.len() > 0
            invariant
                0 <= k <= ls.len(),
                strs_view(lines@) =~= ls.skip(k),
                strs_view(inner@) == ls.take(k).filter(|l: Seq<char>| is_seed_line(l)),
            decreases lines@.len(),
        {
            let ghost old_lines = lines@;
            let line = lines.remove(0);
            proof {
                assert(strs_view(old_lines).len() == old_lines.len());
                assert(strs_view(lines@).len() == lines@.len());
                assert(ls.skip(k).len() == ls.len() - k);
                assert(k < ls.len());
                assert(strs_view(old_lines)[0] == old_lines[0]@);
                assert(strs_view(old_lines)[0] == ls.skip(k)[0]);
                assert(line@ == ls[k]);
                assert(strs_view(lines@) =~= ls.skip(k + 1)) by {
                    assert forall|m: int| 0 <= m < lines@.len() implies strs_view(lines@)[m]
                        == ls.skip(k + 1)[m] by {
                        assert(strs_view(lines@)[m] == lines@[m]@);
                        assert(lines@[m] == old_lines[m + 1]);
                        assert(strs_view(old_lines)[m + 1] == ls.skip(k)[m + 1]);
                    }
                }
                assert(ls.take(k + 1).drop_last() =~= ls.take(k));
                assert(ls.take(k + 1).last() == ls[k]);
                reveal(Seq::filter);
            }
            let ghost prev = strs_view(inner@);
            if !line.as_str().is_empty() && check_trytes(line.as_str()) {
                proof {
                    assert(is_seed_line(line@));
                }
                let ghost lv = line@;
                inner.push(line);
                proof {
                    assert(strs_view(inner@) =~= prev.push(lv));
                }
            } else {
                proof {
                    assert(!is_seed_line(line@));
                }
            }
            proof {
                k = k + 1;
            }
        }
        proof {
            assert(ls.take(k) =~= ls);
        }
        Seeds { inner }
    }

    /// The seeds as plain strings.
    pub fn items(&self) -> (r: &Vec<String>)
        ensures
            strs_view(r@) == self@,
    {
        &self.inner
    }

    /// Number of seeds.
    pub fn len(&self) -> (n: usize)
        ensures
            n == self@.len(),
    {
        proof {
            assert(strs_view(self.inner@).len() == self.inner@.len());
        }
        self.inner.len()
    }
}

} // verus!
