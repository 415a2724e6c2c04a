//! Candidate addresses: one line of the address file names a ternary
//! address, its derivation index, and its claimed balance.

use vstd::prelude::*;
use vstd::string::StrSliceExecFns;

use crate::text::spec_lines;
use crate::text::spec_tokens;
use crate::text::split_lines;
use crate::text::strs_view;
use crate::text::tokenize;
use crate::trytes::check_trytes;
use crate::trytes::is_trytes;
use crate::trytes::parse_number;
use crate::trytes::spec_parse_number;
use crate::trytes::ADDRESS_TRYTES;

verus! {

/// A candidate address as loaded from the address file: the ternary address
/// (81 trytes, checksum stripped), its derivation index, and the balance the
/// file claims for it.
#[derive(Debug, Clone)]
pub struct AddrInfo {
    pub addr: String,
    pub idx: usize,
    pub bal: usize,
}

/// An address column cut back to the bare address: a checksum suffix beyond
/// 81 trytes is dropped.
pub open spec fn trunc_addr(t: Seq<char>) -> Seq<char> {
    if t.len() <= ADDRESS_TRYTES {
        t
    } else {
        t.take(ADDRESS_TRYTES as int)
    }
}

/// What one line of the address file denotes: its first three columns as
/// (address, derivation index, claimed balance), or nothing when a column is
/// missing or malformed.  Columns beyond the third are ignored.
pub open spec fn spec_parse_addr_line(l: Seq<char>) -> Option<(Seq<char>, int, int)> {
    let ts = spec_tokens(l);
    if ts.len() >= 3 && is_trytes(ts[0]) && spec_parse_number(ts[1]) is Some && spec_parse_number(
        ts[2],
    ) is Some {
        Some(
            (trunc_addr(ts[0]), spec_parse_number(ts[1]).unwrap(), spec_parse_number(
                ts[2],
            ).unwrap()),
        )
    } else {
        None
    }
}

impl AddrInfo {
    /// The row a candidate denotes, for stating parses.
    pub open spec fn row(self) -> (Seq<char>, int, int) {
        (self.addr@, self.idx as int, self.bal as int)
    }

    /// Reads one line of the address file: a ternary address (a checksum
    /// suffix is stripped), a derivation index, and a claimed balance,
    /// separated by spaces or tabs.  `None` on any malformed line.
    pub fn from_line(s: &str) -> (r: Option<AddrInfo>)
        ensures
            match r {
                Some(a) => spec_parse_addr_line(s@) == Some(a.row()),
                None => spec_parse_addr_line(s@) is None,
            },
    {
        let mut toks = tokenize(s);
        let ghost ts = spec_tokens(s@);
        proof {
            assert(strs_view(toks@).len() == toks@.len());
        }
        if toks.len() < 3 {
            return None;
        }
        proof {
            assert(strs_view(toks@)[0] == toks@[0]@);
            assert(strs_view(toks@)[1] == toks@[1]@);
            assert(strs_view(toks@)[2] == toks@[2]@);
        }
        if !check_trytes(toks[0].as_str()) {
            return None;
        }
        let idx = match parse_number(toks[1].as_str()) {
            Some(v) => v,
            None => {
                return None;
            },
        };
        let bal = match parse_number(toks[2].as_str()) {
            Some(v) => v,
            None => {
                return None;
            },
        };
        let t0 = toks.remove(0);
        let addr = if t0.as_str().unicode_len() > ADDRESS_TRYTES {
            t0.as_str().substring_char(0, ADDRESS_TRYTES).to_owned()
        } else {
            t0
        };
        proof {
            assert(addr@ == trunc_addr(ts[0]));
        }
        Some(AddrInfo { addr, idx, bal })
    }
}

/// The rows that the parsed lines denote, malformed lines skipped.
pub open spec fn spec_addr_rows(ls: Seq<Seq<char>>) -> Seq<(Seq<char>, int, int)>
    decreases ls.len(),
{
    if ls.len() == 0 {
        Seq::empty()
    } else {
        let rest = spec_addr_rows(ls.drop_last());
        match spec_parse_addr_line(ls.last()) {
            Some(t) => rest.push(t),
            None => rest,
        }
    }
}

/// The candidate addresses of one migration task, in file order.
#[derive(Debug, Clone)]
pub struct Addrs {
    inner: Vec<AddrInfo>,
}

impl Addrs {
    /// Reads the whole address file: one candidate per well-formed line;
    /// lines that do not parse are skipped.
    pub fn from_text(s: &str) -> (r: Addrs)
        ensures
            r@.map_values(|a: AddrInfo| a.row()) == spec_addr_rows(spec_lines(s@)),
    {
        let mut lines = split_lines(s);
        let ghost ls = spec_lines(s@);
        let mut inner: Vec<AddrInfo> = Vec::new();
        let ghost mut k: int = 0;
        proof {
            assert(strs_view(lines@).len() == lines@.len());
        }
        while lines.len() > 0
            invariant
                0 <= k <= ls.len(),
                strs_view(lines@) =~= ls.skip(k),
                inner@.map_values(|a: AddrInfo| a.row()) == spec_addr_rows(ls.take(k)),
            decreases lines@.len(),
        {
            let ghost old_lines = lines@;
            let line = lines.remove(0);
            proof {
                assert(strs_view(old_lines).len() == old_lines.len());
                assert(strs_view(lines@).len() == lines@.len());
                assert(ls.skip(k).len() == ls.len() - k);
                assert(k < ls.len());
                assert(strs_view(old_lines)[0] == old_lines[0]@);
                assert(strs_view(old_lines)[0] == ls.skip(k)[0]);
                assert(line@ == ls[k]);
                assert(strs_view(lines@) =~= ls.skip(k + 1)) by {
                    assert forall|m: int| 0 <= m < lines@.len() implies strs_view(lines@)[m]
                        == ls.skip(k + 1)[m] by {
                        assert(strs_view(lines@)[m] == lines@[m]@);
                        assert(lines@[m] == old_lines[m + 1]);
                        assert(strs_view(old_lines)[m + 1] == ls.skip(k)[m + 1]);
                    }
                }
                assert(ls.take(k + 1).drop_last() =~= ls.take(k));
                assert(ls.take(k + 1).last() == ls[k]);
            }
            let ghost prev = inner@.map_values(|a: AddrInfo| a.row());
            match AddrInfo::from_line(line.as_str()) {
                Some(a) => {
                    let ghost rw = a.row();
                    inner.push(a);
                    proof {
                        assert(inner@.map_values(|a: AddrInfo| a.row()) =~= prev.push(rw));
                    }
                },
                None => {},
            }
            proof {
                k = k + 1;
            }
        }
        proof {
            assert(ls.take(k) =~= ls);
        }
        Addrs { inner }
    }

    /// The rows as a plain vector.
    pub fn items(&self) -> (r: &Vec<AddrInfo>)
        ensures
            r@ == self@,
    {
        &self.inner
    }

    /// Gives up the rows.
    pub fn into_items(self) -> (r: Vec<AddrInfo>)
        ensures
            r@ == self@,
    {
        self.inner
    }

    /// Number of rows.
    pub fn len(&self) -> (n: usize)
        ensures
            n == self@.len(),
    {
        self.inner.len()
    }
}

impl View for Addrs {
    type V = Seq<AddrInfo>;

    closed spec fn view(&self) -> Seq<AddrInfo> {
        self.inner@
    }
}

} // verus!
