//! The trace store and its loading pipeline.
//!
//! A trace container is a zip archive with three text members, read in this
//! order: `header` (line 1: `;`-separated thread ids, line 2: the trace's
//! absolute end time), `methods` (first line ignored, then `<id>|<name>`
//! rows), and `data` (first line ignored, then
//! `<thread_id>|<start_time>|<elapsed_time>|<method_id>|<depth>` rows).
//!
//! Loading commits the header, then the method table, then the call records
//! in batches of at most sixteen rows, so that a concurrent reader sees a
//! growing prefix of the final record sequence.  Any malformed row aborts
//! the load; what was committed before it stays visible.

use vstd::prelude::*;
use vstd::arithmetic::div_mod::{lemma_add_mod_noop, lemma_small_mod};
use crate::bytes::{
    parse_u32, parse_u32_spec, parse_u64, parse_u64_spec, split, split_spec, lines, lines_spec,
};
use crate::archive::{archive_member, member_of};
use std::collections::HashMap;

verus! {

/// One call span, times in nanoseconds.
#[derive(Debug, Copy, Clone, PartialEq, Eq, Structural)]
pub struct CallRecord {
    pub thread_id: u32,
    pub start_time: u64,
    pub elapsed_time: u64,
    pub method_id: u32,
    pub depth: u32,
}

/// Why a load failed.
#[derive(Debug, Copy, Clone, PartialEq, Eq, Structural)]
pub enum LoadError {
    /// The container or one of its three members could not be read.
    Archive,
    /// The header member is malformed.
    BadHeader,
    /// A method-table row is malformed.
    BadMethodRow,
    /// A call-record row is malformed.
    BadDataRow,
}

/// What a data row parses to: a record exactly when the row has five
/// `|`-separated decimal fields in range.
pub open spec fn record_of_line(line: Seq<u8>) -> Option<CallRecord> {
    let f = split_spec(line, 124);
    if f.len() == 5 && parse_u32_spec(f[0]).is_some() && parse_u64_spec(f[1]).is_some()
        && parse_u64_spec(f[2]).is_some() && parse_u32_spec(f[3]).is_some() && parse_u32_spec(
        f[4],
    ).is_some() {
        Some(
            CallRecord {
                thread_id: parse_u32_spec(f[0]).unwrap(),
                start_time: parse_u64_spec(f[1]).unwrap(),
                elapsed_time: parse_u64_spec(f[2]).unwrap(),
                method_id: parse_u32_spec(f[3]).unwrap(),
                depth: parse_u32_spec(f[4]).unwrap(),
            },
        )
    } else {
        None
    }
}

impl CallRecord {
    /// Parses one `|`-separated data row.
    pub fn from_psv(line: &Vec<u8>) -> (r: Result<CallRecord, LoadError>)
        ensures
            r matches Ok(c) ==> record_of_line(line@) == Some(c),
            r is Err <==> record_of_line(line@) is None,
            r is Err ==> r == Err::<CallRecord, LoadError>(LoadError::BadDataRow),
    {
        let f = split(line, 124);
        proof {
            assert(f@.map_values(|t: Vec<u8>| t@).len() == f@.len());
        }
        if f.len() != 5 {
            return Err(LoadError::BadDataRow);
        }
        proof {
            let m = f@.map_values(|t: Vec<u8>| t@);
            assert(m[0] == f@[0]@ && m[1] == f@[1]@ && m[2] == f@[2]@ && m[3] == f@[3]@ && m[4]
                == f@[4]@);
        }
        let thread_id = match parse_u32(&f[0]) {
            Some(v) => v,
            None => {
                return Err(LoadError::BadDataRow);
            },
        };
        let start_time = match parse_u64(&f[1]) {
            Some(v) => v,
            None => {
                return Err(LoadError::BadDataRow);
            },
        };
        let elapsed_time = match parse_u64(&f[2]) {
            Some(v) => v,
            None => {
                return Err(LoadError::BadDataRow);
            },
        };
        let method_id = match parse_u32(&f[3]) {
            Some(v) => v,
            None => {
                return Err(LoadError::BadDataRow);
            },
        };
        let depth = match parse_u32(&f[4]) {
            Some(v) => v,
            None => {
                return Err(LoadError::BadDataRow);
            },
        };
        Ok(CallRecord { thread_id, start_time, elapsed_time, method_id, depth })
    }
}

/// Prepends a sequence onto an optional sequence; `None` stays `None`.
pub open spec fn opt_prepend(a: Seq<u32>, o: Option<Seq<u32>>) -> Option<Seq<u32>> {
    match o {
        Some(w) => Some(a + w),
        None => None,
    }
}

/// The thread ids among `;`-separated tokens, in token order: empty tokens
/// are ignored, and any other token must be a decimal `u32`.
pub open spec fn ids_of_tokens(toks: Seq<Seq<u8>>) -> Option<Seq<u32>>
    decreases toks.len(),
{
    if toks.len() == 0 {
        Some(Seq::<u32>::empty())
    } else if toks[0].len() == 0 {
        ids_of_tokens(toks.skip(1))
    } else if parse_u32_spec(toks[0]).is_some() && ids_of_tokens(toks.skip(1)).is_some() {
        Some(seq![parse_u32_spec(toks[0]).unwrap()] + ids_of_tokens(toks.skip(1)).unwrap())
    } else {
        None
    }
}

/// What the header member parses to: the thread ids of line one and the
/// absolute end time of line two.  Lines after the second are ignored.
pub open spec fn header_of(s: Seq<u8>) -> Option<(Seq<u32>, u64)> {
    let ls = lines_spec(s);
    if ls.len() >= 2 && ids_of_tokens(split_spec(ls[0], 59)).is_some() && parse_u64_spec(
        ls[1],
    ).is_some() {
        Some((ids_of_tokens(split_spec(ls[0], 59)).unwrap(), parse_u64_spec(ls[1]).unwrap()))
    } else {
        None
    }
}

/// Parses the header member.
pub fn parse_header(s: &Vec<u8>) -> (r: Result<(Vec<u32>, u64), LoadError>)
    ensures
        r matches Ok(h) ==> header_of(s@) == Some((h.0@, h.1)),
        r is Err <==> header_of(s@) is None,
        r is Err ==> r == Err::<(Vec<u32>, u64), LoadError>(LoadError::BadHeader),
{
    let ls = lines(s);
    let ghost lsv = ls@.map_values(|t: Vec<u8>| t@);
    if ls.len() < 2 {
        return Err(LoadError::BadHeader);
    }
    let toks = split(&ls[0], 59);
    let ghost tv = toks@.map_values(|t: Vec<u8>| t@);
    proof {
        assert(lsv[0] == ls@[0]@);
        assert(lsv[1] == ls@[1]@);
    }
    let mut ids: Vec<u32> = Vec::new();
    let mut i: usize = 0;
    proof {
        assert(tv.skip(0) =~= tv);
        assert(ids_of_tokens(tv) == opt_prepend(ids@, ids_of_tokens(tv.skip(0))));
    }
    while i < toks.len()
        invariant
            0 <= i <= tv.len(),
            tv.len() == toks@.len(),
            tv == toks@.map_values(|t: Vec<u8>| t@),
            lines_spec(s@).len() >= 2,
            tv == split_spec(lines_spec(s@)[0], 59),
            ids_of_tokens(tv) == opt_prepend(ids@, ids_of_tokens(tv.skip(i as int))),
        decreases tv.len() - i,
    {
        let ghost rest = tv.skip(i as int);
        proof {
            assert(rest.len() == tv.len() - i);
            assert(rest[0] == tv[i as int]);
            assert(tv[i as int] == toks@[i as int]@);
            assert(rest.skip(1) =~= tv.skip(i + 1));
        }
        if toks[i].len() == 0 {
            proof {
                assert(ids_of_tokens(rest) == ids_of_tokens(tv.skip(i + 1)));
            }
        } else {
            match parse_u32(&toks[i]) {
                Some(v) => {
                    proof {
                        if ids_of_tokens(tv.skip(i + 1)).is_some() {
                            let w = ids_of_tokens(tv.skip(i + 1)).unwrap();
                            assert(ids_of_tokens(rest) == Some(seq![v] + w));
                            assert(ids@ + (seq![v] + w) =~= ids@.push(v) + w);
                        }
                    }
                    ids.push(v);
                },
                None => {
                    proof {
                        assert(ids_of_tokens(rest) is None);
                    }
                    return Err(LoadError::BadHeader);
                },
            }
        }
        i = i + 1;
    }
    proof {
        assert(tv.skip(i as int) =~= Seq::<Seq<u8>>::empty());
        assert(ids_of_tokens(tv.skip(i as int)) == Some(Seq::<u32>::empty()));
        assert(ids@ + Seq::<u32>::empty() =~= ids@);
        assert(ids_of_tokens(tv) == Some(ids@));
    }
    let end = match parse_u64(&ls[1]) {
        Some(v) => v,
        None => {
            return Err(LoadError::BadHeader);
        },
    };
    Ok((ids, end))
}

/// Strictly ascending, so each id occurs once: the canonical shape of the
/// store's thread-id set.
pub open spec fn strictly_sorted(s: Seq<u32>) -> bool {
    forall|i: int, j: int| 0 <= i < j < s.len() ==> s[i] < s[j]
}

/// Inserting an element into a sequence adds exactly that element.
proof fn lemma_insert_contains(s: Seq<u32>, j: int, x: u32)
    requires
        0 <= j <= s.len(),
    ensures
        forall|y: u32| #[trigger] s.insert(j, x).contains(y) <==> (s.contains(y) || y == x),
{
    let t = s.insert(j, x);
    assert forall|y: u32| #[trigger] t.contains(y) <==> (s.contains(y) || y == x) by {
        if t.contains(y) {
            let k = choose|k: int| 0 <= k < t.len() && t[k] == y;
            if k < j {
                assert(s[k] == y);
            } else if k > j {
                assert(s[k - 1] == y);
            }
        }
        if s.contains(y) {
            let k = choose|k: int| 0 <= k < s.len() && s[k] == y;
            if k < j {
                assert(t[k] == y);
            } else {
                assert(t[k + 1] == y);
            }
        }
        assert(t[j] == x);
    }
}

/// The distinct values of `ids` in ascending order.
pub fn sorted_unique(ids: &Vec<u32>) -> (r: Vec<u32>)
    ensures
        strictly_sorted(r@),
        forall|y: u32| r@.contains(y) <==> ids@.contains(y),
{
    let mut r: Vec<u32> = Vec::new();
    let mut i: usize = 0;
    proof {
        assert(ids@.take(0) =~= Seq::<u32>::empty());
    }
    while i < ids.len()
        invariant
            0 <= i <= ids@.len(),
            strictly_sorted(r@),
            forall|y: u32| r@.contains(y) <==> ids@.take(i as int).contains(y),
        decreases ids@.len() - i,
    {
        let x = ids[i];
        let mut j: usize = 0;
        while j < r.len() && r[j] < x
            invariant
                0 <= j <= r@.len(),
                forall|k: int| 0 <= k < j ==> r@[k] < x,
                strictly_sorted(r@),
            decreases r@.len() - j,
        {
            j = j + 1;
        }
        let ghost rold = r@;
        if j == r.len() || r[j] > x {
            r.insert(j, x);
            proof {
                lemma_insert_contains(rold, j as int, x);
                assert forall|a: int, b: int| 0 <= a < b < r@.len() implies r@[a] < r@[b] by {
                    if b < j {
                        assert(r@[a] == rold[a] && r@[b] == rold[b]);
                    } else if a > j {
                        assert(r@[a] == rold[a - 1] && r@[b] == rold[b - 1]);
                    } else if a < j && b == j {
                        assert(r@[a] == rold[a]);
                    } else if a < j && b > j {
                        assert(r@[a] == rold[a] && r@[b] == rold[b - 1]);
                        assert(rold[a] < x);
                        assert(j <= b - 1);
                    } else if a == j && b > j {
                        assert(r@[b] == rold[b - 1]);
                        assert(b - 1 >= j);
                        assert(rold[b - 1] > x || rold[b - 1] == rold[j as int]);
                    }
                }
            }
        } else {
            proof {
                assert(rold[j as int] == x);
                assert(rold.contains(x));
            }
        }
        proof {
            assert(ids@.take(i + 1) =~= ids@.take(i as int).push(x));
            assert(ids@.take(i as int).push(x) =~= ids@.take(i as int).insert(
                ids@.take(i as int).len() as int,
                x,
            ));
            lemma_insert_contains(ids@.take(i as int), ids@.take(i as int).len() as int, x);
        }
        i = i + 1;
    }
    proof {
        assert(ids@.take(i as int) =~= ids@);
    }
    r
}

/// What a method-table row parses to: an id and a name, exactly when the
/// row is one `|`-separated pair whose id is a decimal `u32`.
pub open spec fn method_of_line(line: Seq<u8>) -> Option<(u32, Seq<u8>)> {
    let f = split_spec(line, 124);
    if f.len() == 2 && parse_u32_spec(f[0]).is_some() {
        Some((parse_u32_spec(f[0]).unwrap(), f[1]))
    } else {
        None
    }
}

/// The method table built from rows in order; a later row with the same id
/// overrides an earlier one.
pub open spec fn methods_of_rows(rows: Seq<Seq<u8>>) -> Option<Map<u32, Seq<u8>>>
    decreases rows.len(),
{
    if rows.len() == 0 {
        Some(Map::<u32, Seq<u8>>::empty())
    } else {
        let prev = methods_of_rows(rows.drop_last());
        let last = method_of_line(rows.last());
        if prev.is_some() && last.is_some() {
            Some(prev.unwrap().insert(last.unwrap().0, last.unwrap().1))
        } else {
            None
        }
    }
}

/// What the methods member parses to.  The first line is ignored.
pub open spec fn methods_of(s: Seq<u8>) -> Option<Map<u32, Seq<u8>>> {
    let ls = lines_spec(s);
    if ls.len() <= 1 {
        Some(Map::<u32, Seq<u8>>::empty())
    } else {
        methods_of_rows(ls.skip(1))
    }
}

/// One bad row anywhere spoils the whole table.
proof fn lemma_methods_bad_row(rows: Seq<Seq<u8>>, j: int)
    requires
        0 <= j < rows.len(),
        method_of_line(rows[j]) is None,
    ensures
        methods_of_rows(rows) is None,
    decreases rows.len(),
{
    if j == rows.len() - 1 {
    } else {
        assert(rows.drop_last()[j] == rows[j]);
        lemma_methods_bad_row(rows.drop_last(), j);
    }
}

/// The executable table agrees with the model: the same ids, and for each
/// id the same name bytes.
pub open spec fn methods_match(h: Map<u32, Vec<u8>>, m: Map<u32, Seq<u8>>) -> bool {
    &&& h.dom() == m.dom()
    &&& forall|k: u32| #[trigger] m.dom().contains(k) ==> h[k]@ == m[k]
}

/// Parses the methods member into an id-to-name table.
pub fn parse_methods(s: &Vec<u8>) -> (r: Result<HashMap<u32, Vec<u8>>, LoadError>)
    ensures
        r matches Ok(h) ==> methods_of(s@) matches Some(m) && methods_match(h@, m),
        r is Err <==> methods_of(s@) is None,
        r is Err ==> r == Err::<HashMap<u32, Vec<u8>>, LoadError>(LoadError::BadMethodRow),
{
    let ls = lines(s);
    let ghost lsv = ls@.map_values(|t: Vec<u8>| t@);
    let mut h: HashMap<u32, Vec<u8>> = HashMap::new();
    if ls.len() <= 1 {
        proof {
            assert(h@.dom() =~= Map::<u32, Seq<u8>>::empty().dom());
        }
        return Ok(h);
    }
    let ghost rows = lsv.skip(1);
    let mut i: usize = 1;
    proof {
        assert(rows.take(0) =~= Seq::<Seq<u8>>::empty());
        assert(h@.dom() =~= Map::<u32, Seq<u8>>::empty().dom());
    }
    while i < ls.len()
        invariant
            1 <= i <= ls@.len(),
            lsv == ls@.map_values(|t: Vec<u8>| t@),
            lsv == lines_spec(s@),
            lsv.len() == ls@.len(),
            lsv.len() >= 2,
            rows == lsv.skip(1),
            methods_of_rows(rows.take(i - 1)) matches Some(m) && methods_match(h@, m),
        decreases ls@.len() - i,
    {
        let ghost mprev = methods_of_rows(rows.take(i - 1)).unwrap();
        proof {
            assert(rows[i - 1] == lsv[i as int]);
            assert(lsv[i as int] == ls@[i as int]@);
        }
        let mut f = split(&ls[i], 124);
        let ghost fv = f@.map_values(|t: Vec<u8>| t@);
        proof {
            assert(fv.len() == f@.len());
        }
        if f.len() != 2 {
            proof {
                lemma_methods_bad_row(rows, i - 1);
                assert(rows.take(rows.len() as int) =~= rows);
            }
            return Err(LoadError::BadMethodRow);
        }
        proof {
            assert(fv[0] == f@[0]@ && fv[1] == f@[1]@);
        }
        let id = match parse_u32(&f[0]) {
            Some(v) => v,
            None => {
                proof {
                    lemma_methods_bad_row(rows, i - 1);
                    assert(rows.take(rows.len() as int) =~= rows);
                }
                return Err(LoadError::BadMethodRow);
            },
        };
        let name = match f.pop() {
            Some(n) => n,
            None => {
                return Err(LoadError::BadMethodRow);
            },
        };
        h.insert(id, name);
        proof {
            let mnew = mprev.insert(id, name@);
            assert(rows.take(i as int).drop_last() =~= rows.take(i - 1));
            assert(rows.take(i as int).last() == rows[i - 1]);
            assert(methods_of_rows(rows.take(i as int)) == Some(mnew));
            assert(h@.dom() =~= mnew.dom());
            assert forall|k: u32| #[trigger] mnew.dom().contains(k) implies h@[k]@ == mnew[k] by {
                if k != id {
                    assert(mprev.dom().contains(k));
                }
            }
        }
        i = i + 1;
    }
    proof {
        assert(rows.take(i - 1) =~= rows);
    }
    Ok(h)
}

/// The data member's call-record rows: every line after the first.
pub open spec fn rows_of(s: Seq<u8>) -> Seq<Seq<u8>> {
    let ls = lines_spec(s);
    if ls.len() == 0 {
        Seq::<Seq<u8>>::empty()
    } else {
        ls.skip(1)
    }
}

/// How many leading rows are well formed.
pub open spec fn count_good(rows: Seq<Seq<u8>>) -> nat
    decreases rows.len(),
{
    if rows.len() == 0 {
        0
    } else if record_of_line(rows[0]) is None {
        0
    } else {
        1 + count_good(rows.skip(1))
    }
}

/// The records of the first `k` rows, which must be well formed.
pub open spec fn records_prefix(rows: Seq<Seq<u8>>, k: int) -> Seq<CallRecord> {
    Seq::new(k as nat, |i: int| record_of_line(rows[i]).unwrap())
}

/// `count_good` is the position of the first bad row, or the length when
/// every row is good.
proof fn lemma_count_good_at(rows: Seq<Seq<u8>>, j: int)
    requires
        0 <= j <= rows.len(),
        forall|i: int| 0 <= i < j ==> record_of_line(#[trigger] rows[i]) is Some,
        j < rows.len() ==> record_of_line(rows[j]) is None,
    ensures
        count_good(rows) == j,
    decreases rows.len(),
{
    if rows.len() == 0 {
    } else if j == 0 {
    } else {
        assert(record_of_line(rows[0]) is Some);
        assert forall|i: int| 0 <= i < j - 1 implies record_of_line(
            #[trigger] rows.skip(1)[i],
        ) is Some by {
            assert(rows.skip(1)[i] == rows[i + 1]);
        }
        assert(j - 1 < rows.skip(1).len() ==> record_of_line(rows.skip(1)[j - 1]) is None);
        lemma_count_good_at(rows.skip(1), j - 1);
    }
}

/// Reads the data member's rows and hands the records out in batches of at
/// most sixteen, so that a writer can commit them under short exclusive
/// sections.
pub struct Loader {
    rows: Vec<Vec<u8>>,
    next: usize,
}

impl Loader {
    /// The rows this loader walks.
    pub closed spec fn rows_view(&self) -> Seq<Seq<u8>> {
        self.rows@.map_values(|t: Vec<u8>| t@)
    }

    /// How many rows have been handed out.
    pub closed spec fn pos(&self) -> int {
        self.next as int
    }

    pub closed spec fn wf(&self) -> bool {
        self.next <= self.rows@.len()
    }

    /// Starts a loader over the data member's bytes.
    pub fn new(data: &Vec<u8>) -> (r: Loader)
        ensures
            r.rows_view() == rows_of(data@),
            r.pos() == 0,
            r.wf(),
    {
        let mut ls = lines(data);
        if ls.len() > 0 {
            let ghost lsv = ls@.map_values(|t: Vec<u8>| t@);
            ls.remove(0);
            proof {
                assert(ls@.map_values(|t: Vec<u8>| t@) =~= lsv.skip(1));
            }
        } else {
            proof {
                assert(ls@.map_values(|t: Vec<u8>| t@) =~= rows_of(data@));
            }
        }
        Loader { rows: ls, next: 0 }
    }

    /// Parses the next batch: sixteen records, or fewer at the end of the
    /// member, or nothing when all rows are done.  A malformed row aborts
    /// the batch; rows before it in the same batch are not handed out.
    pub fn next_batch(&mut self) -> (r: Result<Option<Vec<CallRecord>>, LoadError>)
        requires
            old(self).wf(),
        ensures
            final(self).wf(),
            final(self).rows_view() == old(self).rows_view(),
            r matches Ok(Some(b)) ==> {
                &&& old(self).pos() < final(self).pos() <= old(self).rows_view().len()
                &&& b@.len() == final(self).pos() - old(self).pos()
                &&& b@.len() <= 16
                &&& (b@.len() == 16 || final(self).pos() == old(self).rows_view().len())
                &&& forall|j: int|
                    old(self).pos() <= j < final(self).pos() ==> record_of_line(
                        #[trigger] old(self).rows_view()[j],
                    ) == Some(b@[j - old(self).pos()])
            },
            r matches Ok(None) ==> *final(self) == *old(self) && old(self).pos() == old(
                self,
            ).rows_view().len(),
            r is Err ==> {
                &&& r == Err::<Option<Vec<CallRecord>>, LoadError>(LoadError::BadDataRow)
                &&& final(self).pos() == old(self).pos()
                &&& exists|j: int|
                    {
                        &&& old(self).pos() <= j < old(self).rows_view().len()
                        &&& j < old(self).pos() + 16
                        &&& record_of_line(#[trigger] old(self).rows_view()[j]) is None
                        &&& forall|i: int|
                            old(self).pos() <= i < j ==> record_of_line(
                                #[trigger] old(self).rows_view()[i],
                            ) is Some
                    }
            },
    {
        let ghost rv = self.rows_view();
        if self.next >= self.rows.len() {
            return Ok(None);
        }
        let start = self.next;
        let mut b: Vec<CallRecord> = Vec::new();
        while self.next < self.rows.len() && b.len() < 16
            invariant
                self.rows@.map_values(|t: Vec<u8>| t@) == rv,
                rv == old(self).rows_view(),
                start == old(self).next,
                start <= self.next <= self.rows@.len(),
                b@.len() == self.next - start,
                b@.len() <= 16,
                forall|j: int|
                    start <= j < self.next ==> record_of_line(#[trigger] rv[j]) == Some(
                        b@[j - start],
                    ),
            decreases self.rows@.len() - self.next,
        {
            proof {
                assert(rv[self.next as int] == self.rows@[self.next as int]@);
            }
            match CallRecord::from_psv(&self.rows[self.next]) {
                Ok(c) => {
                    b.push(c);
                    self.next = self.next + 1;
                },
                Err(_) => {
                    let ghost bad = self.next as int;
                    self.next = start;
                    proof {
                        assert(record_of_line(rv[bad]) is None);
                        assert(bad < start + 16);
                        assert({
                            &&& old(self).pos() <= bad < old(self).rows_view().len()
                            &&& bad < old(self).pos() + 16
                            &&& record_of_line(old(self).rows_view()[bad]) is None
                            &&& forall|i: int|
                                old(self).pos() <= i < bad ==> record_of_line(
                                    #[trigger] old(self).rows_view()[i],
                                ) is Some
                        });
                    }
                    return Err(LoadError::BadDataRow);
                },
            }
        }
        Ok(Some(b))
    }
}

/// The shared trace store: the parsed records, the method-name table, the
/// distinct thread ids in ascending order, the trace's absolute end time,
/// the container location, and whether a load has finished.
pub struct VizData {
    pub calls: Vec<CallRecord>,
    pub method_index: HashMap<u32, Vec<u8>>,
    pub thread_ids: Vec<u32>,
    pub abs_end_time: u64,
    pub path: Option<String>,
    pub loaded: bool,
}

/// The header's outcome stands in the store: the end time, and the ids as
/// an ascending sequence holding exactly the header's ids.
pub open spec fn header_committed(d: VizData, ids: Seq<u32>, end: u64) -> bool {
    &&& d.abs_end_time == end
    &&& strictly_sorted(d.thread_ids@)
    &&& forall|y: u32| d.thread_ids@.contains(y) <==> ids.contains(y)
}

/// A whole container loads cleanly: all three members are present and every
/// row of each parses.
pub open spec fn load_ok(a: Seq<u8>) -> bool {
    &&& member_of(a, "header"@) is Some
    &&& header_of(member_of(a, "header"@).unwrap()) is Some
    &&& member_of(a, "methods"@) is Some
    &&& methods_of(member_of(a, "methods"@).unwrap()) is Some
    &&& member_of(a, "data"@) is Some
    &&& count_good(rows_of(member_of(a, "data"@).unwrap())) == rows_of(
        member_of(a, "data"@).unwrap(),
    ).len()
}

impl Default for VizData {
    /// An empty store bound to no source.  `loaded` is true: with no
    /// container there is nothing left to load.
    fn default() -> (d: VizData)
        ensures
            d.calls@.len() == 0,
            d.method_index@ == Map::<u32, Vec<u8>>::empty(),
            d.thread_ids@.len() == 0,
            d.abs_end_time == 0,
            d.path is None,
            d.loaded,
    {
        VizData {
            calls: Vec::new(),
            method_index: HashMap::new(),
            thread_ids: Vec::new(),
            abs_end_time: 0,
            path: None,
            loaded: true,
        }
    }
}

impl VizData {
    /// An empty store bound to a container location; nothing is loaded yet.
    pub fn new(path: String) -> (d: VizData)
        ensures
            d.calls@.len() == 0,
            d.method_index@ == Map::<u32, Vec<u8>>::empty(),
            d.thread_ids@.len() == 0,
            d.abs_end_time == 0,
            d.path == Some(path),
            !d.loaded,
    {
        VizData {
            calls: Vec::new(),
            method_index: HashMap::new(),
            thread_ids: Vec::new(),
            abs_end_time: 0,
            path: Some(path),
            loaded: false,
        }
    }

    /// Empties the store before repopulating it; the location stays.
    pub fn reset_for_load(&mut self)
        ensures
            final(self).calls@.len() == 0,
            final(self).method_index@ == Map::<u32, Vec<u8>>::empty(),
            final(self).thread_ids@.len() == 0,
            final(self).abs_end_time == old(self).abs_end_time,
            final(self).path == old(self).path,
            !final(self).loaded,
    {
        self.calls.clear();
        self.method_index.clear();
        self.thread_ids.clear();
        self.loaded = false;
    }

    /// Commits the header: the end time, and the ids as a sorted set.
    pub fn commit_header(&mut self, ids: &Vec<u32>, end: u64)
        ensures
            header_committed(*final(self), ids@, end),
            final(self).calls == old(self).calls,
            final(self).method_index == old(self).method_index,
            final(self).path == old(self).path,
            final(self).loaded == old(self).loaded,
    {
        self.thread_ids = sorted_unique(ids);
        self.abs_end_time = end;
    }

    /// Commits the parsed method table.
    pub fn commit_methods(&mut self, table: HashMap<u32, Vec<u8>>)
        ensures
            final(self).method_index == table,
            final(self).calls == old(self).calls,
            final(self).thread_ids == old(self).thread_ids,
            final(self).abs_end_time == old(self).abs_end_time,
            final(self).path == old(self).path,
            final(self).loaded == old(self).loaded,
    {
        self.method_index = table;
    }

    /// Appends one batch of records; everything else stays.  Readers that
    /// interleave with these commits see the record sequence only grow.
    pub fn append_batch(&mut self, batch: Vec<CallRecord>)
        ensures
            final(self).calls@ == old(self).calls@ + batch@,
            final(self).method_index == old(self).method_index,
            final(self).thread_ids == old(self).thread_ids,
            final(self).abs_end_time == old(self).abs_end_time,
            final(self).path == old(self).path,
            final(self).loaded == old(self).loaded,
    {
        let mut b = batch;
        self.calls.append(&mut b);
    }

    /// Marks the load finished, after the final batch.
    pub fn finish_load(&mut self)
        ensures
            *final(self) == (VizData { loaded: true, ..*old(self) }),
    {
        self.loaded = true;
    }

    /// Loads this store from a container's bytes: commits the header, then
    /// the method table, then the records in batches of at most sixteen.  A
    /// missing member or a malformed row aborts the load at that point; all
    /// earlier commits stay visible and `loaded` stays false.
    pub fn load(&mut self, archive: &Vec<u8>) -> (r: Result<(), LoadError>)
        ensures
            final(self).path == old(self).path,
            r is Ok <==> load_ok(archive@),
            member_of(archive@, "header"@) is None ==> r == Err::<(), LoadError>(
                LoadError::Archive,
            ) && *final(self) == *old(self),
            member_of(archive@, "header"@) matches Some(h) ==> header_of(h) is None ==> r
                == Err::<(), LoadError>(LoadError::BadHeader) && *final(self) == *old(self),
            member_of(archive@, "header"@) matches Some(h) ==> header_of(h) matches Some(hd)
                ==> {
                &&& header_committed(*final(self), hd.0, hd.1)
                &&& {
                    let mm = member_of(archive@, "methods"@);
                    if mm is None {
                        &&& r == Err::<(), LoadError>(LoadError::Archive)
                        &&& final(self).method_index@ == Map::<u32, Vec<u8>>::empty()
                        &&& final(self).calls@.len() == 0
                        &&& !final(self).loaded
                    } else if methods_of(mm.unwrap()) is None {
                        &&& r == Err::<(), LoadError>(LoadError::BadMethodRow)
                        &&& final(self).method_index@ == Map::<u32, Vec<u8>>::empty()
                        &&& final(self).calls@.len() == 0
                        &&& !final(self).loaded
                    } else {
                        &&& methods_match(final(self).method_index@, methods_of(mm.unwrap()).unwrap())
                        &&& {
                            let dm = member_of(archive@, "data"@);
                            if dm is None {
                                &&& r == Err::<(), LoadError>(LoadError::Archive)
                                &&& final(self).calls@.len() == 0
                                &&& !final(self).loaded
                            } else {
                                let rows = rows_of(dm.unwrap());
                                let g = count_good(rows);
                                if g == rows.len() {
                                    &&& r is Ok
                                    &&& final(self).loaded
                                    &&& final(self).calls@ == records_prefix(rows, rows.len() as int)
                                } else {
                                    &&& r == Err::<(), LoadError>(LoadError::BadDataRow)
                                    &&& !final(self).loaded
                                    &&& final(self).calls@ == records_prefix(rows, g - (g % 16))
                                }
                            }
                        }
                    }
                }
            },
    {
        let hb = match archive_member(archive, "header") {
            Ok(b) => b,
            Err(_) => {
                return Err(LoadError::Archive);
            },
        };
        let header = match parse_header(&hb) {
            Ok(p) => p,
            Err(_) => {
                return Err(LoadError::BadHeader);
            },
        };
        let (ids, end) = header;
        self.reset_for_load();
        self.commit_header(&ids, end);
        let mb = match archive_member(archive, "methods") {
            Ok(b) => b,
            Err(_) => {
                return Err(LoadError::Archive);
            },
        };
        let table = match parse_methods(&mb) {
            Ok(m) => m,
            Err(_) => {
                return Err(LoadError::BadMethodRow);
            },
        };
        self.commit_methods(table);
        let db = match archive_member(archive, "data") {
            Ok(b) => b,
            Err(_) => {
                return Err(LoadError::Archive);
            },
        };
        let mut loader = Loader::new(&db);
        let ghost rows = rows_of(db@);
        let ghost hd = header_of(hb@).unwrap();
        let ghost mm = methods_of(mb@).unwrap();
        proof {
            assert(self.calls@ =~= records_prefix(rows, 0));
        }
        loop
            invariant
                loader.wf(),
                loader.rows_view() == rows,
                member_of(archive@, "header"@) == Some(hb@),
                header_of(hb@) == Some(hd),
                member_of(archive@, "methods"@) == Some(mb@),
                methods_of(mb@) == Some(mm),
                member_of(archive@, "data"@) == Some(db@),
                rows == rows_of(db@),
                header_committed(*self, hd.0, hd.1),
                methods_match(self.method_index@, mm),
                self.path == old(self).path,
                !self.loaded,
                self.calls@ == records_prefix(rows, loader.pos()),
                forall|j: int|
                    0 <= j < loader.pos() ==> record_of_line(#[trigger] rows[j]) is Some,
                loader.pos() % 16 == 0 || loader.pos() == rows.len(),
            ensures
                loader.pos() == rows.len(),
                self.calls@ == records_prefix(rows, loader.pos()),
                forall|j: int|
                    0 <= j < loader.pos() ==> record_of_line(#[trigger] rows[j]) is Some,
                header_committed(*self, hd.0, hd.1),
                methods_match(self.method_index@, mm),
                self.path == old(self).path,
                !self.loaded,
                member_of(archive@, "header"@) == Some(hb@),
                header_of(hb@) == Some(hd),
                member_of(archive@, "methods"@) == Some(mb@),
                methods_of(mb@) == Some(mm),
                member_of(archive@, "data"@) == Some(db@),
                rows == rows_of(db@),
            decreases rows.len() - loader.pos(),
        {
            let ghost pos0 = loader.pos();
            match loader.next_batch() {
                Ok(Some(b)) => {
                    let ghost bview = b@;
                    self.append_batch(b);
                    proof {
                        assert(self.calls@ =~= records_prefix(rows, loader.pos()));
                        if bview.len() == 16 {
                            lemma_add_mod_noop(pos0, 16, 16);
                            lemma_small_mod(0, 16);
                            assert(loader.pos() % 16 == 0);
                        }
                    }
                },
                Ok(None) => {
                    break;
                },
                Err(_) => {
                    proof {
                        let j = choose|j: int|
                            {
                                &&& pos0 <= j < rows.len()
                                &&& j < pos0 + 16
                                &&& record_of_line(#[trigger] rows[j]) is None
                                &&& forall|i: int|
                                    pos0 <= i < j ==> record_of_line(#[trigger] rows[i]) is Some
                            };
                        assert forall|i: int| 0 <= i < j implies record_of_line(
                            #[trigger] rows[i],
                        ) is Some by {}
                        lemma_count_good_at(rows, j);
                        assert(pos0 % 16 == 0);
                        lemma_small_mod((j - pos0) as nat, 16);
                        lemma_add_mod_noop(pos0, j - pos0, 16);
                        assert(j % 16 == j - pos0);
                        assert(count_good(rows) - (count_good(rows) % 16) == pos0);
                    }
                    return Err(LoadError::BadDataRow);
                },
            }
        }
        proof {
            lemma_count_good_at(rows, rows.len() as int);
        }
        self.finish_load();
        Ok(())
    }
}

/// The number of records a reader sees after the first `k` batch commits of
/// a load.
pub open spec fn flat_len(batches: Seq<Seq<CallRecord>>, k: int) -> int
    decreases k,
{
    if k <= 0 {
        0
    } else {
        flat_len(batches, k - 1) + batches[k - 1].len()
    }
}

proof fn lemma_flat_len_mono(batches: Seq<Seq<CallRecord>>, i: int, j: int)
    requires
        0 <= i <= j <= batches.len(),
    ensures
        flat_len(batches, i) <= flat_len(batches, j),
    decreases j - i,
{
    if i < j {
        lemma_flat_len_mono(batches, i, j - 1);
    }
}

/// A load commits records in batches and only ever appends
/// (`append_batch`), so a reader polling the store between commits sees a
/// record count that never decreases and never exceeds the eventual total;
/// `loaded` stays false until `finish_load`, which follows the last batch.
pub proof fn lemma_load_progress(batches: Seq<Seq<CallRecord>>, i: int, j: int)
    requires
        0 <= i <= j <= batches.len(),
    ensures
        flat_len(batches, i) <= flat_len(batches, j),
        flat_len(batches, j) <= flat_len(batches, batches.len() as int),
{
    lemma_flat_len_mono(batches, i, j);
    lemma_flat_len_mono(batches, j, batches.len() as int);
}

} // verus!

