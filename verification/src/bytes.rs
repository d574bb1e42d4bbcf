//! Byte-level text utilities: decimal numbers and delimiter splitting.
//!
//! The trace container's members are line-oriented text with `|`- and
//! `;`-separated fields.  Everything here works on raw bytes, so the whole
//! format lives in this crate and is verified against the spec functions
//! below.

use vstd::prelude::*;

verus! {

/// True when `c` is an ASCII decimal digit.
pub open spec fn is_digit(c: u8) -> bool {
    48 <= c <= 57
}

/// True when every byte of `s` is an ASCII decimal digit.
pub open spec fn all_digits(s: Seq<u8>) -> bool {
    forall|i: int| 0 <= i < s.len() ==> is_digit(#[trigger] s[i])
}

/// The numeric value of a digit string, most significant digit first.
pub open spec fn dec_val(s: Seq<u8>) -> nat
    decreases s.len(),
{
    if s.len() == 0 {
        0
    } else {
        (dec_val(s.drop_last()) * 10 + (s.last() - 48)) as nat
    }
}

/// What parsing a decimal `u64` yields: the value when the text is a
/// non-empty digit string whose value fits, nothing otherwise.
pub open spec fn parse_u64_spec(s: Seq<u8>) -> Option<u64> {
    if s.len() > 0 && all_digits(s) && dec_val(s) <= u64::MAX {
        Some(dec_val(s) as u64)
    } else {
        None
    }
}

/// As `parse_u64_spec`, for values that must fit in a `u32`.
pub open spec fn parse_u32_spec(s: Seq<u8>) -> Option<u32> {
    if s.len() > 0 && all_digits(s) && dec_val(s) <= u32::MAX {
        Some(dec_val(s) as u32)
    } else {
        None
    }
}

/// A digit string's value only grows when more digits follow: the value of
/// a prefix never exceeds the value of the whole.
proof fn lemma_dec_val_prefix_le(s: Seq<u8>, i: int)
    requires
        0 <= i <= s.len(),
        all_digits(s),
    ensures
        dec_val(s.take(i)) <= dec_val(s),
    decreases s.len() - i,
{
    if i < s.len() {
        assert(s.take(i + 1).drop_last() =~= s.take(i));
        assert(s.take(i + 1).last() == s[i]);
        lemma_dec_val_prefix_le(s, i + 1);
    } else {
        assert(s.take(i) =~= s);
    }
}

/// Parses `s` as a decimal `u64`.  Succeeds exactly on non-empty digit
/// strings whose value fits.
pub fn parse_u64(s: &Vec<u8>) -> (r: Option<u64>)
    ensures
        r == parse_u64_spec(s@),
{
    if s.len() == 0 {
        return None;
    }
    let mut acc: u64 = 0;
    let mut i: usize = 0;
    while i < s.len()
        invariant
            0 <= i <= s@.len(),
            all_digits(s@.take(i as int)),
            acc == dec_val(s@.take(i as int)),
        decreases s@.len() - i,
    {
        let c = s[i];
        if c < 48 || c > 57 {
            assert(!is_digit(s@[i as int]));
            return None;
        }
        let d: u64 = (c - 48) as u64;
        // u64::MAX / 10 and u64::MAX % 10
        if acc > 0x1999999999999999u64 || (acc == 0x1999999999999999u64 && d > 5) {
            proof {
                assert(s@.take(i + 1).drop_last() =~= s@.take(i as int));
                assert(s@.take(i + 1).last() == s@[i as int]);
                assert(dec_val(s@.take(i + 1)) == acc * 10 + d);
                if all_digits(s@) {
                    lemma_dec_val_prefix_le(s@, i + 1);
                }
            }
            return None;
        }
        proof {
            assert(s@.take(i + 1).drop_last() =~= s@.take(i as int));
            assert(s@.take(i + 1).last() == s@[i as int]);
        }
        acc = acc * 10 + d;
        i = i + 1;
    }
    proof {
        assert(s@.take(i as int) =~= s@);
    }
    Some(acc)
}

/// Parses `s` as a decimal `u32`.  Succeeds exactly on non-empty digit
/// strings whose value fits.
pub fn parse_u32(s: &Vec<u8>) -> (r: Option<u32>)
    ensures
        r == parse_u32_spec(s@),
{
    match parse_u64(s) {
        Some(v) => {
            if v <= 0xFFFF_FFFFu64 {
                Some(v as u32)
            } else {
                None
            }
        },
        None => None,
    }
}

/// The tokens of `s` between occurrences of the delimiter `d`.  A delimiter
/// at the start or end, or two in a row, yields an empty token; the empty
/// text yields one empty token.
pub open spec fn split_spec(s: Seq<u8>, d: u8) -> Seq<Seq<u8>>
    decreases s.len(),
{
    if s.len() == 0 {
        seq![Seq::<u8>::empty()]
    } else if s[0] == d {
        seq![Seq::<u8>::empty()] + split_spec(s.skip(1), d)
    } else {
        let rest = split_spec(s.skip(1), d);
        seq![seq![s[0]] + rest[0]] + rest.skip(1)
    }
}

/// Splitting always yields at least one token.
pub proof fn lemma_split_len(s: Seq<u8>, d: u8)
    ensures
        split_spec(s, d).len() >= 1,
    decreases s.len(),
{
    if s.len() != 0 {
        lemma_split_len(s.skip(1), d);
    }
}

/// How one more byte extends a split: a delimiter opens a fresh empty token,
/// any other byte lands at the end of the last token.
pub proof fn lemma_split_push(s: Seq<u8>, d: u8, c: u8)
    ensures
        split_spec(s, d).len() >= 1,
        c == d ==> split_spec(s.push(c), d) == split_spec(s, d).push(Seq::<u8>::empty()),
        c != d ==> split_spec(s.push(c), d) == split_spec(s, d).update(
            split_spec(s, d).len() - 1,
            split_spec(s, d).last().push(c),
        ),
    decreases s.len(),
{
    reveal_with_fuel(split_spec, 3);
    lemma_split_len(s, d);
    let t = split_spec(s, d);
    let sc = s.push(c);
    assert(sc.len() == s.len() + 1);
    if s.len() == 0 {
        assert(sc[0] == c);
        assert(sc.skip(1) =~= Seq::<u8>::empty());
        if c == d {
            assert(split_spec(sc, d) =~= t.push(Seq::<u8>::empty()));
        } else {
            assert(seq![sc[0]] + split_spec(sc.skip(1), d)[0] =~= t.last().push(c));
            assert(split_spec(sc, d) =~= t.update(t.len() - 1, t.last().push(c)));
        }
    } else {
        let s1 = s.skip(1);
        assert(sc[0] == s[0]);
        assert(sc.skip(1) =~= s1.push(c));
        lemma_split_push(s1, d, c);
        let r = split_spec(s1, d);
        let rc = split_spec(s1.push(c), d);
        if s[0] == d {
            assert(t == seq![Seq::<u8>::empty()] + r);
            assert(t.last() == r.last());
            assert(split_spec(sc, d) == seq![Seq::<u8>::empty()] + rc);
            if c == d {
                assert(rc == r.push(Seq::<u8>::empty()));
                assert(seq![Seq::<u8>::empty()] + r.push(Seq::<u8>::empty()) =~= (
                seq![Seq::<u8>::empty()] + r).push(Seq::<u8>::empty()));
                assert(split_spec(sc, d) =~= t.push(Seq::<u8>::empty()));
            } else {
                assert(split_spec(sc, d) =~= t.update(t.len() - 1, t.last().push(c)));
            }
        } else {
            assert(t == seq![seq![s[0]] + r[0]] + r.skip(1));
            if c == d {
                assert(rc == r.push(Seq::<u8>::empty()));
                assert(rc[0] == r[0]);
                assert(rc.skip(1) =~= r.skip(1).push(Seq::<u8>::empty()));
                assert(split_spec(sc, d) =~= t.push(Seq::<u8>::empty()));
            } else {
                assert(rc == r.update(r.len() - 1, r.last().push(c)));
                if r.len() == 1 {
                    assert(rc[0] == r[0].push(c));
                    assert(rc.skip(1) =~= r.skip(1));
                    assert(t.len() == 1);
                    assert(t.last() == seq![s[0]] + r[0]);
                    assert(seq![sc[0]] + rc[0] =~= t.last().push(c));
                    assert(split_spec(sc, d) =~= t.update(t.len() - 1, t.last().push(c)));
                } else {
                    assert(rc[0] == r[0]);
                    assert(rc.skip(1) =~= r.skip(1).update(r.len() - 2, r.last().push(c)));
                    assert(t.last() == r.last());
                    assert(split_spec(sc, d) =~= t.update(t.len() - 1, t.last().push(c)));
                }
            }
        }
    }
}

/// Splits `s` at every occurrence of the delimiter `d`.
pub fn split(s: &Vec<u8>, d: u8) -> (r: Vec<Vec<u8>>)
    ensures
        r@.map_values(|t: Vec<u8>| t@) == split_spec(s@, d),
{
    let mut out: Vec<Vec<u8>> = Vec::new();
    let mut cur: Vec<u8> = Vec::new();
    let mut i: usize = 0;
    proof {
        assert(s@.take(0) =~= Seq::<u8>::empty());
        assert(out@.map_values(|t: Vec<u8>| t@).push(cur@) =~= split_spec(s@.take(0), d));
    }
    while i < s.len()
        invariant
            0 <= i <= s@.len(),
            out@.map_values(|t: Vec<u8>| t@).push(cur@) == split_spec(s@.take(i as int), d),
        decreases s@.len() - i,
    {
        let c = s[i];
        proof {
            assert(s@.take(i + 1) =~= s@.take(i as int).push(s@[i as int]));
            lemma_split_push(s@.take(i as int), d, c);
        }
        if c == d {
            let token = cur;
            cur = Vec::new();
            out.push(token);
            proof {
                assert(out@.map_values(|t: Vec<u8>| t@).push(cur@) =~= split_spec(
                    s@.take(i + 1),
                    d,
                ));
            }
        } else {
            cur.push(c);
            proof {
                assert(out@.map_values(|t: Vec<u8>| t@).push(cur@) =~= split_spec(
                    s@.take(i + 1),
                    d,
                ));
            }
        }
        i = i + 1;
    }
    proof {
        assert(s@.take(i as int) =~= s@);
    }
    out.push(cur);
    proof {
        lemma_split_len(s@, d);
        assert(out@.map_values(|t: Vec<u8>| t@) =~= split_spec(s@, d));
    }
    out
}

/// A line with a trailing carriage return loses it; any other line is kept
/// as it is.
pub open spec fn strip_cr(s: Seq<u8>) -> Seq<u8> {
    if s.len() > 0 && s.last() == 13 {
        s.drop_last()
    } else {
        s
    }
}

/// The lines of `s`: the `\n`-separated tokens, except that text ending in
/// `\n` yields no final empty line, and each line loses a trailing `\r`.
/// Empty text has no lines.
pub open spec fn lines_spec(s: Seq<u8>) -> Seq<Seq<u8>> {
    let p = split_spec(s, 10);
    let q = if p.last().len() == 0 {
        p.drop_last()
    } else {
        p
    };
    q.map_values(|t: Seq<u8>| strip_cr(t))
}

/// Splits `s` into its lines.
pub fn lines(s: &Vec<u8>) -> (r: Vec<Vec<u8>>)
    ensures
        r@.map_values(|t: Vec<u8>| t@) == lines_spec(s@),
{
    let mut out: Vec<Vec<u8>> = Vec::new();
    let mut cur: Vec<u8> = Vec::new();
    let mut i: usize = 0;
    proof {
        assert(s@.take(0) =~= Seq::<u8>::empty());
        assert(out@.map_values(|t: Vec<u8>| t@) =~= split_spec(s@.take(0), 10).drop_last()
            .map_values(|t: Seq<u8>| strip_cr(t)));
    }
    while i < s.len()
        invariant
            0 <= i <= s@.len(),
            cur@ == split_spec(s@.take(i as int), 10).last(),
            out@.map_values(|t: Vec<u8>| t@) == split_spec(s@.take(i as int), 10).drop_last()
                .map_values(|t: Seq<u8>| strip_cr(t)),
        decreases s@.len() - i,
    {
        let c = s[i];
        proof {
            assert(s@.take(i + 1) =~= s@.take(i as int).push(s@[i as int]));
            lemma_split_push(s@.take(i as int), 10, c);
        }
        let ghost told = split_spec(s@.take(i as int), 10);
        let ghost tnew = split_spec(s@.take(i + 1), 10);
        if c == 10 {
            let mut token = cur;
            cur = Vec::new();
            if token.len() > 0 && token[token.len() - 1] == 13 {
                token.pop();
                proof {
                    assert(token@ =~= strip_cr(told.last()));
                }
            }
            out.push(token);
            proof {
                assert(tnew.drop_last() =~= told);
                assert(told.drop_last().map_values(|t: Seq<u8>| strip_cr(t)).push(
                strip_cr(told.last())) =~= told.map_values(|t: Seq<u8>| strip_cr(t)));
                assert(out@.map_values(|t: Vec<u8>| t@) =~= tnew.drop_last().map_values(
                |t: Seq<u8>| strip_cr(t)));
            }
        } else {
            cur.push(c);
            proof {
                assert(tnew.drop_last() =~= told.drop_last());
                assert(tnew.last() == told.last().push(c));
                assert(out@.map_values(|t: Vec<u8>| t@) =~= tnew.drop_last().map_values(
                |t: Seq<u8>| strip_cr(t)));
            }
        }
        i = i + 1;
    }
    proof {
        assert(s@.take(i as int) =~= s@);
    }
    if cur.len() > 0 {
        if cur[cur.len() - 1] == 13 {
            cur.pop();
            proof {
                assert(cur@ =~= strip_cr(split_spec(s@, 10).last()));
            }
        }
        out.push(cur);
        proof {
            let p = split_spec(s@, 10);
            assert(p.drop_last().map_values(|t: Seq<u8>| strip_cr(t)).push(strip_cr(p.last()))
                =~= p.map_values(|t: Seq<u8>| strip_cr(t)));
            assert(out@.map_values(|t: Vec<u8>| t@) =~= lines_spec(s@));
        }
    } else {
        proof {
            assert(out@.map_values(|t: Vec<u8>| t@) =~= lines_spec(s@));
        }
    }
    out
}

} // verus!
