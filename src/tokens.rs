use vstd::prelude::*;
use vstd::slice::slice_subrange;

use crate::headers::{lower, to_lower};

verus! {

/// ASCII white space: space, tab, line feed, vertical tab, form feed, CR.
pub open spec fn space_byte(b: u8) -> bool {
    b == 32 || (9 <= b <= 13)
}

pub open spec fn trim_start(s: Seq<u8>) -> Seq<u8>
    decreases s.len(),
{
    if s.len() > 0 && space_byte(s[0]) {
        trim_start(s.skip(1))
    } else {
        s
    }
}

pub open spec fn trim_end(s: Seq<u8>) -> Seq<u8>
    decreases s.len(),
{
    if s.len() > 0 && space_byte(s.last()) {
        trim_end(s.drop_last())
    } else {
        s
    }
}

/// `s` without white space at either end.
pub open spec fn trim(s: Seq<u8>) -> Seq<u8> {
    trim_end(trim_start(s))
}

/// The index of the first comma in `s`, or its length.
pub open spec fn first_comma(s: Seq<u8>) -> nat
    decreases s.len(),
{
    if s.len() == 0 || s[0] == 44 {
        0
    } else {
        1 + first_comma(s.skip(1))
    }
}

/// The comma-separated parts of `s`, each trimmed and in lower case.
pub open spec fn parts(s: Seq<u8>) -> Seq<Seq<u8>>
    decreases s.len(),
{
    let i = first_comma(s);
    let head = lower(trim(s.take(i as int)));
    if i < s.len() {
        seq![head] + parts(s.skip(i + 1 as int))
    } else {
        seq![head]
    }
}

proof fn lemma_first_comma(s: Seq<u8>)
    ensures
        first_comma(s) <= s.len(),
        first_comma(s) < s.len() ==> s[first_comma(s) as int] == 44,
        forall|k: int| 0 <= k < first_comma(s) ==> s[k] != 44,
    decreases s.len(),
{
    if s.len() > 0 && s[0] != 44 {
        lemma_first_comma(s.skip(1));
        assert forall|k: int| 0 <= k < first_comma(s) implies s[k] != 44 by {
            if k > 0 {
                assert(s[k] == s.skip(1)[k - 1]);
            }
        }
    }
}

/// `s` without white space at either end.
pub fn trim_bytes(s: &[u8]) -> (r: &[u8])
    ensures
        r@ == trim(s@),
{
    let mut a: usize = 0;
    assert(s@.skip(0) =~= s@);
    while a < s.len() && (s[a] == 32 || (9 <= s[a] && s[a] <= 13))
        invariant
            a <= s@.len(),
            trim_start(s@) == trim_start(s@.skip(a as int)),
        decreases s@.len() - a,
    {
        assert(s@.skip(a as int).skip(1) =~= s@.skip(a + 1 as int));
        a = a + 1;
    }
    let t = slice_subrange(s, a, s.len());
    assert(t@ == trim_start(s@)) by {
        assert(t@ =~= s@.skip(a as int));
    }
    let mut b: usize = t.len();
    assert(t@.take(b as int) =~= t@);
    while b > 0 && (t[b - 1] == 32 || (9 <= t[b - 1] && t[b - 1] <= 13))
        invariant
            b <= t@.len(),
            trim_end(t@) == trim_end(t@.take(b as int)),
        decreases b,
    {
        assert(t@.take(b as int).drop_last() =~= t@.take(b - 1 as int));
        b = b - 1;
    }
    let r = slice_subrange(t, 0, b);
    assert(r@ =~= t@.take(b as int));
    r
}

/// The comma-separated parts of `s`, each trimmed and in lower case.
pub fn split_tokens(s: &[u8]) -> (r: Vec<Vec<u8>>)
    ensures
        r@.map_values(|t: Vec<u8>| t@) == parts(s@),
{
    let mut out: Vec<Vec<u8>> = Vec::new();
    let mut start: usize = 0;
    assert(s@.skip(0) =~= s@);
    loop
        invariant
            start <= s@.len(),
            out@.map_values(|t: Vec<u8>| t@) + parts(s@.skip(start as int)) == parts(s@),
        decreases s@.len() - start,
    {
        let ghost rest = s@.skip(start as int);
        proof {
            lemma_first_comma(rest);
        }
        let mut j: usize = start;
        while j < s.len() && s[j] != 44
            invariant
                start <= j <= s@.len(),
                forall|k: int| start <= k < j ==> s@[k] != 44,
                rest == s@.skip(start as int),
            decreases s@.len() - j,
        {
            j = j + 1;
        }
        proof {
            if j - start < first_comma(rest) {
                assert(rest[j - start] != 44);
                assert(s@[j as int] == rest[j - start]);
            }
            if j - start > first_comma(rest) {
                assert(s@[start + first_comma(rest)] == rest[first_comma(rest) as int]);
            }
        }
        let seg = slice_subrange(s, start, j);
        assert(seg@ =~= rest.take((j - start) as int));
        let t = to_lower(trim_bytes(seg));
        let ghost before = out@.map_values(|t: Vec<u8>| t@);
        out.push(t);
        assert(out@.map_values(|t: Vec<u8>| t@) =~= before.push(t@));
        if j == s.len() {
            assert(parts(rest) =~= seq![t@]);
            assert(before + parts(rest) =~= out@.map_values(|t: Vec<u8>| t@));
            return out;
        }
        proof {
            assert(rest.skip(j - start + 1) =~= s@.skip(j + 1 as int));
            assert(parts(rest) =~= seq![t@] + parts(s@.skip(j + 1 as int)));
            assert(before + parts(rest) =~= out@.map_values(|t: Vec<u8>| t@) + parts(
                s@.skip(j + 1 as int),
            ));
        }
        start = j + 1;
    }
}

} // verus!
