use vstd::prelude::*;

use crate::bytes::extend_bytes;
use crate::error::Error;

verus! {

/// A byte that a header value may hold.
pub open spec fn value_byte(b: u8) -> bool {
    (b >= 32 && b != 127) || b == 9
}

/// A byte of a header value that reads as text: visible ASCII or a tab.
pub open spec fn text_byte(b: u8) -> bool {
    (b >= 32 && b < 127) || b == 9
}

/// A byte of a header name: a token character.
pub open spec fn token_byte(b: u8) -> bool {
    (48 <= b <= 57) || (65 <= b <= 90) || (97 <= b <= 122) || b == 33 || (35 <= b <= 39) || b
        == 42 || b == 43 || b == 45 || b == 46 || b == 94 || b == 95 || b == 96 || b == 124 || b
        == 126
}

/// Every byte of `s` may stand in a header value.
pub open spec fn valid_value(s: Seq<u8>) -> bool {
    forall|i: int| 0 <= i < s.len() ==> #[trigger] value_byte(s[i])
}

/// Every byte of `s` is text.
pub open spec fn valid_text(s: Seq<u8>) -> bool {
    forall|i: int| 0 <= i < s.len() ==> #[trigger] text_byte(s[i])
}

/// `s` is a non-empty token.
pub open spec fn valid_name(s: Seq<u8>) -> bool {
    s.len() > 0 && forall|i: int| 0 <= i < s.len() ==> #[trigger] token_byte(s[i])
}

pub open spec fn lower_byte(b: u8) -> u8 {
    if 65 <= b <= 90 {
        (b + 32) as u8
    } else {
        b
    }
}

/// `s` with ASCII capitals made small.
pub open spec fn lower(s: Seq<u8>) -> Seq<u8> {
    s.map_values(|b: u8| lower_byte(b))
}

pub fn check_bytes_value(s: &[u8]) -> (r: bool)
    ensures
        r == valid_value(s@),
{
    let mut i: usize = 0;
    while i < s.len()
        invariant
            i <= s@.len(),
            forall|j: int| 0 <= j < i ==> #[trigger] value_byte(s@[j]),
        decreases s@.len() - i,
    {
        let b = s[i];
        if !((b >= 32 && b != 127) || b == 9) {
            assert(!value_byte(s@[i as int]));
            return false;
        }
        i = i + 1;
    }
    true
}

pub fn check_bytes_text(s: &[u8]) -> (r: bool)
    ensures
        r == valid_text(s@),
{
    let mut i: usize = 0;
    while i < s.len()
        invariant
            i <= s@.len(),
            forall|j: int| 0 <= j < i ==> #[trigger] text_byte(s@[j]),
        decreases s@.len() - i,
    {
        let b = s[i];
        if !((b >= 32 && b < 127) || b == 9) {
            assert(!text_byte(s@[i as int]));
            return false;
        }
        i = i + 1;
    }
    true
}

fn check_bytes_token(s: &[u8]) -> (r: bool)
    ensures
        r == valid_name(s@),
{
    if s.len() == 0 {
        return false;
    }
    let mut i: usize = 0;
    while i < s.len()
        invariant
            i <= s@.len(),
            forall|j: int| 0 <= j < i ==> #[trigger] token_byte(s@[j]),
        decreases s@.len() - i,
    {
        let b = s[i];
        if !((48 <= b && b <= 57) || (65 <= b && b <= 90) || (97 <= b && b <= 122) || b == 33 || (35
            <= b && b <= 39) || b == 42 || b == 43 || b == 45 || b == 46 || b == 94 || b == 95 || b
            == 96 || b == 124 || b == 126) {
            assert(!token_byte(s@[i as int]));
            return false;
        }
        i = i + 1;
    }
    true
}

/// `s` with ASCII capitals made small.
pub fn to_lower(s: &[u8]) -> (r: Vec<u8>)
    ensures
        r@ == lower(s@),
{
    let mut r: Vec<u8> = Vec::new();
    let mut i: usize = 0;
    while i < s.len()
        invariant
            i <= s@.len(),
            r@ == lower(s@.take(i as int)),
        decreases s@.len() - i,
    {
        let b = s[i];
        let c: u8 = if 65 <= b && b <= 90 {
            b + 32
        } else {
            b
        };
        r.push(c);
        i = i + 1;
        assert(r@ =~= lower(s@.take(i as int)));
    }
    assert(s@.take(s@.len() as int) =~= s@);
    r
}

pub fn bytes_eq(a: &[u8], b: &[u8]) -> (r: bool)
    ensures
        r == (a@ == b@),
{
    if a.len() != b.len() {
        return false;
    }
    let mut i: usize = 0;
    while i < a.len()
        invariant
            i <= a@.len(),
            a@.len() == b@.len(),
            forall|j: int| 0 <= j < i ==> a@[j] == b@[j],
        decreases a@.len() - i,
    {
        if a[i] != b[i] {
            return false;
        }
        i = i + 1;
    }
    assert(a@ =~= b@);
    true
}

/// A copy of `s`.
pub fn copy_bytes(s: &Vec<u8>) -> (r: Vec<u8>)
    ensures
        r@ == s@,
{
    let mut r: Vec<u8> = Vec::new();
    extend_bytes(&mut r, s.as_slice());
    r
}

pub type Entries = Seq<(Seq<u8>, Seq<u8>)>;

/// Is there an entry named `n`?
pub open spec fn has_name(s: Entries, n: Seq<u8>) -> bool {
    exists|i: int| 0 <= i < s.len() && #[trigger] s[i].0 == n
}

/// The value of the first entry named `n`.
pub open spec fn first(s: Entries, n: Seq<u8>) -> Option<Seq<u8>>
    decreases s.len(),
{
    if s.len() == 0 {
        None
    } else if s[0].0 == n {
        Some(s[0].1)
    } else {
        first(s.skip(1), n)
    }
}

/// `s` with the first entry named `n` given the value `v` and the later
/// entries named `n` dropped.
pub open spec fn replace_scan(s: Entries, n: Seq<u8>, v: Seq<u8>) -> Entries
    decreases s.len(),
{
    if s.len() == 0 {
        s
    } else {
        let p = replace_scan(s.drop_last(), n, v);
        if s.last().0 != n {
            p.push(s.last())
        } else if has_name(s.drop_last(), n) {
            p
        } else {
            p.push((n, v))
        }
    }
}

/// What `HeaderMap::insert` makes of the entries `s`: the first entry
/// named `n` keeps its place and takes the value `v`, later ones go; or a
/// new entry at the end.
pub open spec fn insert_spec(s: Entries, n: Seq<u8>, v: Seq<u8>) -> Entries {
    if has_name(s, n) {
        replace_scan(s, n, v)
    } else {
        s.push((n, v))
    }
}

/// An ordered header map. Names are kept in lower case; the entries keep
/// the order in which they were added.
pub struct HeaderMap {
    entries: Vec<(Vec<u8>, Vec<u8>)>,
}

impl View for HeaderMap {
    type V = Entries;

    closed spec fn view(&self) -> Entries {
        self.entries@.map_values(|e: (Vec<u8>, Vec<u8>)| (e.0@, e.1@))
    }
}

pub proof fn lemma_replace_scan(s: Entries, n: Seq<u8>, v: Seq<u8>)
    ensures
        has_name(s, n) ==> has_name(replace_scan(s, n, v), n),
        !has_name(s, n) ==> replace_scan(s, n, v) == s,
        forall|i: int|
            0 <= i < replace_scan(s, n, v).len() && (#[trigger] replace_scan(s, n, v)[i]).0 == n
                ==> replace_scan(s, n, v)[i].1 == v,
        forall|i: int, j: int|
            0 <= i < j < replace_scan(s, n, v).len() && (#[trigger] replace_scan(s, n, v)[i]).0
                == n ==> (#[trigger] replace_scan(s, n, v)[j]).0 != n,
        forall|i: int|
            0 <= i < replace_scan(s, n, v).len() ==> (#[trigger] replace_scan(s, n, v)[i] == (
                n,
                v,
            ) || exists|j: int| 0 <= j < s.len() && s[j] == replace_scan(s, n, v)[i]),
    decreases s.len(),
{
    if s.len() > 0 {
        let d = s.drop_last();
        lemma_replace_scan(d, n, v);
        let p = replace_scan(d, n, v);
        let r = replace_scan(s, n, v);
        if s.last().0 != n {
            if has_name(s, n) {
                let i = choose|i: int| 0 <= i < s.len() && #[trigger] s[i].0 == n;
                assert(d[i].0 == n);
                let k = choose|k: int| 0 <= k < p.len() && #[trigger] p[k].0 == n;
                assert(r[k].0 == n);
            }
            if !has_name(s, n) {
                assert(!has_name(d, n)) by {
                    if has_name(d, n) {
                        let i = choose|i: int| 0 <= i < d.len() && #[trigger] d[i].0 == n;
                        assert(s[i].0 == n);
                    }
                }
                assert(r =~= s);
            }
            assert forall|i: int| 0 <= i < r.len() implies (#[trigger] r[i] == (n, v) || exists|
                j: int,
            | 0 <= j < s.len() && s[j] == r[i]) by {
                if i < p.len() {
                    if p[i] != (n, v) {
                        let j = choose|j: int| 0 <= j < d.len() && d[j] == p[i];
                        assert(s[j] == r[i]);
                    }
                } else {
                    assert(s[s.len() - 1] == r[i]);
                }
            }
        } else if has_name(d, n) {
            assert forall|i: int| 0 <= i < r.len() implies (#[trigger] r[i] == (n, v) || exists|
                j: int,
            | 0 <= j < s.len() && s[j] == r[i]) by {
                if p[i] != (n, v) {
                    let j = choose|j: int| 0 <= j < d.len() && d[j] == p[i];
                    assert(s[j] == r[i]);
                }
            }
        } else {
            assert(r[r.len() - 1].0 == n);
            assert forall|i: int| 0 <= i < r.len() implies (#[trigger] r[i] == (n, v) || exists|
                j: int,
            | 0 <= j < s.len() && s[j] == r[i]) by {
                if i < p.len() && p[i] != (n, v) {
                    let j = choose|j: int| 0 <= j < d.len() && d[j] == p[i];
                    assert(s[j] == r[i]);
                }
            }
            assert forall|i: int, j: int|
                0 <= i < j < r.len() && (#[trigger] r[i]).0 == n implies (#[trigger] r[j]).0
                != n by {
                if j < r.len() - 1 {
                } else {
                    assert(p[i].0 == n);
                    assert(p[i] == (n, v) || exists|k: int| 0 <= k < d.len() && d[k] == p[i]);
                    if p[i] != (n, v) {
                        let k = choose|k: int| 0 <= k < d.len() && d[k] == p[i];
                        assert(d[k].0 == n);
                    } else {
                        assert(has_name(p, n));
                        assert(p == d);
                        assert(d[i].0 == n);
                    }
                }
            }
        }
    }
}

proof fn lemma_scan_step(s: Entries, i: int, n: Seq<u8>, v: Seq<u8>)
    requires
        0 <= i < s.len(),
    ensures
        replace_scan(s.take(i + 1), n, v) == if s[i].0 != n {
            replace_scan(s.take(i), n, v).push(s[i])
        } else if has_name(s.take(i), n) {
            replace_scan(s.take(i), n, v)
        } else {
            replace_scan(s.take(i), n, v).push((n, v))
        },
        has_name(s.take(i + 1), n) == (has_name(s.take(i), n) || s[i].0 == n),
{
    let t = s.take(i + 1);
    assert(t.drop_last() =~= s.take(i));
    assert(t.last() == s[i]);
    if has_name(t, n) && s[i].0 != n {
        let k = choose|k: int| 0 <= k < t.len() && #[trigger] t[k].0 == n;
        assert(s.take(i)[k].0 == n);
    }
    if has_name(s.take(i), n) {
        let k = choose|k: int| 0 <= k < s.take(i).len() && #[trigger] s.take(i)[k].0 == n;
        assert(t[k].0 == n);
    }
    if s[i].0 == n {
        assert(t[i].0 == n);
    }
}

/// After an insert, exactly one entry carries the name, with the new value.
pub proof fn lemma_insert_single(s: Entries, n: Seq<u8>, v: Seq<u8>)
    ensures
        has_name(insert_spec(s, n, v), n),
        forall|i: int|
            0 <= i < insert_spec(s, n, v).len() && (#[trigger] insert_spec(s, n, v)[i]).0 == n
                ==> insert_spec(s, n, v)[i].1 == v,
        forall|i: int, j: int|
            0 <= i < insert_spec(s, n, v).len() && 0 <= j < insert_spec(s, n, v).len() && (
            #[trigger] insert_spec(s, n, v)[i]).0 == n && (#[trigger] insert_spec(s, n, v)[j]).0
                == n ==> i == j,
{
    lemma_replace_scan(s, n, v);
    let r = insert_spec(s, n, v);
    if !has_name(s, n) {
        assert(r[s.len() as int].0 == n);
        assert forall|i: int| 0 <= i < r.len() && (#[trigger] r[i]).0 == n implies r[i].1 == v by {
            if i < s.len() {
                assert(s[i].0 == n);
            }
        }
        assert forall|i: int, j: int|
            0 <= i < r.len() && 0 <= j < r.len() && (#[trigger] r[i]).0 == n && (
            #[trigger] r[j]).0 == n implies i == j by {
            if i < s.len() {
                assert(s[i].0 == n);
            }
            if j < s.len() {
                assert(s[j].0 == n);
            }
        }
    } else {
        assert forall|i: int, j: int|
            0 <= i < r.len() && 0 <= j < r.len() && (#[trigger] r[i]).0 == n && (
            #[trigger] r[j]).0 == n implies i == j by {
            if i < j {
                assert(r[j].0 != n);
            } else if j < i {
                assert(r[i].0 != n);
            }
        }
    }
}

impl HeaderMap {
    pub fn new() -> (r: Self)
        ensures
            r@ == Seq::<(Seq<u8>, Seq<u8>)>::empty(),
    {
        let r = HeaderMap { entries: Vec::new() };
        assert(r@ =~= Seq::<(Seq<u8>, Seq<u8>)>::empty());
        r
    }

    pub fn len(&self) -> (r: usize)
        ensures
            r == self@.len(),
    {
        self.entries.len()
    }

    /// The name and value of entry `i`.
    pub fn entry(&self, i: usize) -> (r: (&[u8], &[u8]))
        requires
            i < self@.len(),
        ensures
            r.0@ == self@[i as int].0,
            r.1@ == self@[i as int].1,
    {
        let e = &self.entries[i];
        (e.0.as_slice(), e.1.as_slice())
    }

    /// The value of the first entry named `name`, in any case.
    pub fn get(&self, name: &[u8]) -> (r: Option<&[u8]>)
        ensures
            r matches Some(v) ==> first(self@, lower(name@)) == Some(v@),
            r is None ==> first(self@, lower(name@)) is None,
    {
        let n = to_lower(name);
        let mut i: usize = 0;
        assert(self@.skip(0) =~= self@);
        while i < self.entries.len()
            invariant
                i <= self@.len(),
                first(self@, n@) == first(self@.skip(i as int), n@),
                n@ == lower(name@),
            decreases self@.len() - i,
        {
            let e = &self.entries[i];
            assert(self@.skip(i as int)[0] == self@[i as int]);
            assert(self@.skip(i as int).skip(1) =~= self@.skip(i + 1 as int));
            if bytes_eq(e.0.as_slice(), n.as_slice()) {
                return Some(e.1.as_slice());
            }
            i = i + 1;
        }
        None
    }

    /// Sets `name` to `value`: the first entry of that name, in any case,
    /// keeps its place and takes the value and later ones are removed; with
    /// no such entry, one is added at the end.
    pub fn insert(&mut self, name: &[u8], value: &[u8]) -> (r: Result<(), Error>)
        ensures
            r is Ok <==> (valid_name(name@) && valid_value(value@)),
            r is Ok ==> final(self)@ == insert_spec(old(self)@, lower(name@), value@),
            r is Err ==> final(self)@ == old(self)@,
            !valid_name(name@) ==> r == Err::<(), Error>(Error::Http),
            valid_name(name@) && !valid_value(value@) ==> r == Err::<(), Error>(Error::HeaderValue),
    {
        if !check_bytes_token(name) {
            return Err(Error::Http);
        }
        if !check_bytes_value(value) {
            return Err(Error::HeaderValue);
        }
        let n = to_lower(name);
        let mut v: Vec<u8> = Vec::new();
        extend_bytes(&mut v, value);
        self.put(n, v);
        Ok(())
    }

    pub(crate) fn put(&mut self, n: Vec<u8>, v: Vec<u8>)
        ensures
            final(self)@ == insert_spec(old(self)@, n@, v@),
    {
        let ghost s = self@;
        let mut out: Vec<(Vec<u8>, Vec<u8>)> = Vec::new();
        let mut found = false;
        let mut i: usize = 0;
        let len = self.entries.len();
        assert(out@.map_values(|e: (Vec<u8>, Vec<u8>)| (e.0@, e.1@)) =~= replace_scan(
            s.take(0),
            n@,
            v@,
        ));
        while i < len
            invariant
                len == s.len(),
                s == self@,
                i <= len,
                out@.map_values(|e: (Vec<u8>, Vec<u8>)| (e.0@, e.1@)) == replace_scan(
                    s.take(i as int),
                    n@,
                    v@,
                ),
                found == has_name(s.take(i as int), n@),
            decreases len - i,
        {
            let e = &self.entries[i];
            proof {
                lemma_scan_step(s, i as int, n@, v@);
            }
            let ghost before = out@;
            if !bytes_eq(e.0.as_slice(), n.as_slice()) {
                out.push((copy_bytes(&e.0), copy_bytes(&e.1)));
            } else {
                if !found {
                    out.push((copy_bytes(&n), copy_bytes(&v)));
                }
                found = true;
            }
            assert(out@.map_values(|e: (Vec<u8>, Vec<u8>)| (e.0@, e.1@)) =~= replace_scan(
                s.take(i + 1 as int),
                n@,
                v@,
            ));
            i = i + 1;
        }
        assert(s.take(len as int) =~= s);
        proof {
            lemma_replace_scan(s, n@, v@);
        }
        if !found {
            out.push((n, v));
        }
        self.entries = out;
        assert(self@ =~= insert_spec(s, n@, v@));
    }

    /// Adds an entry named `name`, in lower case, at the end.
    pub fn append(&mut self, name: &[u8], value: &[u8]) -> (r: Result<(), Error>)
        ensures
            r is Ok <==> (valid_name(name@) && valid_value(value@)),
            r is Ok ==> final(self)@ == old(self)@.push((lower(name@), value@)),
            r is Err ==> final(self)@ == old(self)@,
    {
        if !check_bytes_token(name) {
            return Err(Error::Http);
        }
        if !check_bytes_value(value) {
            return Err(Error::HeaderValue);
        }
        let n = to_lower(name);
        let mut v: Vec<u8> = Vec::new();
        extend_bytes(&mut v, value);
        self.entries.push((n, v));
        assert(self@ =~= old(self)@.push((lower(name@), value@)));
        Ok(())
    }
}

/// The first value of a name exists exactly when the name does.
pub proof fn lemma_first_has(s: Entries, n: Seq<u8>)
    ensures
        first(s, n) is Some <==> has_name(s, n),
    decreases s.len(),
{
    if s.len() > 0 {
        lemma_first_has(s.skip(1), n);
        if has_name(s.skip(1), n) {
            let k = choose|k: int| 0 <= k < s.skip(1).len() && #[trigger] s.skip(1)[k].0 == n;
            assert(s[k + 1].0 == n);
        }
        if has_name(s, n) && s[0].0 != n {
            let k = choose|k: int| 0 <= k < s.len() && #[trigger] s[k].0 == n;
            assert(s.skip(1)[k - 1].0 == n);
        }
    }
}

/// Setting one name leaves the entries of every other name alone.
pub proof fn lemma_insert_other(s: Entries, n: Seq<u8>, v: Seq<u8>, x: Seq<u8>)
    requires
        x != n,
    ensures
        has_name(insert_spec(s, n, v), x) == has_name(s, x),
        first(insert_spec(s, n, v), x) == first(s, x),
{
    lemma_first_keeps(s, n, v, x);
    lemma_first_has(s, x);
    lemma_first_has(insert_spec(s, n, v), x);
}

proof fn lemma_first_keeps(s: Entries, n: Seq<u8>, v: Seq<u8>, x: Seq<u8>)
    requires
        x != n,
    ensures
        first(insert_spec(s, n, v), x) == first(s, x),
    decreases s.len(),
{
    lemma_first_has(s, n);
    if !has_name(s, n) {
        lemma_first_push(s, (n, v), x);
    } else {
        lemma_first_replace(s, n, v, x);
    }
}

proof fn lemma_first_push(s: Entries, e: (Seq<u8>, Seq<u8>), x: Seq<u8>)
    requires
        e.0 != x,
    ensures
        first(s.push(e), x) == first(s, x),
    decreases s.len(),
{
    if s.len() > 0 {
        assert(s.push(e).skip(1) =~= s.skip(1).push(e));
        lemma_first_push(s.skip(1), e, x);
    } else {
        assert(s.push(e).skip(1) =~= s);
    }
}

/// The first value of `x` over `s` followed by one more entry.
proof fn lemma_first_snoc(s: Entries, e: (Seq<u8>, Seq<u8>), x: Seq<u8>)
    ensures
        first(s.push(e), x) == if first(s, x) is Some {
            first(s, x)
        } else if e.0 == x {
            Some(e.1)
        } else {
            None
        },
    decreases s.len(),
{
    if s.len() > 0 {
        assert(s.push(e).skip(1) =~= s.skip(1).push(e));
        lemma_first_snoc(s.skip(1), e, x);
    } else {
        assert(s.push(e).skip(1) =~= s);
    }
}

proof fn lemma_first_replace(s: Entries, n: Seq<u8>, v: Seq<u8>, x: Seq<u8>)
    requires
        x != n,
    ensures
        first(replace_scan(s, n, v), x) == first(s, x),
    decreases s.len(),
{
    if s.len() > 0 {
        let d = s.drop_last();
        lemma_first_replace(d, n, v, x);
        let p = replace_scan(d, n, v);
        assert(s =~= d.push(s.last()));
        lemma_first_snoc(d, s.last(), x);
        if s.last().0 != n {
            lemma_first_snoc(p, s.last(), x);
        } else if has_name(d, n) {
            if first(d, x) is None {
                assert(s.last().0 != x);
            }
        } else {
            lemma_first_snoc(p, (n, v), x);
        }
    }
}

} // verus!
