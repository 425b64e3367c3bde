use vstd::prelude::*;
use vstd::slice::slice_subrange;

use crate::error::{Error, IoKind};

verus! {

/// How many of the first `i` addresses belong to family `v6`.
pub open spec fn family_count(v6: Seq<bool>, i: int, fam: bool) -> nat
    decreases i,
{
    if i <= 0 {
        0
    } else if v6[i - 1] == fam {
        family_count(v6, i - 1, fam) + 1
    } else {
        family_count(v6, i - 1, fam)
    }
}

/// The place of address `i` among the connect attempts: the k-th IPv6
/// address goes at 2k and the k-th IPv4 address at 2k + 1.
pub open spec fn priority(v6: Seq<bool>, i: int) -> int {
    let k = family_count(v6, i, v6[i]) as int;
    if v6[i] {
        2 * k
    } else {
        2 * k + 1
    }
}

/// The order in which to try the addresses: each index once, by priority.
pub open spec fn is_connect_order(v6: Seq<bool>, r: Seq<usize>) -> bool {
    &&& r.len() == v6.len()
    &&& forall|k: int| 0 <= k < r.len() ==> #[trigger] r[k] < v6.len()
    &&& forall|k1: int, k2: int|
        0 <= k1 < k2 < r.len() ==> #[trigger] priority(v6, r[k1] as int) < #[trigger] priority(
            v6,
            r[k2] as int,
        )
}

/// The indices of the addresses of one family, in the order resolved.
fn family_indices(v6: &Vec<bool>, fam: bool) -> (r: Vec<usize>)
    ensures
        r@.len() == family_count(v6@, v6@.len() as int, fam),
        forall|k: int|
            0 <= k < r@.len() ==> #[trigger] r@[k] < v6@.len() && v6@[r@[k] as int] == fam
                && family_count(v6@, r@[k] as int, fam) == k,
{
    let mut r: Vec<usize> = Vec::new();
    let mut i: usize = 0;
    while i < v6.len()
        invariant
            i <= v6@.len(),
            r@.len() == family_count(v6@, i as int, fam),
            forall|k: int|
                0 <= k < r@.len() ==> #[trigger] r@[k] < i && v6@[r@[k] as int] == fam
                    && family_count(v6@, r@[k] as int, fam) == k,
        decreases v6@.len() - i,
    {
        if v6[i] == fam {
            r.push(i);
        }
        i = i + 1;
    }
    r
}

proof fn lemma_family_counts(v6: Seq<bool>, i: int)
    requires
        0 <= i <= v6.len(),
    ensures
        family_count(v6, i, true) + family_count(v6, i, false) == i,
    decreases i,
{
    if i > 0 {
        lemma_family_counts(v6, i - 1);
    }
}

/// Interleaves the resolved addresses, given by family (`true` for IPv6):
/// IPv6 first, then IPv4, then IPv6 again, each family in the order resolved,
/// and what is left of the longer family at the end.
pub fn connect_order(v6: &Vec<bool>) -> (r: Vec<usize>)
    ensures
        is_connect_order(v6@, r@),
{
    let a = family_indices(v6, true);
    let b = family_indices(v6, false);
    proof {
        lemma_family_counts(v6@, v6@.len() as int);
    }
    let mut r: Vec<usize> = Vec::new();
    let mut k: usize = 0;
    while k < a.len() || k < b.len()
        invariant
            a@.len() + b@.len() == v6@.len(),
            forall|j: int|
                0 <= j < a@.len() ==> #[trigger] a@[j] < v6@.len() && v6@[a@[j] as int]
                    && family_count(v6@, a@[j] as int, true) == j,
            forall|j: int|
                0 <= j < b@.len() ==> #[trigger] b@[j] < v6@.len() && !v6@[b@[j] as int]
                    && family_count(v6@, b@[j] as int, false) == j,
            r@.len() == (if k < a@.len() { k as int } else { a@.len() as int }) + (if k
                < b@.len() {
                k as int
            } else {
                b@.len() as int
            }),
            forall|j: int| 0 <= j < r@.len() ==> #[trigger] r@[j] < v6@.len(),
            forall|j: int| 0 <= j < r@.len() ==> #[trigger] priority(v6@, r@[j] as int) < 2 * k,
            forall|k1: int, k2: int|
                0 <= k1 < k2 < r@.len() ==> #[trigger] priority(v6@, r@[k1] as int)
                    < #[trigger] priority(v6@, r@[k2] as int),
        decreases (if a@.len() > b@.len() { a@.len() } else { b@.len() }) - k,
    {
        if k < a.len() {
            let x = a[k];
            assert(priority(v6@, x as int) == 2 * k);
            r.push(x);
        }
        if k < b.len() {
            let y = b[k];
            assert(priority(v6@, y as int) == 2 * k + 1);
            r.push(y);
        }
        k = k + 1;
    }
    r
}

/// The literal between the brackets of `[...]`, where `host` is written so.
pub open spec fn bracketed(host: Seq<u8>) -> Option<Seq<u8>> {
    if host.len() >= 2 && host[0] == 91 && host.last() == 93 {
        Some(host.subrange(1, host.len() - 1))
    } else {
        None
    }
}

/// The text inside `[` and `]`, for a host written as a bracketed literal.
pub fn bracketed_literal(host: &[u8]) -> (r: Option<&[u8]>)
    ensures
        match bracketed(host@) {
            Some(b) => r matches Some(x) && x@ == b,
            None => r is None,
        },
{
    if host.len() >= 2 && host[0] == 91 && host[host.len() - 1] == 93 {
        Some(slice_subrange(host, 1, host.len() - 1))
    } else {
        None
    }
}

/// The name to check a server's certificate against: the host, without the
/// brackets of an IPv6 literal.
pub fn server_name(host: &[u8]) -> (r: &[u8])
    ensures
        r@ == match bracketed(host@) {
            Some(b) => b,
            None => host@,
        },
{
    match bracketed_literal(host) {
        Some(b) => b,
        None => host,
    }
}

/// What the dialer learned since its last action.
pub enum DialEvent {
    /// Attempt `i` (an index into the resolved addresses) connected.
    Connected(usize),
    /// An attempt failed.
    Failed(IoKind),
    /// The stagger delay passed with no attempt reporting back.
    Quiet,
}

/// What the dialer asks for next.
#[derive(Debug, PartialEq, Eq, Structural)]
pub enum DialAction {
    /// Start a connect attempt to address `i`, then wait up to the stagger
    /// delay for any attempt to report back.
    Launch(usize),
    /// Every attempt is started: wait, without a limit, for the next report.
    Wait,
    /// Use the connection of attempt `i`; drop the others.
    Use(usize),
    /// Every attempt failed: report the first failure.
    Fail(Error),
}

/// The staggered dialer's state: attempts go out in connect order, one per
/// quiet period or failure, and the first success wins.
pub struct Dialer {
    order: Vec<usize>,
    launched: usize,
    reported: usize,
    first_err: Option<IoKind>,
}

impl Dialer {
    pub closed spec fn order(&self) -> Seq<usize> {
        self.order@
    }

    /// Attempts started so far.
    pub closed spec fn launched(&self) -> nat {
        self.launched as nat
    }

    /// Attempts that reported back so far.
    pub closed spec fn reported(&self) -> nat {
        self.reported as nat
    }

    /// The first failure reported, if any.
    pub closed spec fn first_err(&self) -> Option<IoKind> {
        self.first_err
    }

    pub closed spec fn wf(&self) -> bool {
        self.reported <= self.launched <= self.order@.len()
    }

    /// How many attempts are started.
    pub fn launched_count(&self) -> (r: usize)
        ensures
            r == self.launched(),
    {
        self.launched
    }

    /// How many attempts have reported back.
    pub fn reported_count(&self) -> (r: usize)
        ensures
            r == self.reported(),
    {
        self.reported
    }

    /// A dialer over the addresses, given by family (`true` for IPv6).
    pub fn new(v6: &Vec<bool>) -> (r: Dialer)
        ensures
            r.wf(),
            is_connect_order(v6@, r.order()),
            r.launched() == 0,
            r.reported() == 0,
            r.first_err() is None,
    {
        Dialer { order: connect_order(v6), launched: 0, reported: 0, first_err: None }
    }

    /// Launches the next attempt, or once all are out, waits for the rest
    /// or fails with the first error.
    fn advance(&mut self) -> (r: DialAction)
        requires
            old(self).wf(),
        ensures
            final(self).wf(),
            final(self).order() == old(self).order(),
            final(self).reported() == old(self).reported(),
            final(self).first_err() == old(self).first_err(),
            old(self).launched() < old(self).order().len() ==> r == DialAction::Launch(
                old(self).order()[old(self).launched() as int],
            ) && final(self).launched() == old(self).launched() + 1,
            old(self).launched() == old(self).order().len() ==> final(self).launched()
                == old(self).launched() && if old(self).reported() < old(self).launched() {
                r == DialAction::Wait
            } else {
                r == DialAction::Fail(
                    Error::Io(
                        match old(self).first_err() {
                            Some(k) => k,
                            None => IoKind::Other,
                        },
                    ),
                )
            },
    {
        if self.launched < self.order.len() {
            let i = self.order[self.launched];
            self.launched = self.launched + 1;
            DialAction::Launch(i)
        } else if self.reported < self.launched {
            DialAction::Wait
        } else {
            DialAction::Fail(
                Error::Io(
                    match self.first_err {
                        Some(k) => k,
                        None => IoKind::Other,
                    },
                ),
            )
        }
    }

    /// The first action: launch the first attempt, or fail when there is no
    /// address.
    pub fn start(&mut self) -> (r: DialAction)
        requires
            old(self).wf(),
            old(self).launched() == 0,
            old(self).reported() == 0,
        ensures
            final(self).wf(),
            final(self).order() == old(self).order(),
            final(self).reported() == 0,
            final(self).first_err() == old(self).first_err(),
            old(self).order().len() > 0 ==> r == DialAction::Launch(old(self).order()[0])
                && final(self).launched() == 1,
            old(self).order().len() == 0 ==> r == DialAction::Fail(
                Error::Io(
                    match old(self).first_err() {
                        Some(k) => k,
                        None => IoKind::Other,
                    },
                ),
            ),
    {
        self.advance()
    }

    /// The next action after `ev`. A connection is used at once; a failure
    /// is remembered if it is the first; after a failure or a quiet period
    /// the next attempt goes out, and once all are out the dialer waits
    /// until every attempt has reported.
    pub fn on_event(&mut self, ev: DialEvent) -> (r: DialAction)
        requires
            old(self).wf(),
            old(self).launched() > 0,
            !(ev matches DialEvent::Quiet) ==> old(self).reported() < old(self).launched(),
        ensures
            final(self).wf(),
            final(self).order() == old(self).order(),
            final(self).reported() <= final(self).launched() <= final(self).order().len(),
            ev matches DialEvent::Connected(i) ==> r == DialAction::Use(i) && final(self).launched()
                == old(self).launched() && final(self).reported() == old(self).reported(),
            ev matches DialEvent::Quiet ==> final(self).reported() == old(self).reported()
                && final(self).first_err() == old(self).first_err(),
            ev matches DialEvent::Failed(k) ==> final(self).reported() == old(self).reported() + 1
                && final(self).first_err() == match old(self).first_err() {
                Some(e) => Some(e),
                None => Some(k),
            },
            !(ev matches DialEvent::Connected(_)) ==> {
                &&& old(self).launched() < old(self).order().len() ==> r == DialAction::Launch(
                    old(self).order()[old(self).launched() as int],
                ) && final(self).launched() == old(self).launched() + 1
                &&& old(self).launched() == old(self).order().len() ==> final(self).launched()
                    == old(self).launched()
                &&& old(self).launched() == old(self).order().len() ==> (if final(self).reported()
                    < final(self).launched() {
                    r == DialAction::Wait
                } else {
                    r == DialAction::Fail(
                        Error::Io(
                            match final(self).first_err() {
                                Some(k) => k,
                                None => IoKind::Other,
                            },
                        ),
                    )
                })
            },
    {
        match ev {
            DialEvent::Connected(i) => DialAction::Use(i),
            DialEvent::Failed(k) => {
                self.reported = self.reported + 1;
                if self.first_err.is_none() {
                    self.first_err = Some(k);
                }
                self.advance()
            },
            DialEvent::Quiet => self.advance(),
        }
    }
}

} // verus!
