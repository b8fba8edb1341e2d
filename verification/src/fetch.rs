//! The cancellable, paginated bulk-fetch engine. The shell performs one
//! HTTP GET per page and hands each decoded page envelope in; this module
//! makes every decision: accumulation, progress reporting, cursor
//! normalization, and the cancellation checkpoints before, within and after
//! each iteration.

use vstd::prelude::*;
use vstd::string::*;
use crate::errors::ClientError;
use crate::text::{dec_signed, i64_to_string};

verus! {

/// Sentinel total published while the count probe has not answered.
pub const UNKNOWN_TOTAL: i64 = -1;

/// A progress notification: records accumulated so far, the known total or
/// `UNKNOWN_TOTAL`, and a human-readable status line.
#[derive(Debug, Clone)]
pub struct ProgressEvent {
    pub current: i64,
    pub total: i64,
    pub message: String,
}

pub open spec fn found_msg(total: int) -> Seq<char> {
    "Found "@ + dec_signed(total) + " transactions, starting fetch..."@
}

pub open spec fn fetched_of_msg(current: int, total: int) -> Seq<char> {
    "Fetched "@ + dec_signed(current) + " of "@ + dec_signed(total) + " transactions..."@
}

pub open spec fn fetched_so_far_msg(current: int) -> Seq<char> {
    "Fetched "@ + dec_signed(current) + " transactions so far..."@
}

/// Concatenation of a sequence of pages, in page order.
pub open spec fn pages_concat<T>(pages: Seq<Seq<T>>) -> Seq<T>
    decreases pages.len(),
{
    if pages.len() == 0 {
        Seq::empty()
    } else {
        pages_concat(pages.drop_last()) + pages.last()
    }
}

/// The fold the engine computes when pages are absorbed one at a time,
/// first page first.
pub open spec fn absorb_all<T>(acc: Seq<T>, pages: Seq<Seq<T>>) -> Seq<T>
    decreases pages.len(),
{
    if pages.len() == 0 {
        acc
    } else {
        absorb_all(acc + pages.first(), pages.drop_first())
    }
}

/// Absorbing N cursor-linked pages one after the other yields exactly the
/// concatenation of the N pages' records, in page order, with per-page
/// record order preserved.
pub proof fn lemma_fetch_accumulates_in_order<T>(acc: Seq<T>, pages: Seq<Seq<T>>)
    ensures
        absorb_all(acc, pages) == acc + pages_concat(pages),
    decreases pages.len(),
{
    if pages.len() == 0 {
        assert(acc + pages_concat(pages) =~= acc);
    } else {
        lemma_fetch_accumulates_in_order(acc + pages.first(), pages.drop_first());
        if pages.len() == 1 {
            assert(pages.drop_first() =~= Seq::<Seq<T>>::empty());
            assert(pages.drop_last() =~= Seq::<Seq<T>>::empty());
            assert(pages_concat(pages) =~= pages.last());
            assert(acc + pages.first() =~= acc + pages_concat(pages));
        } else {
            let shifted = pages.drop_first();
            assert(shifted.drop_last() =~= pages.drop_last().drop_first());
            lemma_pages_concat_first(pages);
            assert((acc + pages.first()) + pages_concat(pages.drop_first())
                =~= acc + (pages.first() + pages_concat(pages.drop_first())));
        }
    }
}

/// Peeling the first page off a nonempty concatenation.
proof fn lemma_pages_concat_first<T>(pages: Seq<Seq<T>>)
    requires
        pages.len() >= 1,
    ensures
        pages_concat(pages) == pages.first() + pages_concat(pages.drop_first()),
    decreases pages.len(),
{
    if pages.len() == 1 {
        assert(pages.drop_last() =~= Seq::<Seq<T>>::empty());
        assert(pages.drop_first() =~= Seq::<Seq<T>>::empty());
        assert(pages_concat(pages) =~= pages.first() + pages_concat(pages.drop_first()));
    } else {
        lemma_pages_concat_first(pages.drop_last());
        assert(pages.drop_last().first() == pages.first());
        assert(pages.drop_first().drop_last() =~= pages.drop_last().drop_first());
        assert(pages.drop_first().last() == pages.last());
        assert(pages_concat(pages.drop_first())
            == pages_concat(pages.drop_first().drop_last()) + pages.drop_first().last());
        assert(pages.first() + pages_concat(pages.drop_first())
            =~= (pages.first() + pages_concat(pages.drop_last().drop_first())) + pages.last());
    }
}

/// The accumulating fetch in flight: records gathered so far and the total
/// published by the count probe, if any.
pub struct Fetcher<T> {
    pub results: Vec<T>,
    pub total: i64,
}

impl<T> Fetcher<T> {
    /// A fetch that has gathered nothing and knows no total yet.
    pub fn begin() -> (f: Fetcher<T>)
        ensures
            f.results@ =~= Seq::<T>::empty(),
            f.total == UNKNOWN_TOTAL,
    {
        Fetcher { results: Vec::new(), total: UNKNOWN_TOTAL }
    }

    /// Publishes the count probe's answer. The probe is best-effort: on
    /// failure this is simply never called and the total stays unknown.
    pub fn record_total(&mut self, t: i64)
        requires
            t >= 0,
        ensures
            final(self).total == t,
            final(self).results@ == old(self).results@,
    {
        self.total = t;
    }

    /// The event published right after a successful count probe.
    pub fn initial_progress(&self) -> (e: ProgressEvent)
        requires
            self.total >= 0,
        ensures
            e.current == 0,
            e.total == self.total,
            e.message@ == found_msg(self.total as int),
    {
        let mut m = String::from_str("Found ");
        let t = i64_to_string(self.total);
        m.append(t.as_str());
        m.append(" transactions, starting fetch...");
        ProgressEvent { current: 0, total: self.total, message: m }
    }

    /// Appends one decoded page to the accumulation; nothing else changes.
    pub fn absorb_page(&mut self, page: Vec<T>)
        ensures
            final(self).results@ == old(self).results@ + page@,
            final(self).total == old(self).total,
    {
        let mut page = page;
        self.results.append(&mut page);
    }

    /// The event published after each absorbed page: the running count, and
    /// the known total or the unknown sentinel.
    pub fn page_progress(&self) -> (e: ProgressEvent)
        requires
            self.results@.len() <= i64::MAX,
        ensures
            e.current == self.results@.len(),
            e.total == (if self.total >= 0 { self.total } else { UNKNOWN_TOTAL }),
            self.total >= 0 ==> e.message@ == fetched_of_msg(
                self.results@.len() as int,
                self.total as int,
            ),
            self.total < 0 ==> e.message@ == fetched_so_far_msg(self.results@.len() as int),
    {
        let current: i64 = self.results.len() as i64;
        let c = i64_to_string(current);
        if self.total >= 0 {
            let mut m = String::from_str("Fetched ");
            m.append(c.as_str());
            m.append(" of ");
            let t = i64_to_string(self.total);
            m.append(t.as_str());
            m.append(" transactions...");
            ProgressEvent { current, total: self.total, message: m }
        } else {
            let mut m = String::from_str("Fetched ");
            m.append(c.as_str());
            m.append(" transactions so far...");
            ProgressEvent { current, total: UNKNOWN_TOTAL, message: m }
        }
    }

    /// Ends a completed fetch, yielding everything gathered.
    pub fn finish(self) -> (r: Vec<T>)
        ensures
            r@ == self.results@,
    {
        self.results
    }
}

/// The views of a sequence of pages.
pub open spec fn views_of<T>(pages: Seq<Vec<T>>) -> Seq<Seq<T>> {
    Seq::new(pages.len(), |i: int| pages[i]@)
}

/// One whole accumulation run over pages already fetched and decoded: the
/// result is exactly the concatenation of the pages, in page order, with
/// per-page record order preserved.
pub fn collect_pages<T>(pages: Vec<Vec<T>>) -> (r: Vec<T>)
    ensures
        r@ == pages_concat(views_of(pages@)),
{
    let ghost views = views_of(pages@);
    let mut pages = pages;
    let mut f: Fetcher<T> = Fetcher::begin();
    let ghost total: int = views.len() as int;
    proof {
        assert(views_of(pages@) =~= views.skip(0));
        assert(views.subrange(0, 0) =~= Seq::<Seq<T>>::empty());
    }
    while pages.len() > 0
        invariant
            total == views.len() as int,
            views_of(pages@) =~= views.skip(total - pages@.len()),
            pages@.len() <= total,
            f.results@ == pages_concat(views.subrange(0, total - pages@.len())),
        decreases pages@.len(),
    {
        let ghost done: int = total - pages@.len();
        let ghost before = pages@;
        let page = pages.remove(0);
        proof {
            assert(before.len() > 0);
            assert(0 <= done && done + before.len() == total);
            assert(page == before[0]);
            assert(views_of(before) == views.skip(done));
            assert(views_of(before)[0] == before[0]@);
            assert(views.skip(done) =~= views.subrange(done, total));
            assert(views.subrange(done, total)[0] == views[0 + done]);
            assert(page@ == views[done]);
            assert(pages@ =~= before.skip(1));
            assert(views_of(pages@) =~= views.skip(done + 1)) by {
                assert(views_of(before) == views.skip(done));
                assert forall|i: int| 0 <= i < pages@.len() implies views_of(pages@)[i]
                    == views.skip(done + 1)[i] by {
                    assert(views_of(pages@)[i] == pages@[i]@);
                    assert(pages@[i] == before[i + 1]);
                    assert(views_of(before)[i + 1] == before[i + 1]@);
                    assert(views.skip(done)[i + 1] == views[(i + 1) + done]);
                    assert(views.skip(done + 1)[i] == views[i + (done + 1)]);
                }
            }
            let pre = views.subrange(0, done);
            let ext = views.subrange(0, done + 1);
            assert(ext.drop_last() =~= pre) by {
                assert forall|i: int| 0 <= i < done implies ext.drop_last()[i] == pre[i] by {
                    assert(ext[i] == views[i + 0]);
                    assert(pre[i] == views[i + 0]);
                }
            }
            assert(ext.last() == views[done + 0]);
            assert(ext.len() > 0);
            assert(pages_concat(ext) == pages_concat(ext.drop_last()) + ext.last());
            assert(pages_concat(ext) == pages_concat(pre) + views[done]);
        }
        f.absorb_page(page);
    }
    proof {
        assert(views.subrange(0, total as int) =~= views);
    }
    f.finish()
}

/// A cancellation checkpoint. `cancelled` is the flag value the shell just
/// observed. An observed cancellation aborts with `Cancelled` — a bare
/// marker: everything gathered so far is discarded, never returned.
pub fn cancel_checkpoint(cancelled: bool) -> (r: Result<(), ClientError>)
    ensures
        cancelled <==> r is Err,
        r matches Err(e) ==> e == ClientError::Cancelled,
{
    if cancelled {
        Err(ClientError::Cancelled)
    } else {
        Ok(())
    }
}

/// The prefix-stripped form of `u`: `u` without the leading `base` when
/// `base` is a prefix of `u`, otherwise `u` unchanged.
pub open spec fn spec_strip_base(u: Seq<char>, base: Seq<char>) -> Seq<char> {
    if u.len() >= base.len() && u.subrange(0, base.len() as int) == base {
        u.skip(base.len() as int)
    } else {
        u
    }
}

/// Normalizes a server-supplied "next page" cursor, an absolute URL, into
/// the relative path for the next GET by stripping the API base prefix.
pub fn strip_base(u: &str, base: &str) -> (r: String)
    ensures
        r@ == spec_strip_base(u@, base@),
{
    let nu = u.unicode_len();
    let nb = base.unicode_len();
    if nu < nb {
        return String::from_str(u);
    }
    let mut i: usize = 0;
    while i < nb
        invariant
            nb <= nu,
            nu == u@.len(),
            nb == base@.len(),
            i <= nb,
            u@.subrange(0, i as int) =~= base@.subrange(0, i as int),
        decreases nb - i,
    {
        if u.get_char(i) != base.get_char(i) {
            proof {
                assert(u@.subrange(0, nb as int)[i as int] == u@[i as int]);
                assert(u@.subrange(0, nb as int) != base@);
            }
            return String::from_str(u);
        }
        i = i + 1;
        proof {
            assert(u@.subrange(0, i as int) =~= base@.subrange(0, i as int));
        }
    }
    proof {
        assert(u@.subrange(0, nb as int) =~= base@.subrange(0, nb as int));
        assert(base@.subrange(0, nb as int) =~= base@);
    }
    let tail = u.substring_char(nb, nu);
    proof {
        assert(tail@ =~= u@.skip(nb as int));
    }
    String::from_str(tail)
}

/// One cursor step: the relative path of the next page, or `None` when the
/// final page carried no cursor and the fetch terminates.
pub fn next_path_of(next: Option<String>, base: &str) -> (r: Option<String>)
    ensures
        next is None <==> r is None,
        (match next {
            Some(u) => r matches Some(p) && p@ == spec_strip_base(u@, base@),
            None => r is None,
        }),
{
    match next {
        None => None,
        Some(u) => Some(strip_base(u.as_str(), base)),
    }
}

/// The process-wide slot holding the cancellation flag of the fetch now
/// running, as the shell mirrors it. At most one fetch is discoverable at a
/// time: a second fetch overwrites the slot, orphaning the first — the
/// accepted single-flight design constraint.
pub struct CancellationRegistry {
    /// The registered flag's value, or `None` while no fetch runs.
    pub active: Option<bool>,
}

impl CancellationRegistry {
    /// An empty slot.
    pub fn new() -> (r: CancellationRegistry)
        ensures
            r.active is None,
    {
        CancellationRegistry { active: None }
    }

    /// A fetch starts: its fresh, unset flag takes the slot, whatever held
    /// it before.
    pub fn register(&mut self)
        ensures
            final(self).active == Some(false),
    {
        self.active = Some(false);
    }

    /// An external cancel request: sets the registered flag if any, and is
    /// a no-op otherwise — it never fails.
    pub fn cancel(&mut self)
        ensures
            old(self).active is Some ==> final(self).active == Some(true),
            old(self).active is None ==> final(self).active is None,
    {
        if self.active.is_some() {
            self.active = Some(true);
        }
    }

    /// The flag value a running fetch observes at a checkpoint.
    pub fn observed(&self) -> (r: bool)
        ensures
            r == (self.active == Some(true)),
    {
        match &self.active {
            Some(b) => *b,
            None => false,
        }
    }

    /// The fetch ended, by success or abort: its flag leaves the slot.
    pub fn clear(&mut self)
        ensures
            final(self).active is None,
    {
        self.active = None;
    }
}

} // verus!
