//! A lazy sequence of items read page by page from a listing endpoint.
use vstd::prelude::*;
use crate::paging::{
    Response, all_full, ends_listing, is_full, page_items, paged_items, responses_of,
    lemma_full_pages_then_end, lemma_paged_items_full_len, lemma_paged_items_push,
};

verus! {

/// Number of items that the API returns on a full page.
pub const ITEMS_PER_PAGE: u32 = 25;

/// What a fetch returned, as a response of the model.
pub open spec fn response_of<T, E>(fetched: Result<Vec<T>, E>) -> Response<T> {
    match fetched {
        Ok(v) => Some(v@),
        Err(_) => None,
    }
}

/// A source of pages, numbered from 1.
pub trait Paginator<T> {
    /// What a failed fetch reports.
    type Error;

    /// Whether `r` is an answer that this source may give when asked for
    /// page `page`. A source that always answers a page alike is one where
    /// this holds of one response per page. By default it holds of every
    /// response, which claims nothing about the source.
    open spec fn serves(&self, page: nat, r: Response<T>) -> bool {
        true
    }

    /// Fetches page `page`: its items in the order the server gave them, or
    /// the error that stopped the fetch.
    fn get_page(&self, page: u32) -> (r: Result<Vec<T>, Self::Error>)
        requires
            page >= 1,
        ensures
            self.serves(page as nat, response_of(r)),
    ;
}

/// The first `n` items of `v` (all of them if it has fewer), last first.
fn reversed_prefix<T>(v: Vec<T>, n: usize) -> (r: Vec<T>)
    ensures
        r@ == (if v@.len() < n { v@ } else { v@.take(n as int) }).reverse(),
{
    let ghost kept = if v@.len() < n { v@ } else { v@.take(n as int) };
    let mut v = v;
    v.truncate(n);
    assert(v@ =~= kept);
    let mut r: Vec<T> = Vec::new();
    while v.len() > 0
        invariant
            v@ == kept.take(v@.len() as int),
            v@.len() <= kept.len(),
            r@ =~= kept.subrange(v@.len() as int, kept.len() as int).reverse(),
        decreases v@.len(),
    {
        let x = v.pop().unwrap();
        r.push(x);
        assert(v@ =~= kept.take(v@.len() as int));
        assert(r@ =~= kept.subrange(v@.len() as int, kept.len() as int).reverse());
    }
    assert(kept.subrange(0, kept.len() as int) =~= kept);
    r
}

/// Items of a listing, read lazily: the next page is fetched only when the
/// items of the current one are used up.
///
/// A page with fewer items than the page size is the last one, and a failed
/// fetch ends the sequence too; the error stays available through
/// `last_error`. Only the first `page_size` items of a page are read.
pub struct BuildkiteIterator<T, P: Paginator<T>> {
    /// Number of the next page to fetch.
    current_page: u64,
    /// Position of the next item within the current page.
    current_index: u32,
    page_size: u32,
    /// The items of the current page that are still to come, last first.
    rest: Vec<T>,
    finished: bool,
    paginator: P,
    last_error: Option<P::Error>,
    /// Responses of the fetches made so far, in order.
    responses: Ghost<Seq<Response<T>>>,
    /// Items produced so far, in order.
    yielded: Ghost<Seq<T>>,
}

impl<T, P: Paginator<T>> BuildkiteIterator<T, P> {
    /// Responses of the fetches made so far: the `i`-th is that of page `i + 1`.
    pub closed spec fn responses(&self) -> Seq<Response<T>> {
        self.responses@
    }

    /// Items produced so far, in order.
    pub closed spec fn yielded(&self) -> Seq<T> {
        self.yielded@
    }

    /// Number of items on a full page.
    pub closed spec fn page_size(&self) -> nat {
        self.page_size as nat
    }

    /// Whether the sequence has ended.
    pub closed spec fn is_finished(&self) -> bool {
        self.finished
    }

    /// Position of the next item within the current page.
    pub closed spec fn page_index(&self) -> nat {
        self.current_index as nat
    }

    /// Number of the page that the next fetch asks for.
    pub closed spec fn next_page(&self) -> nat {
        self.current_page as nat
    }

    /// The source that pages are fetched from.
    pub closed spec fn fetcher(&self) -> P {
        self.paginator
    }

    /// Every response in the log is one that the fetcher may give for its
    /// page: the `i`-th for page `i + 1`.
    pub open spec fn answers_match(&self) -> bool {
        forall|i: int| 0 <= i < self.responses().len()
            ==> #[trigger] self.fetcher().serves((i + 1) as nat, self.responses()[i])
    }

    /// Whether the next call of `next` fetches a page.
    pub open spec fn fetch_due(&self) -> bool {
        !self.is_finished() && self.page_index() == 0 && self.next_page() <= u32::MAX
    }

    /// The cursor agrees with the responses and the items produced.
    pub closed spec fn wf(&self) -> bool {
        let k = self.page_size as nat;
        let log = self.responses@;
        &&& self.page_size > 0
        &&& self.current_index < self.page_size
        &&& log.len() <= u32::MAX
        &&& (self.last_error is Some <==> (self.finished && log.len() > 0 && log.last() is None))
        &&& if self.finished {
            &&& self.yielded@ == paged_items(log, k)
            &&& (ends_listing(log, k) || (log.len() == u32::MAX && all_full(log, k)))
        } else {
            &&& self.current_page == log.len() + 1
            &&& if self.current_index == 0 {
                &&& all_full(log, k)
                &&& self.yielded@ == paged_items(log, k)
            } else {
                let shown = page_items(log.last(), k);
                &&& log.len() > 0
                &&& log.last() is Some
                &&& all_full(log.drop_last(), k)
                &&& self.current_index <= shown.len()
                &&& self.rest@ == shown.subrange(self.current_index as int, shown.len() as int).reverse()
                &&& self.yielded@ == paged_items(log.drop_last(), k) + shown.take(self.current_index as int)
            }
        }
    }

    /// A sequence over `paginator` with pages of `ITEMS_PER_PAGE` items.
    pub fn new(paginator: P) -> (r: Self)
        ensures
            r.wf(),
            r.page_size() == ITEMS_PER_PAGE,
            r.responses() == Seq::<Response<T>>::empty(),
            r.yielded() == Seq::<T>::empty(),
            !r.is_finished(),
            r.next_page() == 1,
            r.page_index() == 0,
            r.fetcher() == paginator,
            r.answers_match(),
    {
        Self::with_page_size(paginator, ITEMS_PER_PAGE)
    }

    /// A sequence over `paginator` with pages of `page_size` items.
    pub fn with_page_size(paginator: P, page_size: u32) -> (r: Self)
        requires
            page_size > 0,
        ensures
            r.wf(),
            r.page_size() == page_size,
            r.responses() == Seq::<Response<T>>::empty(),
            r.yielded() == Seq::<T>::empty(),
            !r.is_finished(),
            r.next_page() == 1,
            r.page_index() == 0,
            r.fetcher() == paginator,
            r.answers_match(),
    {
        BuildkiteIterator {
            current_page: 1,
            current_index: 0,
            page_size,
            rest: Vec::new(),
            finished: false,
            paginator,
            last_error: None,
            responses: Ghost(Seq::empty()),
            yielded: Ghost(Seq::empty()),
        }
    }

    /// The error kept from the failed fetch that ended the sequence, if one did.
    pub closed spec fn kept_error(&self) -> Option<P::Error> {
        self.last_error
    }

    /// The error of the failed fetch that ended the sequence, if one did.
    pub fn last_error(&self) -> (r: Option<&P::Error>)
        requires
            self.wf(),
        ensures
            match r {
                Some(e) => self.kept_error() == Some(*e),
                None => self.kept_error() is None,
            },
            r is Some <==> (self.is_finished() && self.responses().len() > 0
                && self.responses().last() is None),
    {
        self.last_error.as_ref()
    }

    /// The page that must be fetched before the next item can be produced,
    /// if one must.
    pub fn page_due(&self) -> (r: Option<u32>)
        requires
            self.wf(),
        ensures
            r == (if self.fetch_due() { Some(self.next_page() as u32) } else { None::<u32> }),
    {
        if !self.finished && self.current_index == 0 && self.current_page <= u32::MAX as u64 {
            Some(self.current_page as u32)
        } else {
            None
        }
    }

    /// Takes in the outcome of fetching the due page and produces the next
    /// item: the first item of a page that has one. An empty page or a failed
    /// fetch ends the sequence; the error is kept.
    pub fn take_page(&mut self, fetched: Result<Vec<T>, P::Error>) -> (r: Option<T>)
        requires
            old(self).wf(),
            old(self).fetch_due(),
        ensures
            final(self).wf(),
            final(self).page_size() == old(self).page_size(),
            final(self).responses() == old(self).responses().push(
                match fetched {
                    Ok(v) => Some(v@),
                    Err(_) => None,
                },
            ),
            r == (match fetched {
                Ok(v) => if v@.len() > 0 { Some(v@[0]) } else { None },
                Err(_) => None,
            }),
            r is None <==> final(self).is_finished(),
            match r {
                Some(x) => final(self).yielded() == old(self).yielded().push(x),
                None => final(self).yielded() == old(self).yielded(),
            },
            final(self).fetcher() == old(self).fetcher(),
            fetched is Ok ==> final(self).next_page() == old(self).next_page() + 1,
            fetched is Err ==> final(self).next_page() == old(self).next_page(),
            r is Some ==> final(self).page_index() == 1nat % old(self).page_size(),
            match fetched {
                Ok(_) => final(self).kept_error() is None,
                Err(e) => final(self).kept_error() == Some(e),
            },
    {
        let ghost k = self.page_size as nat;
        let ghost before = self.responses@;
        match fetched {
            Ok(page) => {
                proof {
                    self.responses@ = before.push(Some(page@));
                    assert(self.responses@.drop_last() =~= before);
                }
                let ghost shown = page_items(Some(page@), k);
                self.rest = reversed_prefix(page, self.page_size as usize);
                self.current_page = self.current_page + 1;
                assert(shown.subrange(0, shown.len() as int) =~= shown);
                assert(self.yielded@ =~= paged_items(before, k) + shown.take(0));
                self.pop_current()
            }
            Err(e) => {
                proof {
                    lemma_paged_items_push(before, None, k);
                    self.responses@ = before.push(None);
                    assert(self.responses@.drop_last() =~= before);
                    assert(paged_items(self.responses@, k) =~= paged_items(before, k));
                }
                self.last_error = Some(e);
                self.finished = true;
                None
            }
        }
    }

    /// The cursor stands within the last fetched page: `page_index` items of
    /// it have been produced.
    spec fn within_page(&self) -> bool {
        let k = self.page_size as nat;
        let log = self.responses@;
        let shown = page_items(log.last(), k);
        &&& self.page_size > 0
        &&& self.current_index < self.page_size
        &&& log.len() <= u32::MAX
        &&& self.last_error is None
        &&& !self.finished
        &&& self.current_page == log.len() + 1
        &&& log.len() > 0
        &&& log.last() is Some
        &&& all_full(log.drop_last(), k)
        &&& self.current_index <= shown.len()
        &&& self.rest@ == shown.subrange(self.current_index as int, shown.len() as int).reverse()
        &&& self.yielded@ == paged_items(log.drop_last(), k) + shown.take(self.current_index as int)
    }

    /// Produces the next item of the last fetched page, or ends the sequence
    /// when that page has no more.
    fn pop_current(&mut self) -> (r: Option<T>)
        requires
            old(self).within_page(),
        ensures
            final(self).wf(),
            final(self).page_size == old(self).page_size,
            final(self).paginator == old(self).paginator,
            final(self).responses@ == old(self).responses@,
            final(self).current_page == old(self).current_page,
            final(self).last_error is None,
            r == (if old(self).current_index < page_items(old(self).responses@.last(), old(self).page_size as nat).len() {
                Some(page_items(old(self).responses@.last(), old(self).page_size as nat)[old(self).current_index as int])
            } else {
                None
            }),
            r is None <==> final(self).finished,
            match r {
                Some(x) => final(self).yielded@ == old(self).yielded@.push(x)
                    && final(self).current_index == (old(self).current_index + 1) % (old(self).page_size as int),
                None => final(self).yielded@ == old(self).yielded@,
            },
    {
        let ghost k = self.page_size as nat;
        let idx = self.current_index;
        self.current_index = if idx + 1 == self.page_size { 0 } else { idx + 1 };
        let ghost log = self.responses@;
        let ghost shown = page_items(log.last(), k);
        match self.rest.pop() {
            Some(x) => {
                proof {
                    assert(x == shown[idx as int]);
                    assert(shown.take(idx + 1) =~= shown.take(idx as int).push(x));
                    self.yielded@ = self.yielded@.push(x);
                    assert(self.yielded@ =~= paged_items(log.drop_last(), k) + shown.take(idx + 1));
                    assert((idx + 1) % (k as int) == (if idx + 1 == k { 0 } else { idx + 1 })) by (nonlinear_arith)
                        requires
                            idx < k,
                    ;
                    assert(self.rest@ =~= shown.subrange(idx + 1, shown.len() as int).reverse());
                    if idx + 1 == self.page_size {
                        assert(shown.len() == k);
                        assert(is_full(log.last(), k));
                        assert(all_full(log, k)) by {
                            assert forall|i: int| 0 <= i < log.len() implies #[trigger] is_full(log[i], k) by {
                                if i < log.len() - 1 {
                                    assert(log.drop_last()[i] == log[i]);
                                }
                            }
                        }
                        lemma_paged_items_push(log.drop_last(), log.last(), k);
                        assert(log.drop_last().push(log.last()) =~= log);
                        assert(shown.take(k as int) =~= shown);
                    }
                }
                Some(x)
            }
            None => {
                proof {
                    lemma_paged_items_push(log.drop_last(), log.last(), k);
                    assert(log.drop_last().push(log.last()) =~= log);
                    assert(shown.take(idx as int) =~= shown);
                }
                self.finished = true;
                None
            }
        }
    }

    /// Produces the next item, fetching the next page first when the items of
    /// the current one are used up: the fetcher is asked for `page_due()` and
    /// its answer goes to `take_page`. `None` means that the sequence has
    /// ended: the last page was not full, or its fetch failed, or no page
    /// number is left. An ended sequence stays as it is and asks the fetcher
    /// for nothing.
    pub fn next(&mut self) -> (r: Option<T>)
        requires
            old(self).wf(),
        ensures
            final(self).wf(),
            final(self).page_size() == old(self).page_size(),
            old(self).is_finished() ==> r is None && *final(self) == *old(self),
            final(self).fetcher() == old(self).fetcher(),
            // a due fetch asks the fetcher for page `next_page()`, and its
            // answer is what the log records
            old(self).fetch_due() ==> old(self).fetcher().serves(old(self).next_page(), final(self).responses().last()),
            old(self).answers_match() ==> final(self).answers_match(),
            // a fetch is made exactly when one is due, and only then does the
            // log of responses grow, by the response to that fetch
            old(self).fetch_due() ==> final(self).responses().len() == old(self).responses().len() + 1
                && final(self).responses().drop_last() == old(self).responses(),
            !old(self).fetch_due() ==> final(self).responses() == old(self).responses(),
            // when a page is fetched, every item of the pages before it has
            // been produced, and none of its own
            old(self).fetch_due() ==> all_full(old(self).responses(), old(self).page_size())
                && old(self).yielded() == paged_items(old(self).responses(), old(self).page_size())
                && old(self).next_page() == old(self).responses().len() + 1,
            // what has been produced is a prefix of what the responses give,
            // and the whole of it once the sequence has ended
            final(self).yielded().is_prefix_of(paged_items(final(self).responses(), final(self).page_size())),
            final(self).is_finished() ==> final(self).yielded() == paged_items(final(self).responses(), final(self).page_size())
                && (ends_listing(final(self).responses(), final(self).page_size())
                    || (final(self).responses().len() == u32::MAX
                        && all_full(final(self).responses(), final(self).page_size()))),
            !final(self).is_finished() ==> final(self).next_page() == final(self).responses().len() + 1,
            final(self).responses().len() <= u32::MAX,
            match r {
                Some(x) => final(self).yielded() == old(self).yielded().push(x) && !final(self).is_finished()
                    && final(self).page_index() == (old(self).page_index() + 1) % old(self).page_size(),
                None => final(self).yielded() == old(self).yielded() && final(self).is_finished(),
            },
    {
        if self.finished {
            return None;
        }
        match self.page_due() {
            Some(page) => {
                let ghost old_self = *self;
                let fetched = self.paginator.get_page(page);
                let r = self.take_page(fetched);
                proof {
                    self.lemma_prefix();
                    let before = old_self.responses@;
                    assert(self.responses@ == before.push(response_of(fetched)));
                    if old_self.answers_match() {
                        assert forall|i: int| 0 <= i < self.responses().len()
                            implies #[trigger] self.fetcher().serves((i + 1) as nat, self.responses()[i]) by {
                            if i < before.len() {
                                assert(old_self.fetcher().serves((i + 1) as nat, old_self.responses()[i]));
                            }
                        }
                    }
                }
                r
            }
            None => {
                if self.current_index == 0 {
                    proof {
                        let log = self.responses@;
                        assert(is_full(log[log.len() - 1], self.page_size as nat));
                    }
                    let ghost old_self = *self;
                    self.finished = true;
                    proof {
                        if old_self.answers_match() {
                            assert forall|i: int| 0 <= i < self.responses().len()
                                implies #[trigger] self.fetcher().serves((i + 1) as nat, self.responses()[i]) by {
                                assert(old_self.fetcher().serves((i + 1) as nat, old_self.responses()[i]));
                            }
                        }
                    }
                    return None;
                }
                let r = self.pop_current();
                proof { self.lemma_prefix(); }
                r
            }
        }
    }

    /// What has been produced is a prefix of what the responses give.
    proof fn lemma_prefix(&self)
        requires
            self.wf(),
        ensures
            self.yielded().is_prefix_of(paged_items(self.responses(), self.page_size())),
    {
        let k = self.page_size as nat;
        let log = self.responses@;
        if !self.finished && self.current_index != 0 {
            let shown = page_items(log.last(), k);
            lemma_paged_items_push(log.drop_last(), log.last(), k);
            assert(log.drop_last().push(log.last()) =~= log);
            assert((paged_items(log.drop_last(), k) + shown).subrange(0, self.yielded@.len() as int)
                =~= paged_items(log.drop_last(), k) + shown.take(self.current_index as int));
        }
    }
}

/// The fetcher `p` answers page `n`, for `n` up to `pages.len()`, only with
/// the full page `pages[n - 1]`, and page `pages.len() + 1` only with `last`.
pub open spec fn answers_pages<T, P: Paginator<T>>(p: P, pages: Seq<Seq<T>>, last: Response<T>) -> bool {
    forall|n: nat, r: Response<T>|
        1 <= n <= pages.len() + 1 && #[trigger] p.serves(n, r) ==> r == responses_of(pages, last)[n - 1]
}

/// Under a fetcher that answers as `answers_pages` says, the responses so far
/// are the first ones of `responses_of(pages, last)`.
proof fn lemma_log_within<T, P: Paginator<T>>(
    it: &BuildkiteIterator<T, P>,
    pages: Seq<Seq<T>>,
    last: Response<T>,
)
    requires
        it.wf(),
        it.answers_match(),
        forall|i: int| 0 <= i < pages.len() ==> #[trigger] pages[i].len() == it.page_size(),
        !is_full(last, it.page_size()),
        answers_pages(it.fetcher(), pages, last),
    ensures
        it.responses().is_prefix_of(responses_of(pages, last)),
{
    let k = it.page_size();
    let log = it.responses();
    let all = responses_of(pages, last);
    let n = pages.len() as int;
    assert forall|i: int| 0 <= i < log.len() && i < all.len() implies log[i] == all[i] by {
        assert(it.fetcher().serves((i + 1) as nat, log[i]));
    }
    if log.len() > all.len() {
        assert(log[n] == all[n]);
        assert(all[n] == last);
        assert(log.drop_last()[n] == log[n]);
        assert(is_full(log[n], k));
    }
    assert(log =~= all.subrange(0, log.len() as int));
}

/// A sequence whose fetcher serves the full pages `pages` and then `last`,
/// a short page or a failure, ends having produced exactly the items of
/// `pages` in order, then those of `last`, after one fetch per page.
pub proof fn lemma_full_pages_then_end_run<T, P: Paginator<T>>(
    it: &BuildkiteIterator<T, P>,
    pages: Seq<Seq<T>>,
    last: Response<T>,
)
    requires
        it.wf(),
        it.is_finished(),
        forall|i: int| 0 <= i < pages.len() ==> #[trigger] pages[i].len() == it.page_size(),
        !is_full(last, it.page_size()),
        pages.len() < u32::MAX,
        it.answers_match(),
        answers_pages(it.fetcher(), pages, last),
    ensures
        it.responses() == responses_of(pages, last),
        it.yielded() == pages.flatten() + page_items(last, it.page_size()),
{
    let k = it.page_size();
    let log = it.responses();
    let all = responses_of(pages, last);
    lemma_log_within(it, pages, last);
    lemma_full_pages_then_end(pages, last, k);
    if log.len() < all.len() {
        assert(log.len() > 0);
        assert(log[log.len() - 1] == all[log.len() - 1]);
        assert(is_full(log[log.len() - 1], k));
    }
    assert(log =~= all);
}

/// Full pages and then a short last page: the sequence produces the items of
/// the full pages in order, then those of the last page, and then ends.
pub proof fn lemma_full_pages_then_short_page<T, P: Paginator<T>>(
    it: &BuildkiteIterator<T, P>,
    pages: Seq<Seq<T>>,
    last: Seq<T>,
)
    requires
        it.wf(),
        it.is_finished(),
        forall|i: int| 0 <= i < pages.len() ==> #[trigger] pages[i].len() == it.page_size(),
        last.len() < it.page_size(),
        pages.len() < u32::MAX,
        it.answers_match(),
        answers_pages(it.fetcher(), pages, Some(last)),
    ensures
        it.yielded() == pages.flatten() + last,
        it.yielded().len() == pages.len() * it.page_size() + last.len(),
{
    lemma_full_pages_then_end_run(it, pages, Some(last));
    lemma_flatten_len(pages, it.page_size());
}

/// An empty first page ends the sequence with no item produced.
pub proof fn lemma_empty_first_page<T, P: Paginator<T>>(it: &BuildkiteIterator<T, P>)
    requires
        it.wf(),
        it.answers_match(),
        forall|r: Response<T>| #[trigger] it.fetcher().serves(1, r) ==> r == Some(Seq::<T>::empty()),
    ensures
        it.yielded() == Seq::<T>::empty(),
        it.responses().len() > 0 ==> it.is_finished() && it.responses().len() == 1,
{
    let k = it.page_size();
    let log = it.responses();
    if log.len() > 0 {
        assert(it.fetcher().serves((0 + 1) as nat, it.responses()[0]));
        assert(it.fetcher().serves(1, log[0]));
        assert(!is_full(log[0], k));
        if log.len() > 1 {
            assert(log.drop_last()[0] == log[0]);
        }
        assert(paged_items(log, k) =~= Seq::<T>::empty());
        if !it.is_finished() && it.page_index() > 0 {
            assert(page_items(log.last(), k) =~= Seq::<T>::empty());
        }
    }
}

/// A full first page and a failed fetch of the second: the sequence produces
/// the items of the first page and then ends, as it would at a short page;
/// the failure is kept as the last error.
pub proof fn lemma_failure_after_full_page<T, P: Paginator<T>>(
    it: &BuildkiteIterator<T, P>,
    first: Seq<T>,
)
    requires
        it.wf(),
        it.is_finished(),
        first.len() == it.page_size(),
        it.answers_match(),
        answers_pages(it.fetcher(), seq![first], None),
    ensures
        it.yielded() == first,
        it.responses() == seq![Some(first), None::<Seq<T>>],
{
    let pages = seq![first];
    assert(responses_of(pages, None) =~= seq![Some(first), None::<Seq<T>>]);
    lemma_full_pages_then_end_run(it, pages, None);
    assert(pages.drop_first() =~= Seq::<Seq<T>>::empty());
    assert(Seq::<Seq<T>>::empty().flatten() =~= Seq::<T>::empty());
    assert(pages.first() == first);
    assert(pages.flatten() =~= first);
    assert(page_items(None::<Seq<T>>, it.page_size()) =~= Seq::<T>::empty());
    assert(it.yielded() =~= first);
}

/// Two sequences with the same page size whose fetchers answer each page
/// alike (page `n` only with `serve(n)`) have, once ended, received the same
/// responses for the same pages and produced the same items.
pub proof fn lemma_same_responses_same_items<T, P: Paginator<T>, Q: Paginator<T>>(
    a: &BuildkiteIterator<T, P>,
    b: &BuildkiteIterator<T, Q>,
    serve: spec_fn(nat) -> Response<T>,
)
    requires
        a.wf(),
        b.wf(),
        a.is_finished(),
        b.is_finished(),
        a.page_size() == b.page_size(),
        a.answers_match(),
        b.answers_match(),
        forall|n: nat, r: Response<T>| #[trigger] a.fetcher().serves(n, r) ==> r == serve(n),
        forall|n: nat, r: Response<T>| #[trigger] b.fetcher().serves(n, r) ==> r == serve(n),
    ensures
        a.responses() == b.responses(),
        a.yielded() == b.yielded(),
{
    assert forall|i: int| 0 <= i < a.responses().len() implies #[trigger] a.responses()[i] == serve((i + 1) as nat) by {
        assert(a.fetcher().serves((i + 1) as nat, a.responses()[i]));
    }
    assert forall|i: int| 0 <= i < b.responses().len() implies #[trigger] b.responses()[i] == serve((i + 1) as nat) by {
        assert(b.fetcher().serves((i + 1) as nat, b.responses()[i]));
    }
    lemma_finished_logs_agree(a, b, serve);
    lemma_finished_logs_agree(b, a, serve);
    assert(a.responses() =~= b.responses());
}

proof fn lemma_finished_logs_agree<T, P: Paginator<T>, Q: Paginator<T>>(
    a: &BuildkiteIterator<T, P>,
    b: &BuildkiteIterator<T, Q>,
    serve: spec_fn(nat) -> Response<T>,
)
    requires
        a.wf(),
        b.wf(),
        a.is_finished(),
        b.is_finished(),
        a.page_size() == b.page_size(),
        forall|i: int| 0 <= i < a.responses().len() ==> #[trigger] a.responses()[i] == serve((i + 1) as nat),
        forall|i: int| 0 <= i < b.responses().len() ==> #[trigger] b.responses()[i] == serve((i + 1) as nat),
    ensures
        a.responses().len() >= b.responses().len(),
{
    let k = a.page_size();
    let la = a.responses();
    let lb = b.responses();
    if la.len() < lb.len() {
        let j = la.len() - 1;
        assert(la[j] == lb[j]);
        if j < lb.len() - 1 {
            assert(lb.drop_last()[j] == lb[j]);
        }
        assert(is_full(lb[j], k));
        assert(is_full(la[j], k));
    }
}

/// The number of items in `pages` when each holds `size`.
proof fn lemma_flatten_len<T>(pages: Seq<Seq<T>>, size: nat)
    requires
        forall|i: int| 0 <= i < pages.len() ==> #[trigger] pages[i].len() == size,
    ensures
        pages.flatten().len() == pages.len() * size,
    decreases pages.len(),
{
    if pages.len() > 0 {
        let rest = pages.drop_first();
        assert forall|i: int| 0 <= i < rest.len() implies #[trigger] rest[i].len() == size by {
            assert(pages[i + 1].len() == size);
        }
        lemma_flatten_len(rest, size);
        assert(pages[0].len() == size);
        assert(pages.len() * size == size + rest.len() * size) by (nonlinear_arith)
            requires
                rest.len() == pages.len() - 1,
        ;
    }
}

/// While a sequence whose fetcher serves the full pages `pages` and then
/// `last`, a short page or a failure, has not ended, it has produced no more
/// items than the whole listing holds. Since each call of `next` either
/// produces an item or ends the sequence, the sequence ends after at most
/// that many calls and one more.
pub proof fn lemma_unfinished_run_bound<T, P: Paginator<T>>(
    it: &BuildkiteIterator<T, P>,
    pages: Seq<Seq<T>>,
    last: Response<T>,
)
    requires
        it.wf(),
        !it.is_finished(),
        forall|i: int| 0 <= i < pages.len() ==> #[trigger] pages[i].len() == it.page_size(),
        !is_full(last, it.page_size()),
        it.answers_match(),
        answers_pages(it.fetcher(), pages, last),
    ensures
        it.yielded().len() <= pages.len() * it.page_size() + page_items(last, it.page_size()).len(),
{
    let k = it.page_size();
    let log = it.responses();
    let all = responses_of(pages, last);
    let n = pages.len();
    lemma_log_within(it, pages, last);
    lemma_full_pages_then_end(pages, last, k);
    if it.page_index() == 0 {
        lemma_paged_items_full_len(log, k);
        if log.len() > n {
            assert(log[n as int] == all[n as int]);
            assert(is_full(log[n as int], k));
        }
        assert(log.len() * k <= n * k) by (nonlinear_arith)
            requires
                log.len() <= n,
        ;
    } else {
        let front = log.drop_last();
        lemma_paged_items_full_len(front, k);
        let j = log.len() - 1;
        assert(log[j] == all[j]);
        if j < n {
            assert(is_full(all[j], k));
            assert(page_items(log.last(), k).len() == k);
            assert(front.len() * k + k <= n * k) by (nonlinear_arith)
                requires
                    front.len() + 1 <= n,
            ;
        } else {
            assert(front.len() == n);
            assert(log.last() == last);
        }
    }
}

} // verus!
