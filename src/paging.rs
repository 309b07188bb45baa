//! The mathematical model of paged listing.
//!
//! A listing is read one page at a time. Each fetch either returns the page's
//! items or fails. A page counts as full when it holds at least `size` items;
//! only its first `size` items are ever read. A page that is not full, or a
//! failed fetch, ends the listing.
use vstd::prelude::*;

verus! {

/// The response of one fetch: `Some(items)` on success, `None` on failure.
pub type Response<T> = Option<Seq<T>>;

/// Whether `r` is a page with at least `size` items.
pub open spec fn is_full<T>(r: Response<T>, size: nat) -> bool {
    r is Some && r->Some_0.len() >= size
}

/// Whether every response in `log` is a full page.
pub open spec fn all_full<T>(log: Seq<Response<T>>, size: nat) -> bool {
    forall|i: int| 0 <= i < log.len() ==> #[trigger] is_full(log[i], size)
}

/// Whether `log` ends the listing: every response but the last is a full
/// page, and the last is not.
pub open spec fn ends_listing<T>(log: Seq<Response<T>>, size: nat) -> bool {
    &&& log.len() > 0
    &&& all_full(log.drop_last(), size)
    &&& !is_full(log.last(), size)
}

/// The items that the listing takes from one response.
pub open spec fn page_items<T>(r: Response<T>, size: nat) -> Seq<T> {
    match r {
        None => Seq::empty(),
        Some(p) => if p.len() < size {
            p
        } else {
            p.take(size as int)
        },
    }
}

/// Every item that a listing yields, in order, when its fetches of pages
/// 1, 2, ... return the responses of `log`. Responses after the one that
/// ends the listing are never read.
pub open spec fn paged_items<T>(log: Seq<Response<T>>, size: nat) -> Seq<T>
    decreases log.len(),
{
    if log.len() == 0 {
        Seq::empty()
    } else if is_full(log[0], size) {
        page_items(log[0], size) + paged_items(log.drop_first(), size)
    } else {
        page_items(log[0], size)
    }
}

/// The responses of a fetcher that serves `pages` as pages 1, 2, ... and then
/// `last`.
pub open spec fn responses_of<T>(pages: Seq<Seq<T>>, last: Response<T>) -> Seq<Response<T>> {
    pages.map_values(|p: Seq<T>| Some(p)).push(last)
}

/// Appending a response to full pages appends what the listing takes from it.
pub proof fn lemma_paged_items_push<T>(log: Seq<Response<T>>, r: Response<T>, size: nat)
    requires
        all_full(log, size),
    ensures
        paged_items(log.push(r), size) == paged_items(log, size) + page_items(r, size),
    decreases log.len(),
{
    if log.len() == 0 {
        assert(log.push(r).drop_first() =~= Seq::<Response<T>>::empty());
        assert(paged_items(Seq::<Response<T>>::empty(), size) =~= Seq::<T>::empty());
        assert(log.push(r)[0] == r);
        assert(log =~= Seq::<Response<T>>::empty());
        assert(paged_items(log.push(r), size) =~= page_items(r, size));
    } else {
        assert(is_full(log[0], size));
        let rest = log.drop_first();
        assert(log.push(r).drop_first() =~= rest.push(r));
        assert(all_full(rest, size)) by {
            assert forall|i: int| 0 <= i < rest.len() implies #[trigger] is_full(rest[i], size) by {
                assert(is_full(log[i + 1], size));
            }
        }
        lemma_paged_items_push(rest, r, size);
        assert(log.push(r)[0] == log[0]);
        assert(paged_items(log.push(r), size) =~= paged_items(log, size) + page_items(r, size));
    }
}

/// Over full pages alone, the listing yields the first `size` items of each.
pub proof fn lemma_paged_items_full<T>(pages: Seq<Seq<T>>, size: nat)
    requires
        forall|i: int| 0 <= i < pages.len() ==> #[trigger] pages[i].len() == size,
    ensures
        all_full(pages.map_values(|p: Seq<T>| Some(p)), size),
        paged_items(pages.map_values(|p: Seq<T>| Some(p)), size) == pages.flatten(),
    decreases pages.len(),
{
    let log = pages.map_values(|p: Seq<T>| Some(p));
    assert(all_full(log, size)) by {
        assert forall|i: int| 0 <= i < log.len() implies #[trigger] is_full(log[i], size) by {
            assert(pages[i].len() == size);
        }
    }
    if pages.len() > 0 {
        let rest = pages.drop_first();
        assert forall|i: int| 0 <= i < rest.len() implies #[trigger] rest[i].len() == size by {
            assert(pages[i + 1].len() == size);
        }
        lemma_paged_items_full(rest, size);
        assert(log.drop_first() =~= rest.map_values(|p: Seq<T>| Some(p)));
        assert(pages[0].len() == size);
        assert(pages[0].take(size as int) =~= pages[0]);
    }
}

/// Full pages followed by a response that is not full: the listing yields
/// the items of the full pages in order, then those of the last response,
/// and it ends at that response and at no earlier one.
pub proof fn lemma_full_pages_then_end<T>(pages: Seq<Seq<T>>, last: Response<T>, size: nat)
    requires
        forall|i: int| 0 <= i < pages.len() ==> #[trigger] pages[i].len() == size,
        !is_full(last, size),
    ensures
        paged_items(responses_of(pages, last), size) == pages.flatten() + page_items(last, size),
        ends_listing(responses_of(pages, last), size),
        forall|j: int| 0 <= j < pages.len() ==> #[trigger] is_full(responses_of(pages, last)[j], size),
{
    let full = pages.map_values(|p: Seq<T>| Some(p));
    lemma_paged_items_full(pages, size);
    lemma_paged_items_push(full, last, size);
    assert(responses_of(pages, last).drop_last() =~= full);
    assert forall|j: int| 0 <= j < pages.len() implies #[trigger] is_full(responses_of(pages, last)[j], size) by {
        assert(is_full(full[j], size));
    }
}

/// Over full pages alone, the listing yields `size` items per page.
pub proof fn lemma_paged_items_full_len<T>(log: Seq<Response<T>>, size: nat)
    requires
        all_full(log, size),
    ensures
        paged_items(log, size).len() == log.len() * size,
    decreases log.len(),
{
    if log.len() > 0 {
        let rest = log.drop_first();
        assert(all_full(rest, size)) by {
            assert forall|i: int| 0 <= i < rest.len() implies #[trigger] is_full(rest[i], size) by {
                assert(is_full(log[i + 1], size));
            }
        }
        lemma_paged_items_full_len(rest, size);
        assert(is_full(log[0], size));
        assert(log.len() * size == size + rest.len() * size) by (nonlinear_arith)
            requires
                rest.len() == log.len() - 1,
        ;
    }
}

} // verus!
