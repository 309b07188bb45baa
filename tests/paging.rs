use buildkite::iterator::{BuildkiteIterator, Paginator, ITEMS_PER_PAGE};
use std::cell::RefCell;

/// Serves fixed responses: page `n` is `pages[n - 1]`, and a page past the
/// end is empty. Records every page number it is asked for.
struct FixedPages {
    pages: Vec<Result<Vec<&'static str>, String>>,
    asked: RefCell<Vec<u32>>,
}

impl FixedPages {
    fn new(pages: Vec<Result<Vec<&'static str>, String>>) -> FixedPages {
        FixedPages { pages, asked: RefCell::new(Vec::new()) }
    }
}

impl Paginator<&'static str> for &FixedPages {
    type Error = String;

    fn get_page(&self, page: u32) -> Result<Vec<&'static str>, String> {
        self.asked.borrow_mut().push(page);
        match self.pages.get((page - 1) as usize) {
            Some(r) => r.clone(),
            None => Ok(Vec::new()),
        }
    }
}

fn drain<P: Paginator<&'static str>>(it: &mut BuildkiteIterator<&'static str, P>) -> Vec<&'static str> {
    let mut out = Vec::new();
    while let Some(x) = it.next() {
        out.push(x);
    }
    out
}

#[test]
fn two_items_then_one() {
    let f = FixedPages::new(vec![Ok(vec!["A", "B"]), Ok(vec!["C"])]);
    let mut it = BuildkiteIterator::with_page_size(&f, 2);
    let out = drain(&mut it);
    assert_eq!(out, vec!["A", "B", "C"]);
    assert_eq!(out.len(), 3);
    assert_eq!(*f.asked.borrow(), vec![1, 2]);
    assert!(it.last_error().is_none());
}

#[test]
fn empty_first_page_yields_nothing() {
    let f = FixedPages::new(vec![Ok(vec![])]);
    let mut it = BuildkiteIterator::with_page_size(&f, 2);
    let out = drain(&mut it);
    assert!(out.is_empty());
    assert_eq!(*f.asked.borrow(), vec![1]);
}

#[test]
fn full_pages_then_short_page() {
    let f = FixedPages::new(vec![
        Ok(vec!["a", "b", "c"]),
        Ok(vec!["d", "e", "f"]),
        Ok(vec!["g", "h"]),
        Ok(vec!["never", "read"]),
    ]);
    let mut it = BuildkiteIterator::with_page_size(&f, 3);
    let out = drain(&mut it);
    assert_eq!(out, vec!["a", "b", "c", "d", "e", "f", "g", "h"]);
    assert_eq!(out.len(), 2 * 3 + 2);
    assert_eq!(*f.asked.borrow(), vec![1, 2, 3]);
}

#[test]
fn full_last_page_asks_once_more() {
    let f = FixedPages::new(vec![Ok(vec!["a", "b"]), Ok(vec!["c", "d"])]);
    let mut it = BuildkiteIterator::with_page_size(&f, 2);
    let out = drain(&mut it);
    assert_eq!(out, vec!["a", "b", "c", "d"]);
    assert_eq!(*f.asked.borrow(), vec![1, 2, 3]);
}

#[test]
fn failure_after_full_page_ends_quietly() {
    let f = FixedPages::new(vec![Ok(vec!["a", "b"]), Err("network down".to_string())]);
    let mut it = BuildkiteIterator::with_page_size(&f, 2);
    let out = drain(&mut it);
    assert_eq!(out, vec!["a", "b"]);
    assert_eq!(*f.asked.borrow(), vec![1, 2]);
    assert_eq!(it.last_error(), Some(&"network down".to_string()));
}

#[test]
fn failure_on_first_page() {
    let f = FixedPages::new(vec![Err("status 500".to_string())]);
    let mut it = BuildkiteIterator::with_page_size(&f, 2);
    assert_eq!(it.next(), None);
    assert_eq!(it.last_error(), Some(&"status 500".to_string()));
}

#[test]
fn ended_sequence_stays_ended() {
    let f = FixedPages::new(vec![Ok(vec!["a"]), Ok(vec!["b"])]);
    let mut it = BuildkiteIterator::with_page_size(&f, 2);
    assert_eq!(it.next(), Some("a"));
    assert_eq!(it.next(), None);
    assert_eq!(it.next(), None);
    assert_eq!(it.next(), None);
    assert_eq!(*f.asked.borrow(), vec![1]);
}

#[test]
fn long_page_is_cut_at_page_size() {
    let f = FixedPages::new(vec![Ok(vec!["a", "b", "c"]), Ok(vec!["d"])]);
    let mut it = BuildkiteIterator::with_page_size(&f, 2);
    let out = drain(&mut it);
    assert_eq!(out, vec!["a", "b", "d"]);
    assert_eq!(*f.asked.borrow(), vec![1, 2]);
}

#[test]
fn fetch_only_when_page_used_up() {
    let f = FixedPages::new(vec![Ok(vec!["a", "b"]), Ok(vec!["c"])]);
    let mut it = BuildkiteIterator::with_page_size(&f, 2);
    assert!(f.asked.borrow().is_empty());
    assert_eq!(it.next(), Some("a"));
    assert_eq!(*f.asked.borrow(), vec![1]);
    assert_eq!(it.next(), Some("b"));
    assert_eq!(*f.asked.borrow(), vec![1]);
    assert_eq!(it.next(), Some("c"));
    assert_eq!(*f.asked.borrow(), vec![1, 2]);
    assert_eq!(it.next(), None);
}

#[test]
fn identical_fetchers_give_identical_items() {
    let pages = vec![Ok(vec!["x", "y"]), Ok(vec!["z", "w"]), Ok(vec!["v"])];
    let f = FixedPages::new(pages.clone());
    let g = FixedPages::new(pages);
    let mut a = BuildkiteIterator::with_page_size(&f, 2);
    let mut b = BuildkiteIterator::with_page_size(&g, 2);
    let out_a = drain(&mut a);
    let out_b = drain(&mut b);
    assert_eq!(out_a, out_b);
    assert_eq!(out_a, vec!["x", "y", "z", "w", "v"]);
    assert_eq!(*f.asked.borrow(), *g.asked.borrow());
}

#[test]
fn default_page_size_is_twenty_five() {
    assert_eq!(ITEMS_PER_PAGE, 25);
    let full: Vec<&'static str> = vec!["p"; 25];
    let f = FixedPages::new(vec![Ok(full), Ok(vec!["q", "r"])]);
    let mut it = BuildkiteIterator::new(&f);
    let out = drain(&mut it);
    assert_eq!(out.len(), 27);
    assert_eq!(out[24], "p");
    assert_eq!(out[25], "q");
    assert_eq!(out[26], "r");
    assert_eq!(*f.asked.borrow(), vec![1, 2]);
}

#[test]
fn default_page_size_short_page_ends() {
    let f = FixedPages::new(vec![Ok(vec!["a", "b", "c"]), Ok(vec!["never"])]);
    let mut it = BuildkiteIterator::new(&f);
    let out = drain(&mut it);
    assert_eq!(out, vec!["a", "b", "c"]);
    assert_eq!(*f.asked.borrow(), vec![1]);
}

/// A fetcher that must never be asked: the tests below feed pages by hand.
struct NoPages;

impl Paginator<u32> for NoPages {
    type Error = String;

    fn get_page(&self, _page: u32) -> Result<Vec<u32>, String> {
        panic!("no page should be fetched")
    }
}

#[test]
fn page_due_and_take_page_by_hand() {
    let mut it = BuildkiteIterator::with_page_size(NoPages, 2);
    assert_eq!(it.page_due(), Some(1));
    assert_eq!(it.take_page(Ok(vec![10, 20, 30])), Some(10));
    assert_eq!(it.page_due(), None);
    assert_eq!(it.next(), Some(20));
    assert_eq!(it.page_due(), Some(2));
    assert_eq!(it.take_page(Ok(vec![40])), Some(40));
    assert_eq!(it.page_due(), None);
    assert_eq!(it.next(), None);
    assert_eq!(it.page_due(), None);
    assert!(it.last_error().is_none());
}

#[test]
fn take_page_error_is_kept() {
    let mut it = BuildkiteIterator::with_page_size(NoPages, 3);
    assert_eq!(it.take_page(Err("timeout".to_string())), None);
    assert_eq!(it.last_error(), Some(&"timeout".to_string()));
    assert_eq!(it.page_due(), None);
    assert_eq!(it.next(), None);
}

#[test]
fn take_page_empty_ends() {
    let mut it = BuildkiteIterator::with_page_size(NoPages, 3);
    assert_eq!(it.take_page(Ok(vec![])), None);
    assert_eq!(it.next(), None);
    assert!(it.last_error().is_none());
}
