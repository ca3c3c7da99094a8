use vstd::prelude::*;

verus! {

/// Drives the sequential reading of `pages` ranking pages: it names the next
/// page to request and concatenates the pages received, in order.
pub struct RankingPager<T> {
    pages: i32,
    next_page: i64,
    entries: Vec<T>,
    received: Ghost<Seq<Seq<T>>>,
    requested: Ghost<Seq<i32>>,
}

/// Pages `1..=n`, in order.
pub open spec fn page_numbers(n: int) -> Seq<i32> {
    Seq::new(n as nat, |i: int| (i + 1) as i32)
}

impl<T> RankingPager<T> {
    pub closed spec fn total(&self) -> int {
        self.pages as int
    }

    /// The number of the page that is asked for next.
    pub closed spec fn next(&self) -> int {
        self.next_page as int
    }

    /// The pages received so far, in order.
    pub closed spec fn received(&self) -> Seq<Seq<T>> {
        self.received@
    }

    /// The page numbers requested so far, in order.
    pub closed spec fn requested(&self) -> Seq<i32> {
        self.requested@
    }

    pub closed spec fn entries(&self) -> Seq<T> {
        self.entries@
    }

    pub closed spec fn wf(&self) -> bool {
        &&& 0 <= self.pages
        &&& 1 <= self.next_page <= self.pages as i64 + 1
        &&& self.received@.len() == self.next_page - 1
        &&& self.requested@ == page_numbers(self.next_page - 1)
        &&& self.entries@ == self.received@.flatten()
    }

    pub fn new(pages: i32) -> (r: Self)
        requires
            pages >= 0,
        ensures
            r.wf(),
            r.total() == pages,
            r.next() == 1,
            r.received() == Seq::<Seq<T>>::empty(),
    {
        let r = RankingPager {
            pages,
            next_page: 1,
            entries: Vec::new(),
            received: Ghost(Seq::empty()),
            requested: Ghost(Seq::empty()),
        };
        proof {
            assert(page_numbers(0) =~= Seq::<i32>::empty());
        }
        r
    }

    /// The page to request next, or `None` once every page was received.
    pub fn next_request(&self) -> (r: Option<i32>)
        requires
            self.wf(),
        ensures
            self.next() <= self.total() ==> r == Some(self.next() as i32),
            self.next() > self.total() ==> r is None,
    {
        if self.next_page <= self.pages as i64 {
            Some(self.next_page as i32)
        } else {
            None
        }
    }

    /// Records the entries of the page just requested.
    pub fn on_page(&mut self, page: Vec<T>)
        requires
            old(self).wf(),
            old(self).next() <= old(self).total(),
        ensures
            final(self).wf(),
            final(self).total() == old(self).total(),
            final(self).next() == old(self).next() + 1,
            final(self).received() == old(self).received().push(page@),
            final(self).requested() == old(self).requested().push(old(self).next() as i32),
            final(self).entries() == old(self).entries() + page@,
    {
        let ghost pg = page@;
        let mut page = page;
        proof {
            self.received@.lemma_flatten_push(pg);
            assert(page_numbers(self.next_page as int) =~= page_numbers(
                self.next_page - 1,
            ).push(self.next_page as i32));
        }
        self.entries.append(&mut page);
        self.received = Ghost(self.received@.push(pg));
        self.requested = Ghost(self.requested@.push(self.next_page as i32));
        self.next_page = self.next_page + 1;
    }

    /// The entries of every page, once all were received: pages `1..=total`
    /// were requested one after another, and the entries are their
    /// concatenation in that order.
    pub fn finish(self) -> (r: Vec<T>)
        requires
            self.wf(),
            self.next() > self.total(),
        ensures
            self.received().len() == self.total(),
            self.requested() == page_numbers(self.total()),
            r@ == self.received().flatten(),
    {
        self.entries
    }
}

} // verus!
