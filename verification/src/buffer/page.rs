use vstd::prelude::*;

verus! {

/// Bytes in a page.
pub const DEFAULT_PAGE_SIZE: usize = 4096;

/// The bytes of a page.
pub struct PageData(pub [u8; 4096]);

/// A page as a frame holds it: its id, if it holds one, and its bytes.
pub struct Page {
    page_id: Option<usize>,
    data: PageData,
}

impl Page {
    pub closed spec fn spec_page_id(&self) -> Option<usize> {
        self.page_id
    }

    pub closed spec fn bytes(&self) -> Seq<u8> {
        self.data.0@
    }

    /// An empty page: no id, every byte zero.
    pub fn new() -> (res: Self)
        ensures
            res.spec_page_id() is None,
            res.bytes() == Seq::new(DEFAULT_PAGE_SIZE as nat, |i: int| 0u8),
    {
        let res = Page { page_id: None, data: PageData([0u8; 4096]) };
        assert(res.bytes() =~= Seq::new(DEFAULT_PAGE_SIZE as nat, |i: int| 0u8));
        res
    }

    pub fn data(&self) -> (res: &[u8; 4096])
        ensures
            res@ == self.bytes(),
    {
        &self.data.0
    }

    pub fn data_mut(&mut self) -> (res: &mut [u8; 4096])
        ensures
            res@ == old(self).bytes(),
            final(self).bytes() == final(res)@,
            final(self).spec_page_id() == old(self).spec_page_id(),
    {
        &mut self.data.0
    }

    pub fn page_id(&self) -> (res: Option<usize>)
        ensures
            res == self.spec_page_id(),
    {
        self.page_id
    }

    pub fn set_page_id(&mut self, page_id: Option<usize>)
        ensures
            final(self).spec_page_id() == page_id,
            final(self).bytes() == old(self).bytes(),
    {
        self.page_id = page_id;
    }
}

} // verus!
