//! Directory-listing entries as the ls payloads carry them.

use vstd::prelude::*;
use vstd::slice::slice_to_vec;

verus! {

/// What kind of entry a listing row names.
#[derive(Clone, Copy, Debug, PartialEq, Eq, Structural)]
pub enum DirItemType {
    Dir,
    File,
}

/// One row of a directory listing: a name and its kind.
pub struct DirItem(pub Vec<u8>, pub DirItemType);

/// The mathematical content of a [`DirItem`].
pub ghost struct DirItemView {
    pub name: Seq<u8>,
    pub item_type: DirItemType,
}

impl View for DirItem {
    type V = DirItemView;

    open spec fn view(&self) -> DirItemView {
        DirItemView { name: self.0@, item_type: self.1 }
    }
}

impl DirItem {
    pub fn new(name: Vec<u8>, item_type: DirItemType) -> (r: Self)
        ensures
            r@ == (DirItemView { name: name@, item_type }),
    {
        DirItem(name, item_type)
    }

    pub fn name(&self) -> (r: Vec<u8>)
        ensures
            r@ == self.0@,
    {
        slice_to_vec(self.0.as_slice())
    }

    pub fn is_file(&self) -> (r: bool)
        ensures
            r == (self.1 == DirItemType::File),
    {
        self.1 == DirItemType::File
    }
}

} // verus!
