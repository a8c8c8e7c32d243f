//! The handle naming where the history is persisted. Reading and writing the
//! file itself is the embedding application's concern; the library only
//! carries the location.

use vstd::prelude::*;

verus! {

/// Names the file the history is persisted to.
#[derive(Debug)]
pub struct Storage {
    data_file: String,
}

impl View for Storage {
    type V = Seq<char>;

    closed spec fn view(&self) -> Seq<char> {
        self.data_file@
    }
}

impl Storage {
    /// A storage handle for the given file path.
    pub fn new_with_file(file_path: String) -> (r: Self)
        ensures
            r@ == file_path@,
    {
        Storage { data_file: file_path }
    }

    /// The path of the data file.
    pub fn get_data_file_path(&self) -> (r: &String)
        ensures
            r@ == self@,
    {
        &self.data_file
    }
}

} // verus!
