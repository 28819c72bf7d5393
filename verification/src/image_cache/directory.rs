//! The image files of the open directory and the cursor on the current
//! one.

use vstd::prelude::*;

use super::errors::DirError;
use super::lookup::first_index;
use super::lookup::lemma_first_index_is;
use super::lookup::lemma_first_index;

verus! {

/// The mathematical content of a [`DirItem`].
pub struct DirItemView {
    pub path: Seq<char>,
    pub file_name: Seq<char>,
    pub request_id: u32,
}

/// One image file of the directory.
#[derive(Debug, PartialEq, Eq)]
pub struct DirItem {
    /// Where the file is.
    pub path: String,
    /// The last component of `path`.
    pub file_name: String,
    /// The key under which the file is requested and cached.
    pub request_id: u32,
}

impl View for DirItem {
    type V = DirItemView;

    open spec fn view(&self) -> DirItemView {
        DirItemView { path: self.path@, file_name: self.file_name@, request_id: self.request_id }
    }
}

impl Clone for DirItem {
    fn clone(&self) -> (item: Self)
        ensures
            item@ == self@,
    {
        DirItem {
            path: self.path.clone(),
            file_name: self.file_name.clone(),
            request_id: self.request_id,
        }
    }
}

/// The file names of a listing, in its order.
pub open spec fn item_names(items: Seq<DirItemView>) -> Seq<Seq<char>> {
    Seq::new(items.len(), |i: int| items[i].file_name)
}

/// The request ids of a listing, in its order.
pub open spec fn item_requests(items: Seq<DirItemView>) -> Seq<u32> {
    Seq::new(items.len(), |i: int| items[i].request_id)
}

/// The mathematical content of a [`Directory`].
pub struct DirectoryView {
    /// The directory that is open.
    pub path: Seq<char>,
    /// The image files of the directory, in the order in which they are
    /// browsed; `None` until the directory was listed.
    pub listing: Option<Seq<DirItemView>>,
    /// The place of the current file in the listing.
    pub curr_index: int,
    /// The name of the file that becomes current once the directory is
    /// listed.
    pub selected: Option<Seq<char>>,
}

impl DirectoryView {
    /// The current index points into the listing, or is 0 where there is
    /// nothing to point at.
    pub open spec fn wf(self) -> bool {
        match self.listing {
            Some(items) => if items.len() == 0 {
                self.curr_index == 0
            } else {
                0 <= self.curr_index < items.len()
            },
            None => self.curr_index == 0,
        }
    }

    pub open spec fn closed() -> DirectoryView {
        DirectoryView { path: Seq::empty(), listing: None, curr_index: 0, selected: None }
    }

    /// The number of image files, once the directory was listed.
    pub open spec fn image_count(self) -> Option<int> {
        match self.listing {
            Some(items) => Some(items.len() as int),
            None => None,
        }
    }

    /// The index of the current file; `None` until the directory was
    /// listed, and where it holds no image file.
    pub open spec fn curr_img_index(self) -> Option<int> {
        match self.listing {
            Some(items) => if items.len() == 0 {
                None
            } else {
                Some(self.curr_index)
            },
            None => None,
        }
    }

    pub open spec fn image_by_index(self, index: int) -> Option<DirItemView> {
        match self.listing {
            Some(items) => if 0 <= index < items.len() {
                Some(items[index])
            } else {
                None
            },
            None => None,
        }
    }

    pub open spec fn curr_descriptor(self) -> Option<DirItemView> {
        match self.curr_img_index() {
            Some(index) => self.image_by_index(index),
            None => None,
        }
    }

    /// The index of the first file with this request id; `None` where the
    /// listing holds none, or is not there.
    pub open spec fn index_of_request(self, request_id: u32) -> Option<int> {
        match self.listing {
            Some(items) => if first_index(item_requests(items), request_id) < items.len() {
                Some(first_index(item_requests(items), request_id))
            } else {
                None
            },
            None => None,
        }
    }

    pub open spec fn change_directory(self, path: Seq<char>) -> DirectoryView {
        if self.path == path {
            self
        } else {
            DirectoryView { path, listing: None, curr_index: 0, selected: None }
        }
    }

    /// Whether the directory `path` can be opened with the file `name` as
    /// the current one: it cannot where `path` is open and listed already
    /// and holds no file of that name.
    pub open spec fn can_select(self, path: Seq<char>, name: Seq<char>) -> bool {
        self.path == path && self.listing is Some ==> first_index(
            item_names(self.listing->0),
            name,
        ) < self.listing->0.len()
    }

    pub open spec fn change_directory_with_filename(
        self,
        path: Seq<char>,
        name: Seq<char>,
    ) -> DirectoryView {
        if self.path != path {
            DirectoryView { path, listing: None, curr_index: 0, selected: Some(name) }
        } else {
            match self.listing {
                Some(items) => if first_index(item_names(items), name) < items.len() {
                    DirectoryView {
                        curr_index: first_index(item_names(items), name),
                        selected: None,
                        ..self
                    }
                } else {
                    self
                },
                None => DirectoryView { selected: Some(name), ..self },
            }
        }
    }

    pub open spec fn can_set_index(self, index: int) -> bool {
        self.listing matches Some(items) && 0 <= index < items.len()
    }

    pub open spec fn set_curr_img_index(self, index: int) -> DirectoryView {
        if self.can_set_index(index) {
            DirectoryView { curr_index: index, ..self }
        } else {
            self
        }
    }

    /// The file after the current one becomes current; after the last file
    /// comes the first.
    pub open spec fn jump_to_next(self) -> DirectoryView {
        match self.listing {
            Some(items) => if items.len() == 0 {
                self
            } else {
                DirectoryView { curr_index: (self.curr_index + 1) % (items.len() as int), ..self }
            },
            None => self,
        }
    }

    /// The file before the current one becomes current; before the first
    /// file comes the last.
    pub open spec fn jump_to_prev(self) -> DirectoryView {
        match self.listing {
            Some(items) => if items.len() == 0 {
                self
            } else {
                DirectoryView {
                    curr_index: (self.curr_index + items.len() - 1) % (items.len() as int),
                    ..self
                }
            },
            None => self,
        }
    }

    /// The index that is current once `items` has become the listing: that
    /// of the file that was selected by name, else that of the file that
    /// was current, else the index that was current, else 0.
    pub open spec fn index_after_update(self, items: Seq<DirItemView>) -> int {
        let names = item_names(items);
        if self.selected is Some && first_index(names, self.selected->0) < items.len() {
            first_index(names, self.selected->0)
        } else if self.curr_descriptor() is Some && first_index(
            names,
            self.curr_descriptor()->0.file_name,
        ) < items.len() {
            first_index(names, self.curr_descriptor()->0.file_name)
        } else if self.curr_index < items.len() {
            self.curr_index
        } else {
            0
        }
    }

    pub open spec fn update_directory(self, items: Seq<DirItemView>) -> DirectoryView {
        DirectoryView {
            path: self.path,
            listing: Some(items),
            curr_index: self.index_after_update(items),
            selected: None,
        }
    }

    pub proof fn lemma_update_directory_wf(self, items: Seq<DirItemView>)
        requires
            self.wf(),
        ensures
            self.update_directory(items).wf(),
    {
        let names = item_names(items);
        if self.selected is Some {
            lemma_first_index(names, self.selected->0);
        }
        if self.curr_descriptor() is Some {
            lemma_first_index(names, self.curr_descriptor()->0.file_name);
        }
    }

    pub proof fn lemma_jump_wf(self)
        requires
            self.wf(),
        ensures
            self.jump_to_next().wf(),
            self.jump_to_prev().wf(),
    {
    }
}

/// The views of the items of a listing.
pub open spec fn items_view(items: Seq<DirItem>) -> Seq<DirItemView> {
    Seq::new(items.len(), |i: int| items[i]@)
}

/// The image files of one directory and a cursor on one of them.
///
/// The directory does not read the file system: whoever owns it lists the
/// directory at `path` and hands the listing to `update_directory`.
#[derive(Debug)]
pub struct Directory {
    path: String,
    listing: Option<Vec<DirItem>>,
    curr_index: usize,
    selected: Option<String>,
}

impl View for Directory {
    type V = DirectoryView;

    closed spec fn view(&self) -> DirectoryView {
        DirectoryView {
            path: self.path@,
            listing: match self.listing {
                Some(items) => Some(items_view(items@)),
                None => None,
            },
            curr_index: self.curr_index as int,
            selected: match self.selected {
                Some(name) => Some(name@),
                None => None,
            },
        }
    }
}

/// The index of the first item of `items` that `name` names, if there is
/// one.
fn find_name(items: &Vec<DirItem>, name: &String) -> (found: Option<usize>)
    ensures
        match found {
            Some(at) => at < items@.len() && at == first_index(
                item_names(items_view(items@)),
                name@,
            ),
            None => first_index(item_names(items_view(items@)), name@) == items@.len(),
        },
{
    let ghost names = item_names(items_view(items@));
    let mut i: usize = 0;
    while i < items.len()
        invariant
            i <= items@.len(),
            names == item_names(items_view(items@)),
            forall|j: int| 0 <= j < i ==> names[j] != name@,
        decreases items@.len() - i,
    {
        if items[i].file_name == *name {
            proof {
                lemma_first_index_is(names, name@, i as int);
            }
            return Some(i);
        }
        i = i + 1;
    }
    proof {
        lemma_first_index_is(names, name@, i as int);
    }
    None
}

impl Directory {
    /// No directory is open.
    pub fn new() -> (dir: Directory)
        ensures
            dir@ == DirectoryView::closed(),
            dir@.wf(),
    {
        let dir = Directory { path: String::new(), listing: None, curr_index: 0, selected: None };
        assert(dir@.path =~= Seq::empty());
        dir
    }

    pub fn path(&self) -> (path: &String)
        ensures
            path@ == self@.path,
    {
        &self.path
    }

    pub fn image_count(&self) -> (count: Option<usize>)
        ensures
            match count {
                Some(n) => self@.image_count() == Some(n as int),
                None => self@.image_count() is None,
            },
    {
        match &self.listing {
            Some(items) => Some(items.len()),
            None => None,
        }
    }

    pub fn curr_img_index(&self) -> (index: Option<usize>)
        requires
            self@.wf(),
        ensures
            match index {
                Some(i) => self@.curr_img_index() == Some(i as int),
                None => self@.curr_img_index() is None,
            },
    {
        match &self.listing {
            Some(items) => if items.len() == 0 {
                None
            } else {
                Some(self.curr_index)
            },
            None => None,
        }
    }

    pub fn image_by_index(&self, index: usize) -> (item: Option<&DirItem>)
        ensures
            match item {
                Some(i) => self@.image_by_index(index as int) == Some(i@),
                None => self@.image_by_index(index as int) is None,
            },
    {
        match &self.listing {
            Some(items) => if index < items.len() {
                Some(&items[index])
            } else {
                None
            },
            None => None,
        }
    }

    pub fn curr_descriptor(&self) -> (item: Option<&DirItem>)
        requires
            self@.wf(),
        ensures
            match item {
                Some(i) => self@.curr_descriptor() == Some(i@),
                None => self@.curr_descriptor() is None,
            },
    {
        match self.curr_img_index() {
            Some(index) => self.image_by_index(index),
            None => None,
        }
    }

    pub fn curr_filename(&self) -> (name: Option<String>)
        requires
            self@.wf(),
        ensures
            match name {
                Some(n) => self@.curr_descriptor() is Some && n@
                    == self@.curr_descriptor()->0.file_name,
                None => self@.curr_descriptor() is None,
            },
    {
        match self.curr_descriptor() {
            Some(item) => Some(item.file_name.clone()),
            None => None,
        }
    }

    /// The index of the first file with this request id.
    pub fn index_of_request(&self, request_id: u32) -> (index: Option<usize>)
        ensures
            match index {
                Some(i) => self@.index_of_request(request_id) == Some(i as int),
                None => self@.index_of_request(request_id) is None,
            },
    {
        match &self.listing {
            Some(items) => {
                let ghost ids = item_requests(items_view(items@));
                let mut i: usize = 0;
                while i < items.len()
                    invariant
                        i <= items@.len(),
                        ids == item_requests(items_view(items@)),
                        self@.listing == Some(items_view(items@)),
                        forall|j: int| 0 <= j < i ==> ids[j] != request_id,
                    decreases items@.len() - i,
                {
                    if items[i].request_id == request_id {
                        proof {
                            lemma_first_index_is(ids, request_id, i as int);
                        }
                        return Some(i);
                    }
                    i = i + 1;
                }
                proof {
                    lemma_first_index_is(ids, request_id, i as int);
                }
                None
            },
            None => None,
        }
    }

    /// Opens the directory at `path`, unless it is open already. A
    /// directory that was just opened has no listing yet.
    pub fn change_directory(&mut self, path: &String)
        requires
            old(self)@.wf(),
        ensures
            final(self)@ == old(self)@.change_directory(path@),
            final(self)@.wf(),
    {
        if self.path == *path {
            return ;
        }
        self.path = path.clone();
        self.listing = None;
        self.curr_index = 0;
        self.selected = None;
    }

    /// Opens the directory at `path` and makes the file `name` in it the
    /// current one: at once where the directory is open and listed already,
    /// else as soon as it is listed.
    pub fn change_directory_with_filename(&mut self, path: &String, name: &String) -> (done: Result<
        (),
        DirError,
    >)
        requires
            old(self)@.wf(),
        ensures
            final(self)@ == old(self)@.change_directory_with_filename(path@, name@),
            final(self)@.wf(),
            done is Ok == old(self)@.can_select(path@, name@),
            done is Err ==> done == Err::<(), DirError>(DirError::FileNotFound),
    {
        if self.path != *path {
            self.path = path.clone();
            self.listing = None;
            self.curr_index = 0;
            self.selected = Some(name.clone());
            return Ok(());
        }
        match &self.listing {
            Some(items) => match find_name(items, name) {
                Some(at) => {
                    self.curr_index = at;
                    self.selected = None;
                    Ok(())
                },
                None => Err(DirError::FileNotFound),
            },
            None => {
                self.selected = Some(name.clone());
                Ok(())
            },
        }
    }

    pub fn set_curr_img_index(&mut self, index: usize) -> (done: Result<(), DirError>)
        requires
            old(self)@.wf(),
        ensures
            final(self)@ == old(self)@.set_curr_img_index(index as int),
            final(self)@.wf(),
            done is Ok == old(self)@.can_set_index(index as int),
            done is Err ==> done == Err::<(), DirError>(
                if old(self)@.listing is None {
                    DirError::NotListed
                } else {
                    DirError::IndexOutOfRange
                },
            ),
    {
        match &self.listing {
            Some(items) => if index < items.len() {
                self.curr_index = index;
                Ok(())
            } else {
                Err(DirError::IndexOutOfRange)
            },
            None => Err(DirError::NotListed),
        }
    }

    pub fn jump_to_next(&mut self)
        requires
            old(self)@.wf(),
        ensures
            final(self)@ == old(self)@.jump_to_next(),
            final(self)@.wf(),
    {
        match &self.listing {
            Some(items) => if items.len() > 0 {
                self.curr_index = (self.curr_index + 1) % items.len();
            },
            None => {},
        }
    }

    pub fn jump_to_prev(&mut self)
        requires
            old(self)@.wf(),
        ensures
            final(self)@ == old(self)@.jump_to_prev(),
            final(self)@.wf(),
    {
        match &self.listing {
            Some(items) => if items.len() > 0 {
                let count: usize = items.len();
                if self.curr_index == 0 {
                    proof {
                        vstd::arithmetic::div_mod::lemma_small_mod((count - 1) as nat, count as nat);
                    }
                    self.curr_index = count - 1;
                } else {
                    proof {
                        lemma_mod_one_turn(self.curr_index as int - 1, count as int);
                    }
                    self.curr_index = self.curr_index - 1;
                }
            },
            None => {},
        }
    }

    /// Takes a new listing of the open directory. The file that was
    /// selected by name is the current one afterwards; where there is none,
    /// the file that was current; where that is gone, the file at the index
    /// that was current; else the first file.
    pub fn update_directory(&mut self, items: Vec<DirItem>)
        requires
            old(self)@.wf(),
        ensures
            final(self)@ == old(self)@.update_directory(items_view(items@)),
            final(self)@.wf(),
    {
        let ghost before = self@;
        let ghost names = item_names(items_view(items@));
        proof {
            before.lemma_update_directory_wf(items_view(items@));
        }
        let mut index: Option<usize> = None;
        match &self.selected {
            Some(name) => {
                index = find_name(&items, name);
            },
            None => {},
        }
        if index.is_none() {
            match self.curr_descriptor() {
                Some(item) => {
                    index = find_name(&items, &item.file_name);
                },
                None => {},
            }
        }
        let curr_index: usize = match index {
            Some(at) => at,
            None => if self.curr_index < items.len() {
                self.curr_index
            } else {
                0
            },
        };
        self.listing = Some(items);
        self.curr_index = curr_index;
        self.selected = None;
    }
}

/// Adding the divisor once to a remainder does not change it.
proof fn lemma_mod_one_turn(x: int, d: int)
    requires
        0 <= x < d,
    ensures
        (x + d) % d == x,
{
    vstd::arithmetic::div_mod::lemma_fundamental_div_mod_converse(x + d, d, 1, x);
}

} // verus!
