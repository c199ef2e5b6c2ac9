//! Directory scanning: the immediate children of a directory in the tree,
//! each with its name, its aggregated size and a directory flag. Children
//! whose metadata cannot be read are omitted; only the scanned directory
//! itself failing to open is an error.
use vstd::prelude::*;
use vstd::pervasive::unreached;
use crate::fs_tree::{FsNode, node_name, total_size, sum_children, aggregate_size, lemma_child_le_sum};

verus! {

/// Why a directory could not be scanned: the path denotes nothing, an
/// unreadable entry, or something that is not a directory.
#[derive(Clone, Copy, Debug, PartialEq, Eq, Structural)]
pub enum ScanError {
    NotFound,
    Unreadable,
    NotADirectory,
}

/// One direct child of a scanned directory: its name, the aggregated byte
/// size of its whole subtree, and whether it is itself a directory.
#[derive(Debug)]
pub struct FileItem {
    pub name: String,
    pub byte_size: u64,
    pub is_dir: bool,
}

impl View for FileItem {
    type V = (Seq<char>, u64, bool);

    open spec fn view(&self) -> (Seq<char>, u64, bool) {
        (self.name@, self.byte_size, self.is_dir)
    }
}

/// The text that the size crate renders for a byte count; it is a function
/// of the byte count alone.
pub uninterp spec fn size_text(bytes: u64) -> Seq<char>;

/// Relies on size::Size's Display impl: renders a byte count as
/// human-readable text (such as "200 bytes" or "2.00 MiB"), a pure function
/// of the byte count.
#[verifier::external_body]
fn format_size(bytes: u64) -> (r: String)
    ensures
        r@ == size_text(bytes),
{
    format!("{}", size::Size::from_bytes(bytes))
}

impl FileItem {
    /// The entry's name.
    pub fn name(&self) -> (r: &str)
        ensures
            r@ == self.name@,
    {
        self.name.as_str()
    }

    /// Whether the entry is a directory.
    pub fn is_dir(&self) -> (r: bool)
        ensures
            r == self.is_dir,
    {
        self.is_dir
    }

    /// The entry's aggregated size as human-readable text.
    pub fn size(&self) -> (r: String)
        ensures
            r@ == size_text(self.byte_size),
    {
        format_size(self.byte_size)
    }
}

/// The first child of the given name, scanning left to right.
pub open spec fn find_child(s: Seq<FsNode>, name: Seq<char>) -> Option<FsNode>
    decreases s.len(),
{
    if s.len() == 0 {
        None
    } else if node_name(s.first()) == name {
        Some(s.first())
    } else {
        find_child(s.drop_first(), name)
    }
}

/// The node that a segment path denotes under a root node, descending by
/// child name; nothing can be seen below an unreadable entry or a file.
pub open spec fn lookup(n: FsNode, path: Seq<Seq<char>>) -> Option<FsNode>
    decreases path.len(),
{
    if path.len() == 0 {
        Some(n)
    } else {
        match n {
            FsNode::Dir { children, .. } => match find_child(children@, path.first()) {
                Some(c) => lookup(c, path.drop_first()),
                None => None,
            },
            _ => None,
        }
    }
}

/// What one readable child contributes to a listing.
pub open spec fn entry_model(n: FsNode) -> (Seq<char>, u64, bool) {
    (node_name(n), total_size(n) as u64, n is Dir)
}

/// The listing of a directory's children, in scan order, with unreadable
/// children omitted.
pub open spec fn listing_model(children: Seq<FsNode>) -> Seq<(Seq<char>, u64, bool)>
    decreases children.len(),
{
    if children.len() == 0 {
        Seq::empty()
    } else {
        let rest = listing_model(children.drop_last());
        if children.last() is Unreadable {
            rest
        } else {
            rest.push(entry_model(children.last()))
        }
    }
}

/// Whether scanning the directory at `path` under `tree` succeeds.
pub open spec fn scan_ok(tree: FsNode, path: Seq<Seq<char>>) -> bool {
    lookup(tree, path) matches Some(n) && n is Dir
}

/// The listing a successful scan yields.
pub open spec fn scan_model(tree: FsNode, path: Seq<Seq<char>>) -> Seq<(Seq<char>, u64, bool)>
    recommends
        scan_ok(tree, path),
{
    match lookup(tree, path) {
        Some(FsNode::Dir { children, .. }) => listing_model(children@),
        _ => Seq::empty(),
    }
}

/// The error a failed scan yields.
pub open spec fn scan_err(tree: FsNode, path: Seq<Seq<char>>) -> ScanError
    recommends
        !scan_ok(tree, path),
{
    match lookup(tree, path) {
        None => ScanError::NotFound,
        Some(FsNode::Unreadable { .. }) => ScanError::Unreadable,
        Some(FsNode::File { .. }) => ScanError::NotADirectory,
        Some(FsNode::Dir { .. }) => ScanError::NotFound,
    }
}

/// The views of a vector of listing entries.
pub open spec fn items_view(items: Seq<FileItem>) -> Seq<(Seq<char>, u64, bool)> {
    items.map_values(|it: FileItem| it@)
}

/// A child found by name is one of the children.
proof fn lemma_find_child_is_element(s: Seq<FsNode>, name: Seq<char>)
    requires
        find_child(s, name) is Some,
    ensures
        exists|i: int| 0 <= i < s.len() && s[i] == find_child(s, name)->0,
    decreases s.len(),
{
    if s.len() > 0 && node_name(s.first()) != name {
        lemma_find_child_is_element(s.drop_first(), name);
        let j = choose|j: int|
            0 <= j < s.drop_first().len() && s.drop_first()[j] == find_child(
                s.drop_first(),
                name,
            )->0;
        assert(s[j + 1] == s.drop_first()[j]);
    }
}

/// Whatever a path denotes weighs no more than the tree it was found in.
pub proof fn lemma_lookup_size_le(n: FsNode, path: Seq<Seq<char>>)
    requires
        lookup(n, path) is Some,
    ensures
        total_size(lookup(n, path)->0) <= total_size(n),
    decreases path.len(),
{
    if path.len() > 0 {
        match n {
            FsNode::Dir { children, .. } => {
                let c = find_child(children@, path.first())->0;
                lemma_find_child_is_element(children@, path.first());
                let i = choose|i: int| 0 <= i < children@.len() && children@[i] == c;
                lemma_child_le_sum(children@, i);
                lemma_lookup_size_le(c, path.drop_first());
            },
            _ => {},
        }
    }
}

proof fn lemma_listing_take_step(children: Seq<FsNode>, i: int)
    requires
        0 <= i < children.len(),
    ensures
        listing_model(children.take(i + 1)) == if children[i] is Unreadable {
            listing_model(children.take(i))
        } else {
            listing_model(children.take(i)).push(entry_model(children[i]))
        },
{
    assert(children.take(i + 1).drop_last() =~= children.take(i));
}

/// The first child of the given name, as a reference into the tree.
fn find_child_node<'a>(children: &'a Vec<FsNode>, name: &String) -> (r: Option<&'a FsNode>)
    ensures
        match r {
            Some(c) => find_child(children@, name@) == Some(*c),
            None => find_child(children@, name@) is None,
        },
{
    let mut i: usize = 0;
    proof {
        assert(children@.skip(0) =~= children@);
    }
    while i < children.len()
        invariant
            i <= children@.len(),
            find_child(children@, name@) == find_child(children@.skip(i as int), name@),
        decreases children@.len() - i,
    {
        let child = &children[i];
        proof {
            assert(children@.skip(i as int).first() == children@[i as int]);
            assert(children@.skip(i as int).drop_first() =~= children@.skip(i + 1));
        }
        let child_name: &String = match child {
            FsNode::File { name, .. } => name,
            FsNode::Dir { name, .. } => name,
            FsNode::Unreadable { name } => name,
        };
        if *child_name == *name {
            return Some(child);
        }
        i += 1;
    }
    proof {
        assert(children@.skip(children@.len() as int) =~= Seq::<FsNode>::empty());
    }
    None
}

/// The node a segment path denotes under `tree`, if any.
pub fn lookup_node<'a>(tree: &'a FsNode, path: &Vec<String>) -> (r: Option<&'a FsNode>)
    ensures
        match r {
            Some(n) => lookup(*tree, path.deep_view()) == Some(*n),
            None => lookup(*tree, path.deep_view()) is None,
        },
{
    let ghost pv = path.deep_view();
    let mut cur: &FsNode = tree;
    let mut i: usize = 0;
    proof {
        assert(pv.skip(0) =~= pv);
    }
    while i < path.len()
        invariant
            i <= path@.len(),
            pv == path.deep_view(),
            pv.len() == path@.len(),
            lookup(*tree, pv) == lookup(*cur, pv.skip(i as int)),
        decreases path@.len() - i,
    {
        proof {
            assert(pv.skip(i as int).first() == pv[i as int]);
            assert(pv.skip(i as int).drop_first() =~= pv.skip(i + 1));
        }
        match cur {
            FsNode::Dir { children, .. } => {
                match find_child_node(children, &path[i]) {
                    Some(c) => {
                        cur = c;
                    },
                    None => {
                        return None;
                    },
                }
            },
            _ => {
                return None;
            },
        }
        i += 1;
    }
    proof {
        assert(pv.skip(path@.len() as int) =~= Seq::<Seq<char>>::empty());
    }
    Some(cur)
}

/// Scans the directory that `path` denotes under `tree`: one entry per
/// readable child, each with its aggregated size, in scan order; unreadable
/// children are omitted. Fails exactly when the path denotes no readable
/// directory.
pub fn list_dir(tree: &FsNode, path: &Vec<String>) -> (r: Result<Vec<FileItem>, ScanError>)
    requires
        total_size(*tree) <= u64::MAX,
    ensures
        scan_ok(*tree, path.deep_view()) ==> (r matches Ok(items) && items_view(items@)
            == scan_model(*tree, path.deep_view())),
        !scan_ok(*tree, path.deep_view()) ==> r == Result::<Vec<FileItem>, ScanError>::Err(
            scan_err(*tree, path.deep_view()),
        ),
{
    let node = match lookup_node(tree, path) {
        Some(n) => n,
        None => {
            return Err(ScanError::NotFound);
        },
    };
    proof {
        lemma_lookup_size_le(*tree, path.deep_view());
    }
    match node {
        FsNode::Dir { children, .. } => {
            let mut items: Vec<FileItem> = Vec::new();
            let mut i: usize = 0;
            proof {
                assert(children@.take(0) =~= Seq::<FsNode>::empty());
                assert(items_view(items@) =~= Seq::<(Seq<char>, u64, bool)>::empty());
            }
            while i < children.len()
                invariant
                    i <= children@.len(),
                    sum_children(children@) <= u64::MAX,
                    items_view(items@) == listing_model(children@.take(i as int)),
                decreases children@.len() - i,
            {
                let child = &children[i];
                let ghost before = items@;
                match child {
                    FsNode::Unreadable { .. } => {},
                    _ => {
                        proof {
                            lemma_child_le_sum(children@, i as int);
                        }
                        let sz = aggregate_size(child);
                        let child_name: &String = match child {
                            FsNode::File { name, .. } => name,
                            FsNode::Dir { name, .. } => name,
                            FsNode::Unreadable { name } => name,
                        };
                        let is_d = match child {
                            FsNode::Dir { .. } => true,
                            _ => false,
                        };
                        items.push(FileItem { name: child_name.clone(), byte_size: sz, is_dir: is_d });
                        proof {
                            assert(items_view(items@) =~= items_view(before).push(
                                entry_model(children@[i as int]),
                            ));
                        }
                    },
                }
                proof {
                    lemma_listing_take_step(children@, i as int);
                }
                i += 1;
            }
            proof {
                assert(children@.take(children@.len() as int) =~= children@);
            }
            Ok(items)
        },
        FsNode::File { .. } => Err(ScanError::NotADirectory),
        FsNode::Unreadable { .. } => Err(ScanError::Unreadable),
    }
}

/// The listing of the currently browsed directory together with the cursor
/// over it: the cursor, when present, always stays inside the listing.
pub struct FileList {
    pub files: Vec<FileItem>,
    pub state: Option<usize>,
}

impl FileList {
    /// The cursor never points past the end of the listing.
    pub open spec fn wf(self) -> bool {
        match self.state {
            Some(i) => i < self.files@.len(),
            None => true,
        }
    }

    /// Scans the directory at `path` under `tree`; the caller knows the scan
    /// succeeds. The cursor starts cleared.
    pub fn from_path(tree: &FsNode, path: &Vec<String>) -> (r: Self)
        requires
            total_size(*tree) <= u64::MAX,
            scan_ok(*tree, path.deep_view()),
        ensures
            items_view(r.files@) == scan_model(*tree, path.deep_view()),
            r.state is None,
            r.wf(),
    {
        match list_dir(tree, path) {
            Ok(files) => FileList { files, state: None },
            Err(_) => unreached(),
        }
    }

    /// The cursor's position, if any.
    pub fn selected(&self) -> (r: Option<usize>)
        ensures
            r == self.state,
    {
        self.state
    }

    /// Moves the cursor one entry forward: onto the first entry when nothing
    /// was selected, staying on the last entry at the end; an empty listing
    /// keeps the cursor cleared.
    pub fn select_next(&mut self)
        requires
            old(self).wf(),
        ensures
            final(self).wf(),
            final(self).files == old(self).files,
            final(self).state == (if old(self).files@.len() == 0 {
                Option::<usize>::None
            } else {
                match old(self).state {
                    Some(i) => if i + 1 < old(self).files@.len() {
                        Some((i + 1) as usize)
                    } else {
                        Some(i)
                    },
                    None => Some(0usize),
                }
            }),
    {
        if self.files.len() == 0 {
            self.state = None;
        } else {
            self.state = match self.state {
                Some(i) => if i + 1 < self.files.len() {
                    Some(i + 1)
                } else {
                    Some(i)
                },
                None => Some(0),
            };
        }
    }

    /// Moves the cursor one entry back: onto the last entry when nothing was
    /// selected, staying on the first entry at the start; an empty listing
    /// keeps the cursor cleared.
    pub fn select_previous(&mut self)
        requires
            old(self).wf(),
        ensures
            final(self).wf(),
            final(self).files == old(self).files,
            final(self).state == (if old(self).files@.len() == 0 {
                Option::<usize>::None
            } else {
                match old(self).state {
                    Some(i) => if i > 0 {
                        Some((i - 1) as usize)
                    } else {
                        Some(0usize)
                    },
                    None => Some((old(self).files@.len() - 1) as usize),
                }
            }),
    {
        if self.files.len() == 0 {
            self.state = None;
        } else {
            self.state = match self.state {
                Some(i) => if i > 0 {
                    Some(i - 1)
                } else {
                    Some(0)
                },
                None => Some(self.files.len() - 1),
            };
        }
    }
}

} // verus!
