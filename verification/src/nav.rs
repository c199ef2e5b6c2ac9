//! The navigation state machine: the current logical location as a stack of
//! navigation tokens under an anchor, the listing of the browsed directory
//! with its cursor, and the name of an opened file while viewing. Every
//! transition either succeeds as a whole or leaves the state untouched.
use vstd::prelude::*;
use vstd::pervasive::unreached;
use crate::fs_tree::{FsNode, total_size};
use crate::listing::{
    FileList,
    ScanError,
    items_view,
    list_dir,
    lookup,
    lookup_node,
    scan_err,
    scan_model,
    scan_ok,
};
use crate::paths::{
    is_up_token,
    join_path,
    norm_ups,
    path_string,
    resolve_under,
    resolved_segments,
    up_token,
};

verus! {

/// Why a navigation transition failed: the target directory could not be
/// scanned, or the selected file could not be opened for viewing. Either
/// way the previous state is preserved.
#[derive(Clone, Copy, Debug, PartialEq, Eq, Structural)]
pub enum NavError {
    DirectoryUnreadable,
    FileUnreadable,
}

/// The stack after one go-back while browsing: the most recent descent is
/// popped; when only ascents (or nothing at all) are recorded, one more up
/// marker is pushed instead, ascending above the anchor.
pub open spec fn go_back_stack(stack: Seq<Seq<char>>) -> Seq<Seq<char>> {
    if stack.len() > 0 && stack.last() != up_token() {
        stack.drop_last()
    } else {
        stack.push(up_token())
    }
}

/// Law: one go-back exactly undoes one descent, whatever stood on the
/// stack before it.
pub proof fn lemma_go_back_undoes_descent(stack: Seq<Seq<char>>, name: Seq<char>)
    requires
        name != up_token(),
    ensures
        go_back_stack(stack.push(name)) == stack,
{
    assert(stack.push(name).drop_last() =~= stack);
}

/// The navigation state machine: the anchor (the absolute directory the
/// browser started in, as segments), the stack of navigation tokens taken
/// from it, the listing of the browsed directory with its cursor, and the
/// name of the file being viewed, if any. With no open file the state is
/// browsing; with one it is viewing.
pub struct NavigationState {
    pub anchor: Vec<String>,
    pub stack: Vec<String>,
    pub listing: FileList,
    pub open_file: Option<String>,
}

impl NavigationState {
    /// The anchor holds plain segments, no up markers.
    pub open spec fn anchor_wf(self) -> bool {
        forall|i: int|
            0 <= i < self.anchor.deep_view().len() ==> #[trigger] self.anchor.deep_view()[i]
                != up_token()
    }

    /// The cursor stays inside the listing, and the stack never records
    /// more ascents above the anchor than the anchor has segments.
    pub open spec fn wf(self) -> bool {
        &&& self.listing.wf()
        &&& self.anchor_wf()
        &&& norm_ups(self.stack.deep_view()) <= self.anchor.deep_view().len()
    }

    /// Whether a file is open for viewing.
    pub open spec fn is_viewing(self) -> bool {
        self.open_file is Some
    }

    /// The absolute segments the stack currently denotes under the anchor.
    pub open spec fn current_segments(self) -> Seq<Seq<char>> {
        resolved_segments(self.anchor.deep_view(), self.stack.deep_view())
    }

    /// Starts browsing at the anchor with an empty stack and a fresh
    /// listing; fails exactly when the anchor cannot be scanned.
    pub fn new(tree: &FsNode, anchor: Vec<String>) -> (r: Result<Self, ScanError>)
        requires
            total_size(*tree) <= u64::MAX,
            forall|i: int|
                0 <= i < anchor.deep_view().len() ==> #[trigger] anchor.deep_view()[i]
                    != up_token(),
        ensures
            scan_ok(*tree, anchor.deep_view()) ==> (r matches Ok(st) && st.wf() && st.anchor@
                == anchor@ && st.stack@.len() == 0 && items_view(st.listing.files@) == scan_model(
                *tree,
                anchor.deep_view(),
            ) && st.listing.state is None && st.open_file is None),
            !scan_ok(*tree, anchor.deep_view()) ==> r == Result::<Self, ScanError>::Err(
                scan_err(*tree, anchor.deep_view()),
            ),
    {
        match list_dir(tree, &anchor) {
            Ok(files) => {
                let stack: Vec<String> = Vec::new();
                proof {
                    assert(stack.deep_view() =~= Seq::<Seq<char>>::empty());
                }
                Ok(
                    NavigationState {
                        anchor,
                        stack,
                        listing: FileList { files, state: None },
                        open_file: None,
                    },
                )
            },
            Err(e) => Err(e),
        }
    }

    /// The resolved absolute path of the browsed directory, for display.
    pub fn current_path(&self) -> (r: String)
        requires
            self.wf(),
        ensures
            r@ == path_string(self.current_segments()),
    {
        match resolve_under(&self.anchor, &self.stack) {
            Some(path) => join_path(&path),
            None => unreached(),
        }
    }

    /// Enters the selected entry. A selected directory is pushed onto the
    /// stack and scanned afresh, with the cursor reset; a selected file is
    /// opened for viewing, everything else untouched. With nothing
    /// selected, or while already viewing, nothing happens. A transition
    /// that fails leaves the whole state as it was.
    pub fn enter(&mut self, tree: &FsNode) -> (r: Result<(), NavError>)
        requires
            old(self).wf(),
            total_size(*tree) <= u64::MAX,
        ensures
            final(self).wf(),
            final(self).anchor == old(self).anchor,
            (old(self).is_viewing() || old(self).listing.state is None) ==> (r is Ok && final(self).stack@ == old(self).stack@ && final(self).listing.files@ == old(self).listing.files@ && final(self).listing.state == old(self).listing.state && final(self).open_file == old(self).open_file),
            !old(self).is_viewing() ==> (match old(self).listing.state {
                Some(sel) => ({
                let e = old(self).listing.files@[sel as int]@;
                let ns = old(self).stack.deep_view().push(e.0);
                let dir_path = resolved_segments(old(self).anchor.deep_view(), ns);
                let file_path = old(self).current_segments().push(e.0);
                if e.2 {
                    if norm_ups(ns) <= old(self).anchor.deep_view().len() && scan_ok(
                        *tree,
                        dir_path,
                    ) {
                        &&& r is Ok
                        &&& final(self).stack.deep_view() == ns
                        &&& items_view(final(self).listing.files@) == scan_model(*tree, dir_path)
                        &&& final(self).listing.state is None
                        &&& final(self).open_file is None
                    } else {
                        &&& r == Result::<(), NavError>::Err(NavError::DirectoryUnreadable)
                        &&& final(self).stack@ == old(self).stack@
                        &&& final(self).listing.files@ == old(self).listing.files@
                        &&& final(self).listing.state == old(self).listing.state
                        &&& final(self).open_file == old(self).open_file
                    }
                } else {
                    if lookup(*tree, file_path) matches Some(n) && n is File {
                        &&& r is Ok
                        &&& final(self).open_file matches Some(f) && f@ == e.0
                        &&& final(self).stack@ == old(self).stack@
                        &&& final(self).listing.files@ == old(self).listing.files@
                        &&& final(self).listing.state == old(self).listing.state
                    } else {
                        &&& r == Result::<(), NavError>::Err(NavError::FileUnreadable)
                        &&& final(self).stack@ == old(self).stack@
                        &&& final(self).listing.files@ == old(self).listing.files@
                        &&& final(self).listing.state == old(self).listing.state
                        &&& final(self).open_file == old(self).open_file
                    }
                }
                }),
                None => true,
            }),
    {
        if self.open_file.is_some() {
            return Ok(());
        }
        let sel = match self.listing.state {
            Some(i) => i,
            None => {
                return Ok(());
            },
        };
        let item = &self.listing.files[sel];
        let name = item.name.clone();
        let is_d = item.is_dir;
        if is_d {
            let ghost old_stack = self.stack@;
            let ghost old_deep = self.stack.deep_view();
            self.stack.push(name);
            proof {
                assert(self.stack.deep_view() =~= old_deep.push(
                    old(self).listing.files@[sel as int]@.0,
                ));
            }
            match resolve_under(&self.anchor, &self.stack) {
                Some(path) => {
                    match list_dir(tree, &path) {
                        Ok(files) => {
                            self.listing = FileList { files, state: None };
                            Ok(())
                        },
                        Err(_) => {
                            let _ = self.stack.pop();
                            proof {
                                assert(self.stack@ =~= old_stack);
                            }
                            Err(NavError::DirectoryUnreadable)
                        },
                    }
                },
                None => {
                    let _ = self.stack.pop();
                    proof {
                        assert(self.stack@ =~= old_stack);
                    }
                    Err(NavError::DirectoryUnreadable)
                },
            }
        } else {
            match resolve_under(&self.anchor, &self.stack) {
                Some(mut path) => {
                    let ghost path_deep = path.deep_view();
                    path.push(name.clone());
                    proof {
                        assert(path.deep_view() =~= path_deep.push(
                            old(self).listing.files@[sel as int]@.0,
                        ));
                    }
                    match lookup_node(tree, &path) {
                        Some(n) => match n {
                            FsNode::File { .. } => {
                                self.open_file = Some(name);
                                Ok(())
                            },
                            _ => Err(NavError::FileUnreadable),
                        },
                        None => Err(NavError::FileUnreadable),
                    }
                },
                None => unreached(),
            }
        }
    }

    /// Goes back one step. While viewing, the open file is closed and the
    /// browsing context is exactly as it was left. While browsing, the most
    /// recent descent is popped — or, with none left, one more up marker is
    /// pushed, ascending above the anchor — and the target directory is
    /// scanned afresh with the cursor reset. A transition that fails leaves
    /// the whole state as it was.
    pub fn go_back(&mut self, tree: &FsNode) -> (r: Result<(), NavError>)
        requires
            old(self).wf(),
            total_size(*tree) <= u64::MAX,
        ensures
            final(self).wf(),
            final(self).anchor == old(self).anchor,
            old(self).is_viewing() ==> (r is Ok && final(self).open_file is None && final(self).stack@ == old(self).stack@ && final(self).listing.files@ == old(self).listing.files@ && final(self).listing.state == old(self).listing.state),
            !old(self).is_viewing() ==> ({
                let ns = go_back_stack(old(self).stack.deep_view());
                let path = resolved_segments(old(self).anchor.deep_view(), ns);
                if norm_ups(ns) <= old(self).anchor.deep_view().len() && scan_ok(*tree, path) {
                    &&& r is Ok
                    &&& final(self).stack.deep_view() == ns
                    &&& items_view(final(self).listing.files@) == scan_model(*tree, path)
                    &&& final(self).listing.state is None
                    &&& final(self).open_file is None
                } else {
                    &&& r == Result::<(), NavError>::Err(NavError::DirectoryUnreadable)
                    &&& final(self).stack@ == old(self).stack@
                    &&& final(self).listing.files@ == old(self).listing.files@
                    &&& final(self).listing.state == old(self).listing.state
                    &&& final(self).open_file == old(self).open_file
                }
            }),
    {
        if self.open_file.is_some() {
            self.open_file = None;
            return Ok(());
        }
        let ghost old_stack = self.stack@;
        let ghost old_deep = self.stack.deep_view();
        let n = self.stack.len();
        let pops = n > 0 && !is_up_token(&self.stack[n - 1]);
        if pops {
            let name = self.stack.pop().unwrap();
            proof {
                assert(self.stack.deep_view() =~= go_back_stack(old_deep));
            }
            match resolve_under(&self.anchor, &self.stack) {
                Some(path) => {
                    match list_dir(tree, &path) {
                        Ok(files) => {
                            self.listing = FileList { files, state: None };
                            Ok(())
                        },
                        Err(_) => {
                            self.stack.push(name);
                            proof {
                                assert(self.stack@ =~= old_stack);
                            }
                            Err(NavError::DirectoryUnreadable)
                        },
                    }
                },
                None => {
                    self.stack.push(name);
                    proof {
                        assert(self.stack@ =~= old_stack);
                    }
                    Err(NavError::DirectoryUnreadable)
                },
            }
        } else {
            let up: String = "..".to_owned();
            proof {
                reveal_strlit("..");
                assert(up@ =~= up_token());
            }
            self.stack.push(up);
            proof {
                assert(self.stack.deep_view() =~= go_back_stack(old_deep));
            }
            match resolve_under(&self.anchor, &self.stack) {
                Some(path) => {
                    match list_dir(tree, &path) {
                        Ok(files) => {
                            self.listing = FileList { files, state: None };
                            Ok(())
                        },
                        Err(_) => {
                            let _ = self.stack.pop();
                            proof {
                                assert(self.stack@ =~= old_stack);
                            }
                            Err(NavError::DirectoryUnreadable)
                        },
                    }
                },
                None => {
                    let _ = self.stack.pop();
                    proof {
                        assert(self.stack@ =~= old_stack);
                    }
                    Err(NavError::DirectoryUnreadable)
                },
            }
        }
    }

    /// Moves the cursor one entry forward through the current listing,
    /// clamping at the last entry.
    pub fn select_next(&mut self)
        requires
            old(self).wf(),
        ensures
            final(self).wf(),
            final(self).anchor == old(self).anchor,
            final(self).stack@ == old(self).stack@,
            final(self).open_file == old(self).open_file,
            final(self).listing.files == old(self).listing.files,
            final(self).listing.state == (if old(self).listing.files@.len() == 0 {
                Option::<usize>::None
            } else {
                match old(self).listing.state {
                    Some(i) => if i + 1 < old(self).listing.files@.len() {
                        Some((i + 1) as usize)
                    } else {
                        Some(i)
                    },
                    None => Some(0usize),
                }
            }),
    {
        self.listing.select_next();
    }

    /// Moves the cursor one entry back through the current listing,
    /// clamping at the first entry.
    pub fn select_previous(&mut self)
        requires
            old(self).wf(),
        ensures
            final(self).wf(),
            final(self).anchor == old(self).anchor,
            final(self).stack@ == old(self).stack@,
            final(self).open_file == old(self).open_file,
            final(self).listing.files == old(self).listing.files,
            final(self).listing.state == (if old(self).listing.files@.len() == 0 {
                Option::<usize>::None
            } else {
                match old(self).listing.state {
                    Some(i) => if i > 0 {
                        Some((i - 1) as usize)
                    } else {
                        Some(0usize)
                    },
                    None => Some((old(self).listing.files@.len() - 1) as usize),
                }
            }),
    {
        self.listing.select_previous();
    }
}

} // verus!
