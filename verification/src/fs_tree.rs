//! The modelled directory tree and best-effort size aggregation over it.
//! An entry whose metadata cannot be read is an `Unreadable` node: it
//! contributes zero to any total instead of failing the aggregation.
use vstd::prelude::*;

verus! {

/// One node of a directory tree, as seen at scan time: a regular file with
/// its byte length, a readable directory with its children, or an entry
/// whose metadata could not be read at all.
pub enum FsNode {
    File { name: String, byte_size: u64 },
    Dir { name: String, children: Vec<FsNode> },
    Unreadable { name: String },
}

/// The name of a node.
pub open spec fn node_name(n: FsNode) -> Seq<char> {
    match n {
        FsNode::File { name, .. } => name@,
        FsNode::Dir { name, .. } => name@,
        FsNode::Unreadable { name } => name@,
    }
}

/// The best-effort total size of a node: a file counts its byte length, a
/// directory the sum over all its descendants, and an unreadable entry is
/// skipped, contributing zero.
pub open spec fn total_size(n: FsNode) -> nat
    decreases n,
{
    match n {
        FsNode::File { byte_size, .. } => byte_size as nat,
        FsNode::Dir { children, .. } => sum_children(children@),
        FsNode::Unreadable { .. } => 0,
    }
}

/// The sum of the total sizes of a sequence of sibling nodes.
pub open spec fn sum_children(s: Seq<FsNode>) -> nat
    decreases s,
{
    if s.len() == 0 {
        0
    } else {
        sum_children(s.drop_last()) + total_size(s.last())
    }
}

/// The total size of a directory is exactly the sum of the total sizes of
/// its immediate children; re-aggregating child by child gives the same
/// figure as aggregating the whole directory at once.
pub proof fn lemma_dir_total_is_sum_of_children(name: String, children: Vec<FsNode>)
    ensures
        total_size((FsNode::Dir { name, children })) == sum_children(children@),
{
}

/// An unreadable entry contributes nothing: inserting one anywhere among a
/// directory's children leaves the aggregated total unchanged, so a
/// best-effort total is the sum over the readable entries alone.
pub proof fn lemma_unreadable_adds_nothing(s: Seq<FsNode>, i: int, name: String)
    requires
        0 <= i <= s.len(),
    ensures
        sum_children(s.insert(i, (FsNode::Unreadable { name }))) == sum_children(s),
    decreases s.len(),
{
    let u = FsNode::Unreadable { name };
    assert(total_size(u) == 0);
    if i == s.len() {
        assert(s.insert(i, u) =~= s.push(u));
        assert(s.push(u).drop_last() =~= s);
        assert(s.push(u).last() == u);
        assert(sum_children(s.insert(i, u)) == sum_children(s) + total_size(u));
    } else {
        lemma_unreadable_adds_nothing(s.drop_last(), i, name);
        assert(s.insert(i, u).drop_last() =~= s.drop_last().insert(i, u));
        assert(s.insert(i, u).last() == s.last());
        assert(sum_children(s.insert(i, u)) == sum_children(s.drop_last().insert(i, u))
            + total_size(s.last()));
        assert(sum_children(s) == sum_children(s.drop_last()) + total_size(s.last()));
    }
}

/// Every single child contributes no more than the whole sum.
pub proof fn lemma_child_le_sum(s: Seq<FsNode>, i: int)
    requires
        0 <= i < s.len(),
    ensures
        total_size(s[i]) <= sum_children(s),
    decreases s.len(),
{
    if i < s.len() - 1 {
        lemma_child_le_sum(s.drop_last(), i);
    }
}

/// Extending a prefix of siblings by one more child adds exactly that
/// child's total.
pub proof fn lemma_sum_take_step(s: Seq<FsNode>, i: int)
    requires
        0 <= i < s.len(),
    ensures
        sum_children(s.take(i + 1)) == sum_children(s.take(i)) + total_size(s[i]),
{
    assert(s.take(i + 1).drop_last() =~= s.take(i));
}

/// The number of nodes in a tree, counting the root.
pub open spec fn node_count(n: FsNode) -> nat
    decreases n,
{
    match n {
        FsNode::Dir { children, .. } => 1 + count_children(children@),
        _ => 1,
    }
}

/// The number of nodes in a forest of sibling trees.
pub open spec fn count_children(s: Seq<FsNode>) -> nat
    decreases s,
{
    if s.len() == 0 {
        0
    } else {
        count_children(s.drop_last()) + node_count(s.last())
    }
}

proof fn lemma_count_take_step(s: Seq<FsNode>, i: int)
    requires
        0 <= i < s.len(),
    ensures
        count_children(s.take(i + 1)) == count_children(s.take(i)) + node_count(s[i]),
{
    assert(s.take(i + 1).drop_last() =~= s.take(i));
}

/// The number of nodes still waiting on a work list.
pub open spec fn count_pending(s: Seq<&FsNode>) -> nat
    decreases s.len(),
{
    if s.len() == 0 {
        0
    } else {
        count_pending(s.drop_last()) + node_count(*s.last())
    }
}

/// The sum of the total sizes of the nodes still waiting on a work list.
pub open spec fn sum_pending(s: Seq<&FsNode>) -> nat
    decreases s.len(),
{
    if s.len() == 0 {
        0
    } else {
        sum_pending(s.drop_last()) + total_size(*s.last())
    }
}

/// Best-effort recursive size of a file or directory tree: the byte length
/// of a file, the sum over every readable descendant of a directory, zero
/// for an unreadable entry. The traversal uses an explicit work list, so
/// deep trees cannot exhaust the call stack.
pub fn aggregate_size(node: &FsNode) -> (r: u64)
    requires
        total_size(*node) <= u64::MAX,
    ensures
        r == total_size(*node),
{
    let mut total: u64 = 0;
    let mut pending: Vec<&FsNode> = Vec::new();
    pending.push(node);
    proof {
        assert(pending@.drop_last() =~= Seq::<&FsNode>::empty());
        assert(pending@.last() == node);
        assert(sum_pending(Seq::<&FsNode>::empty()) == 0);
        assert(sum_pending(pending@) == total_size(*node));
    }
    while pending.len() > 0
        invariant
            total + sum_pending(pending@) == total_size(*node),
            total_size(*node) <= u64::MAX,
        decreases count_pending(pending@),
    {
        let ghost before = pending@;
        let n = pending.pop().unwrap();
        proof {
            assert(pending@ =~= before.drop_last());
            assert(n == before.last());
            assert(sum_pending(before) == sum_pending(pending@) + total_size(*n));
            assert(count_pending(before) == count_pending(pending@) + node_count(*n));
        }
        match n {
            FsNode::File { byte_size, .. } => {
                total = total + *byte_size;
            },
            FsNode::Unreadable { .. } => {},
            FsNode::Dir { children, .. } => {
                let ghost base = pending@;
                let mut j: usize = 0;
                while j < children.len()
                    invariant
                        j <= children.len(),
                        total + sum_pending(base) + total_size(*n) == total_size(*node),
                        total_size(*n) == sum_children(children@),
                        node_count(*n) == 1 + count_children(children@),
                        sum_pending(pending@) == sum_pending(base) + sum_children(
                            children@.take(j as int),
                        ),
                        count_pending(pending@) == count_pending(base) + count_children(
                            children@.take(j as int),
                        ),
                    decreases children.len() - j,
                {
                    let ghost p0 = pending@;
                    pending.push(&children[j]);
                    proof {
                        assert(pending@.drop_last() =~= p0);
                        lemma_sum_take_step(children@, j as int);
                        lemma_count_take_step(children@, j as int);
                    }
                    j += 1;
                }
                proof {
                    assert(children@.take(children@.len() as int) =~= children@);
                }
            },
        }
    }
    total
}

} // verus!
