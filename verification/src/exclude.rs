//! Self-protection rules for the walk: the deny patterns that keep the
//! walker out of the destination tree and away from the exclusion file
//! when either lies inside the scanned tree.
//!
//! The walker consumes the patterns in gitignore syntax: a leading `!/`
//! anchors the rule at the scan root as an override, and a trailing
//! separator restricts it to a directory subtree.

use vstd::prelude::*;

verus! {

/// A canonical absolute path: it begins with the separator and, unless it
/// is the root itself, does not end with one.
pub open spec fn canonical_path(p: Seq<u8>) -> bool {
    p.len() >= 1 && p[0] == 0x2f && (p.len() == 1 || p.last() != 0x2f)
}

/// `sub` lies in the tree rooted at `root`: it is the root itself or sits
/// below it past a separator.
pub open spec fn inside_spec(root: Seq<u8>, sub: Seq<u8>) -> bool {
    ||| sub == root
    ||| (sub.len() > root.len() && sub.subrange(0, root.len() as int) == root && (root.len()
        == 1 || sub[root.len() as int] == 0x2f))
}

/// The part of `sub` below `root`, without a leading separator.
pub open spec fn rel_spec(root: Seq<u8>, sub: Seq<u8>) -> Seq<u8> {
    if sub == root {
        Seq::<u8>::empty()
    } else if root.len() == 1 {
        sub.skip(1)
    } else {
        sub.skip(root.len() as int + 1)
    }
}

/// The forced rule protecting a directory: anchored at the root, with a
/// trailing separator so only that subtree is pruned.
pub open spec fn dir_rule_spec(root: Seq<u8>, sub: Seq<u8>) -> Seq<u8> {
    seq![0x21u8, 0x2fu8] + rel_spec(root, sub) + seq![0x2fu8]
}

/// The forced rule protecting a single file: anchored at the root.
pub open spec fn file_rule_spec(root: Seq<u8>, sub: Seq<u8>) -> Seq<u8> {
    seq![0x21u8, 0x2fu8] + rel_spec(root, sub)
}

/// Decides whether `sub` lies in the tree rooted at `root`.
pub fn inside(root: &Vec<u8>, sub: &Vec<u8>) -> (r: bool)
    requires
        root@.len() >= 1,
    ensures
        r == inside_spec(root@, sub@),
{
    if sub.len() < root.len() {
        proof {
            assert(!inside_spec(root@, sub@));
        }
        return false;
    }
    let mut i: usize = 0;
    while i < root.len()
        invariant
            i <= root@.len() <= sub@.len(),
            forall|j: int| 0 <= j < i ==> root@[j] == sub@[j],
        decreases root@.len() - i,
    {
        if root[i] != sub[i] {
            proof {
                assert(sub@.subrange(0, root@.len() as int) != root@);
                assert(sub@ != root@);
            }
            return false;
        }
        i = i + 1;
    }
    proof {
        assert(sub@.subrange(0, root@.len() as int) =~= root@);
    }
    if sub.len() == root.len() {
        proof {
            assert(sub@ =~= root@);
        }
        true
    } else {
        root.len() == 1 || sub[root.len()] == 0x2f
    }
}

/// Copies the part of `sub` below `root`.
fn rel_bytes(root: &Vec<u8>, sub: &Vec<u8>) -> (r: Vec<u8>)
    requires
        root@.len() >= 1,
        inside_spec(root@, sub@),
    ensures
        r@ == rel_spec(root@, sub@),
{
    let start: usize = if sub.len() == root.len() {
        sub.len()
    } else if root.len() == 1 {
        1
    } else {
        root.len() + 1
    };
    let mut r: Vec<u8> = Vec::new();
    let mut i: usize = start;
    while i < sub.len()
        invariant
            start <= i <= sub@.len(),
            r@ =~= sub@.subrange(start as int, i as int),
        decreases sub@.len() - i,
    {
        let b = sub[i];
        r.push(b);
        i = i + 1;
        proof {
            assert(r@ =~= sub@.subrange(start as int, i as int));
        }
    }
    proof {
        if sub@.len() == root@.len() {
            assert(sub@ =~= root@);
            assert(r@ =~= Seq::<u8>::empty());
        } else {
            assert(sub@ != root@);
            assert(r@ =~= sub@.skip(start as int));
        }
    }
    r
}

/// The forced never-descend rule protecting the destination tree, owed
/// exactly when the destination lies inside the scanned tree.
pub fn dest_rule(root: &Vec<u8>, dest: &Vec<u8>) -> (r: Option<Vec<u8>>)
    requires
        root@.len() >= 1,
    ensures
        (r is Some) == inside_spec(root@, dest@),
        r is Some ==> r->0@ == dir_rule_spec(root@, dest@),
{
    if !inside(root, dest) {
        return None;
    }
    let rel = rel_bytes(root, dest);
    let mut out: Vec<u8> = Vec::new();
    out.push(0x21);
    out.push(0x2f);
    crate::text::extend_bytes(&mut out, &rel);
    out.push(0x2f);
    proof {
        assert(out@ =~= dir_rule_spec(root@, dest@));
    }
    Some(out)
}

/// The forced rule protecting the exclusion file itself, owed exactly
/// when that file lies inside the scanned tree.
pub fn exclude_file_rule(root: &Vec<u8>, file: &Vec<u8>) -> (r: Option<Vec<u8>>)
    requires
        root@.len() >= 1,
    ensures
        (r is Some) == inside_spec(root@, file@),
        r is Some ==> r->0@ == file_rule_spec(root@, file@),
{
    if !inside(root, file) {
        return None;
    }
    let rel = rel_bytes(root, file);
    let mut out: Vec<u8> = Vec::new();
    out.push(0x21);
    out.push(0x2f);
    crate::text::extend_bytes(&mut out, &rel);
    proof {
        assert(out@ =~= file_rule_spec(root@, file@));
    }
    Some(out)
}

} // verus!
