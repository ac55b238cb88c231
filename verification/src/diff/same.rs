//! Whether two diffs are the same.
use vstd::prelude::*;
use super::{FileChanges, FileMeta, FileMetaMap, LineChange};

verus! {

/// Whether two sides are the same.
fn same_side(a: &Vec<LineChange>, b: &Vec<LineChange>) -> (r: bool)
    ensures
        r == (a.deep_view() == b.deep_view()),
{
    if a.len() != b.len() {
        assert(a.deep_view().len() != b.deep_view().len());
        return false;
    }
    for i in 0..a.len()
        invariant
            a@.len() == b@.len(),
            forall|j: int| 0 <= j < i ==> a.deep_view()[j] == #[trigger] b.deep_view()[j],
    {
        assert(a.deep_view()[i as int] == (a@[i as int].0, a@[i as int].1@));
        assert(b.deep_view()[i as int] == (b@[i as int].0, b@[i as int].1@));
        if a[i].0 != b[i].0 || *a[i].1.as_str() != *b[i].1.as_str() {
            return false;
        }
    }
    assert(a.deep_view() =~= b.deep_view());
    true
}

/// Whether two files have the same metadata.
fn same_entry(a: &FileMeta, b: &FileMeta) -> (r: bool)
    ensures
        r == (a.deep_view() == b.deep_view()),
{
    if a.status != b.status {
        return false;
    }
    match (&a.rename, &b.rename) {
        (Some(x), Some(y)) => x.similarity == y.similarity && *x.from.as_str() == *y.from.as_str(),
        (None, None) => true,
        _ => false,
    }
}

/// Whether two diffs have the same files.
pub fn same_files(a: &FileChanges, b: &FileChanges) -> (r: bool)
    ensures
        r == (a.deep_view() == b.deep_view()),
{
    let ghost va = a.deep_view();
    let ghost vb = b.deep_view();
    let ours = a.keys();
    let ghost names = ours.deep_view();
    for i in 0..ours.len()
        invariant
            va == a.deep_view(),
            vb == b.deep_view(),
            names == ours.deep_view(),
            forall|k: Seq<char>| #[trigger] a@.dom().contains(k) <==> names.contains(k),
            forall|j: int|
                0 <= j < i ==> vb.dom().contains(#[trigger] names[j]) && va[names[j]]
                    == vb[names[j]],
    {
        let ghost name = names[i as int];
        proof {
            assert(name == ours@[i as int]@);
            assert(names.contains(name));
            assert(a@.dom().contains(name));
        }
        match (a.look_up(ours[i].as_str()), b.look_up(ours[i].as_str())) {
            (Some(x), Some(y)) => {
                if !same_side(&x.0, &y.0) || !same_side(&x.1, &y.1) {
                    return false;
                }
            },
            _ => {
                return false;
            },
        }
    }
    let theirs = b.keys();
    let ghost others = theirs.deep_view();
    for i in 0..theirs.len()
        invariant
            va == a.deep_view(),
            vb == b.deep_view(),
            others == theirs.deep_view(),
            forall|k: Seq<char>| #[trigger] b@.dom().contains(k) <==> others.contains(k),
            forall|j: int| 0 <= j < i ==> va.dom().contains(#[trigger] others[j]),
    {
        let ghost name = others[i as int];
        proof {
            assert(name == theirs@[i as int]@);
            assert(others.contains(name));
            assert(b@.dom().contains(name));
        }
        if !a.contains_key(theirs[i].as_str()) {
            assert(!va.dom().contains(name) && vb.dom().contains(name));
            return false;
        }
    }
    proof {
        assert forall|k: Seq<char>| #[trigger]
            va.dom().contains(k) <==> vb.dom().contains(k) by {
            assert(a@.dom().contains(k) <==> names.contains(k));
            assert(b@.dom().contains(k) <==> others.contains(k));
        }
        assert forall|k: Seq<char>| #[trigger] va.dom().contains(k) implies va[k] == vb[k] by {
            assert(a@.dom().contains(k));
            let j = choose|j: int| 0 <= j < names.len() && names[j] == k;
            assert(vb.dom().contains(names[j]));
        }
        assert(va =~= vb);
    }
    true
}

/// Whether two diffs have the same metadata.
pub fn same_meta(a: &FileMetaMap, b: &FileMetaMap) -> (r: bool)
    ensures
        r == (a.deep_view() == b.deep_view()),
{
    let ghost va = a.deep_view();
    let ghost vb = b.deep_view();
    let ours = a.keys();
    let ghost names = ours.deep_view();
    for i in 0..ours.len()
        invariant
            va == a.deep_view(),
            vb == b.deep_view(),
            names == ours.deep_view(),
            forall|k: Seq<char>| #[trigger] a@.dom().contains(k) <==> names.contains(k),
            forall|j: int|
                0 <= j < i ==> vb.dom().contains(#[trigger] names[j]) && va[names[j]]
                    == vb[names[j]],
    {
        let ghost name = names[i as int];
        proof {
            assert(name == ours@[i as int]@);
            assert(names.contains(name));
            assert(a@.dom().contains(name));
        }
        match (a.look_up(ours[i].as_str()), b.look_up(ours[i].as_str())) {
            (Some(x), Some(y)) => {
                if !same_entry(x, y) {
                    return false;
                }
            },
            _ => {
                return false;
            },
        }
    }
    let theirs = b.keys();
    let ghost others = theirs.deep_view();
    for i in 0..theirs.len()
        invariant
            va == a.deep_view(),
            vb == b.deep_view(),
            others == theirs.deep_view(),
            forall|k: Seq<char>| #[trigger] b@.dom().contains(k) <==> others.contains(k),
            forall|j: int| 0 <= j < i ==> va.dom().contains(#[trigger] others[j]),
    {
        let ghost name = others[i as int];
        proof {
            assert(name == theirs@[i as int]@);
            assert(others.contains(name));
            assert(b@.dom().contains(name));
        }
        if !a.contains_key(theirs[i].as_str()) {
            assert(!va.dom().contains(name) && vb.dom().contains(name));
            return false;
        }
    }
    proof {
        assert forall|k: Seq<char>| #[trigger]
            va.dom().contains(k) <==> vb.dom().contains(k) by {
            assert(a@.dom().contains(k) <==> names.contains(k));
            assert(b@.dom().contains(k) <==> others.contains(k));
        }
        assert forall|k: Seq<char>| #[trigger] va.dom().contains(k) implies va[k] == vb[k] by {
            assert(a@.dom().contains(k));
            let j = choose|j: int| 0 <= j < names.len() && names[j] == k;
            assert(vb.dom().contains(names[j]));
        }
        assert(va =~= vb);
    }
    true
}

} // verus!
