//! The list of changed files.
use vstd::prelude::*;
use crate::diff::{FileChanges, FileMetaMap, FilesView, MetaView};
use crate::text;

verus! {

/// Whether `names` ascend, each before the next.
pub open spec fn ascending(names: Seq<Seq<char>>) -> bool {
    forall|i: int, j: int|
        0 <= i < j < names.len() ==> text::before(#[trigger] names[i], #[trigger] names[j])
}

/// Whether a file is listed. Renames without content changes can be left out.
pub open spec fn listed(files: FilesView, meta: MetaView, hide: bool, name: Seq<char>) -> bool {
    files.dom().contains(name) && !(hide && meta.dom().contains(name)
        && meta[name].purely_renamed())
}

/// Whether `names` are the listed files in ascending order.
pub open spec fn is_listing(
    names: Seq<Seq<char>>,
    files: FilesView,
    meta: MetaView,
    hide: bool,
) -> bool {
    &&& ascending(names)
    &&& forall|n: Seq<char>| #[trigger] names.contains(n) <==> listed(files, meta, hide, n)
}

/// The listed files in ascending order.
pub open spec fn visible_names(files: FilesView, meta: MetaView, hide: bool) -> Seq<Seq<char>> {
    choose|names: Seq<Seq<char>>| is_listing(names, files, meta, hide)
}

/// An ascending list is determined by what it holds.
pub proof fn lemma_ascending_unique(a: Seq<Seq<char>>, b: Seq<Seq<char>>)
    requires
        ascending(a),
        ascending(b),
        forall|n: Seq<char>| #[trigger] a.contains(n) <==> b.contains(n),
    ensures
        a == b,
    decreases a.len(),
{
    if a.len() == 0 {
        if b.len() > 0 {
            assert(b.contains(b[0]));
            assert(a.contains(b[0]));
        }
        assert(a =~= b);
    } else {
        assert(a.contains(a.last()));
        assert(b.len() > 0);
        assert(b.contains(b.last()));
        assert(a.contains(b.last()));
        let i = choose|i: int| 0 <= i < a.len() && a[i] == b.last();
        let j = choose|j: int| 0 <= j < b.len() && b[j] == a.last();
        if a.last() != b.last() {
            assert(text::before(a[i], a[a.len() - 1]));
            assert(text::before(b[j], b[b.len() - 1]));
            text::lemma_before_transitive(a.last(), b.last(), a.last());
            text::lemma_before_irreflexive(a.last());
        }
        let x = a.drop_last();
        let y = b.drop_last();
        assert(ascending(x)) by {
            assert forall|i: int, j: int| 0 <= i < j < x.len() implies text::before(
                #[trigger] x[i],
                #[trigger] x[j],
            ) by {
                assert(x[i] == a[i] && x[j] == a[j]);
            }
        }
        assert(ascending(y)) by {
            assert forall|i: int, j: int| 0 <= i < j < y.len() implies text::before(
                #[trigger] y[i],
                #[trigger] y[j],
            ) by {
                assert(y[i] == b[i] && y[j] == b[j]);
            }
        }
        assert forall|n: Seq<char>| #[trigger] x.contains(n) <==> y.contains(n) by {
            if x.contains(n) {
                let k = choose|k: int| 0 <= k < x.len() && x[k] == n;
                assert(a[k] == n);
                assert(a.contains(n));
                let m = choose|m: int| 0 <= m < b.len() && b[m] == n;
                assert(text::before(a[k], a[a.len() - 1]));
                text::lemma_before_irreflexive(n);
                assert(m < y.len());
                assert(y[m] == n);
            }
            if y.contains(n) {
                let k = choose|k: int| 0 <= k < y.len() && y[k] == n;
                assert(b[k] == n);
                assert(a.contains(n));
                let m = choose|m: int| 0 <= m < a.len() && a[m] == n;
                assert(text::before(b[k], b[b.len() - 1]));
                text::lemma_before_irreflexive(n);
                assert(m < x.len());
                assert(x[m] == n);
            }
        }
        lemma_ascending_unique(x, y);
        assert(a =~= x.push(a.last()));
        assert(b =~= y.push(b.last()));
    }
}

/// Puts `name` into an ascending list that does not hold it.
fn insert_name(names: &mut Vec<String>, name: String)
    requires
        ascending(old(names).deep_view()),
        !old(names).deep_view().contains(name@),
    ensures
        ascending(final(names).deep_view()),
        forall|n: Seq<char>| #[trigger]
            final(names).deep_view().contains(n) <==> old(names).deep_view().contains(n) || n
                == name@,
{
    let ghost v = names.deep_view();
    let mut lo: usize = 0;
    let mut hi: usize = names.len();
    while lo < hi
        invariant
            lo <= hi <= names@.len(),
            v == names.deep_view(),
            ascending(v),
            !v.contains(name@),
            forall|i: int| 0 <= i < lo ==> text::before(#[trigger] v[i], name@),
            forall|i: int| hi <= i < v.len() ==> text::before(name@, #[trigger] v[i]),
        decreases hi - lo,
    {
        let mid: usize = lo + (hi - lo) / 2;
        let goes_before = text::comes_before(names[mid].as_str(), name.as_str());
        proof {
            assert(v[mid as int] == names@[mid as int]@);
            text::lemma_before_total(v[mid as int], name@);
            if goes_before {
                assert forall|i: int| 0 <= i < mid + 1 implies text::before(
                    #[trigger] v[i],
                    name@,
                ) by {
                    if i < mid {
                        text::lemma_before_transitive(v[i], v[mid as int], name@);
                    }
                }
            } else {
                assert(v.contains(v[mid as int]));
                assert forall|i: int| mid <= i < v.len() implies text::before(
                    name@,
                    #[trigger] v[i],
                ) by {
                    if i > mid {
                        text::lemma_before_transitive(name@, v[mid as int], v[i]);
                    }
                }
            }
        }
        if goes_before {
            lo = mid + 1;
        } else {
            hi = mid;
        }
    }
    let ghost added = name@;
    names.insert(lo, name);
    proof {
        let w = names.deep_view();
        assert(w =~= v.insert(lo as int, added));
        assert forall|n: Seq<char>| #[trigger] w.contains(n) <==> v.contains(n) || n == added by {
            if v.contains(n) {
                let k = choose|k: int| 0 <= k < v.len() && v[k] == n;
                if k < lo {
                    assert(w[k] == n);
                } else {
                    assert(w[k + 1] == n);
                }
            }
            assert(w[lo as int] == added);
            if w.contains(n) && n != added {
                let k = choose|k: int| 0 <= k < w.len() && w[k] == n;
                if k < lo {
                    assert(v[k] == n);
                } else {
                    assert(v[k - 1] == n);
                }
            }
        }
    }
}

/// `names` in ascending order.
pub fn sort_names(names: Vec<String>) -> (r: Vec<String>)
    requires
        names.deep_view().no_duplicates(),
    ensures
        ascending(r.deep_view()),
        forall|n: Seq<char>| #[trigger]
            r.deep_view().contains(n) <==> names.deep_view().contains(n),
{
    let ghost all = names.deep_view();
    let mut r: Vec<String> = Vec::new();
    for i in 0..names.len()
        invariant
            all == names.deep_view(),
            all.no_duplicates(),
            ascending(r.deep_view()),
            forall|n: Seq<char>| #[trigger]
                r.deep_view().contains(n) <==> all.take(i as int).contains(n),
    {
        let ghost done = all.take(i as int);
        let ghost name = all[i as int];
        proof {
            assert(name == names@[i as int]@);
            if done.contains(name) {
                let k = choose|k: int| 0 <= k < done.len() && done[k] == name;
                assert(all[k] == name);
            }
        }
        insert_name(&mut r, names[i].clone());
        proof {
            lemma_take_next(all, i as int);
        }
    }
    assert(all.take(all.len() as int) =~= all);
    r
}

/// What the first `i + 1` of `all` hold.
pub proof fn lemma_take_next(all: Seq<Seq<char>>, i: int)
    requires
        0 <= i < all.len(),
    ensures
        forall|n: Seq<char>| #[trigger]
            all.take(i + 1).contains(n) <==> all.take(i).contains(n) || n == all[i],
{
    let done = all.take(i);
    let next = all.take(i + 1);
    assert(next[i] == all[i]);
    assert forall|n: Seq<char>| #[trigger]
        next.contains(n) <==> done.contains(n) || n == all[i] by {
        if done.contains(n) {
            let k = choose|k: int| 0 <= k < done.len() && done[k] == n;
            assert(next[k] == n);
        }
        if next.contains(n) && n != all[i] {
            let k = choose|k: int| 0 <= k < next.len() && next[k] == n;
            assert(done[k] == n);
        }
    }
}

/// The files that are listed: all of them, or those that are no renames
/// without content changes, in ascending order.
pub fn visible_file_names(files: &FileChanges, meta: &FileMetaMap, hide_pure_renames: bool) -> (r:
    Vec<String>)
    ensures
        is_listing(r.deep_view(), files.deep_view(), meta.deep_view(), hide_pure_renames),
        r.deep_view() == visible_names(files.deep_view(), meta.deep_view(), hide_pure_renames),
{
    let keys = files.keys();
    let ghost all = keys.deep_view();
    let ghost fs = files.deep_view();
    let ghost ms = meta.deep_view();
    let mut r: Vec<String> = Vec::new();
    for i in 0..keys.len()
        invariant
            all == keys.deep_view(),
            all.no_duplicates(),
            fs == files.deep_view(),
            ms == meta.deep_view(),
            forall|k: Seq<char>| #[trigger] files@.dom().contains(k) <==> all.contains(k),
            ascending(r.deep_view()),
            forall|n: Seq<char>| #[trigger]
                r.deep_view().contains(n) <==> all.take(i as int).contains(n) && listed(
                    fs,
                    ms,
                    hide_pure_renames,
                    n,
                ),
    {
        let name = &keys[i];
        let hidden = if hide_pure_renames {
            match meta.get(name.as_str()) {
                Some(m) => m.is_pure_rename(),
                None => false,
            }
        } else {
            false
        };
        let ghost done = all.take(i as int);
        proof {
            assert(all[i as int] == name@);
            assert(all.contains(name@));
            assert(files@.dom().contains(name@));
            assert(hidden == !listed(fs, ms, hide_pure_renames, name@));
            if done.contains(name@) {
                let k = choose|k: int| 0 <= k < done.len() && done[k] == name@;
                assert(all[k] == name@);
            }
        }
        if !hidden {
            insert_name(&mut r, name.clone());
        }
        proof {
            lemma_take_next(all, i as int);
        }
    }
    proof {
        assert(all.take(all.len() as int) =~= all);
        let v = r.deep_view();
        assert forall|n: Seq<char>| #[trigger]
            v.contains(n) <==> listed(fs, ms, hide_pure_renames, n) by {
            assert(files@.dom().contains(n) <==> all.contains(n));
        }
        assert(is_listing(v, fs, ms, hide_pure_renames));
        lemma_ascending_unique(v, visible_names(fs, ms, hide_pure_renames));
    }
    r
}

/// The first row that a list of `total` rows shows in `visible_height` rows so
/// that row `selected` is among them.
pub open spec fn list_offset(selected: int, total: int, visible_height: int) -> int {
    if visible_height == 0 || total <= visible_height || selected < visible_height {
        0
    } else if selected + 1 - visible_height < total - visible_height {
        selected + 1 - visible_height
    } else {
        total - visible_height
    }
}

/// The first row that a list shows so that its selected row is shown.
pub fn file_list_offset(selected: usize, total: usize, visible_height: usize) -> (r: usize)
    ensures
        r == list_offset(selected as int, total as int, visible_height as int),
{
    if total == 0 || visible_height == 0 || total <= visible_height {
        return 0;
    }
    let max_offset: usize = total - visible_height;
    if selected < visible_height {
        0
    } else {
        let wanted: usize = selected - visible_height;
        if wanted < max_offset {
            wanted + 1
        } else {
            max_offset
        }
    }
}

/// A list shows its selected row, as few rows past the start as that takes,
/// and nothing past its end.
pub proof fn law_list_offset(selected: int, total: int, visible_height: int)
    requires
        0 <= selected < total,
        0 < visible_height,
    ensures
        ({
            let offset = list_offset(selected, total, visible_height);
            &&& 0 <= offset
            &&& offset <= selected < offset + visible_height
            &&& offset == 0 || offset + visible_height <= total
            &&& forall|o: int| 0 <= o < offset ==> !(selected < #[trigger] (o + visible_height))
        }),
{
}

/// How many lines around a change git is asked for. `None` is git's default,
/// and git reads the number as a signed 32-bit one.
pub open spec fn context_lines(full_file: bool) -> Option<usize> {
    if full_file {
        Some(1_000_000_000)
    } else {
        None
    }
}

/// How many lines around a change git is asked for.
pub fn full_file_context(full_file: bool) -> (r: Option<usize>)
    ensures
        r == context_lines(full_file),
{
    if full_file {
        Some(1_000_000_000)
    } else {
        None
    }
}

/// What git is asked for fits in a signed 32-bit number.
pub proof fn law_context_fits(full_file: bool)
    ensures
        context_lines(full_file) matches Some(n) ==> n <= 0x7fff_ffff,
{
}

/// `names` with `name` put where it belongs.
spec fn put_in(names: Seq<Seq<char>>, name: Seq<char>) -> Seq<Seq<char>>
    decreases names.len(),
{
    if names.len() == 0 || text::before(names.last(), name) {
        names.push(name)
    } else {
        put_in(names.drop_last(), name).push(names.last())
    }
}

proof fn lemma_put_in(names: Seq<Seq<char>>, name: Seq<char>)
    requires
        ascending(names),
        !names.contains(name),
    ensures
        ascending(put_in(names, name)),
        forall|n: Seq<char>| #[trigger]
            put_in(names, name).contains(n) <==> names.contains(n) || n == name,
    decreases names.len(),
{
    let r = put_in(names, name);
    if names.len() == 0 || text::before(names.last(), name) {
        assert(r == names.push(name));
        assert forall|i: int, j: int| 0 <= i < j < r.len() implies text::before(
            #[trigger] r[i],
            #[trigger] r[j],
        ) by {
            assert(r[i] == names[i]);
            if j < names.len() {
                assert(r[j] == names[j]);
            } else if i < names.len() - 1 {
                assert(text::before(names[i], names[names.len() - 1]));
                text::lemma_before_transitive(names[i], names.last(), name);
            }
        }
        lemma_pushed(names, name);
    } else {
        let rest = names.drop_last();
        let last = names.last();
        assert forall|i: int, j: int| 0 <= i < j < rest.len() implies text::before(
            #[trigger] rest[i],
            #[trigger] rest[j],
        ) by {
            assert(rest[i] == names[i] && rest[j] == names[j]);
        }
        if rest.contains(name) {
            let k = choose|k: int| 0 <= k < rest.len() && rest[k] == name;
            assert(names[k] == name);
        }
        lemma_put_in(rest, name);
        assert(names[names.len() - 1] == last);
        assert(last != name) by {
            assert(names.contains(last));
        }
        text::lemma_before_total(last, name);
        let before = put_in(rest, name);
        assert forall|i: int, j: int| 0 <= i < j < r.len() implies text::before(
            #[trigger] r[i],
            #[trigger] r[j],
        ) by {
            assert(r[i] == before[i]);
            if j < before.len() {
                assert(r[j] == before[j]);
            } else {
                assert(before.contains(before[i]));
                if before[i] != name {
                    assert(rest.contains(before[i]));
                    let k = choose|k: int| 0 <= k < rest.len() && rest[k] == before[i];
                    assert(names[k] == before[i]);
                    assert(text::before(names[k], names[names.len() - 1]));
                }
            }
        }
        lemma_pushed(before, last);
        lemma_pushed(rest, last);
        assert(rest.push(last) =~= names);
    }
}

proof fn lemma_pushed(names: Seq<Seq<char>>, name: Seq<char>)
    ensures
        forall|n: Seq<char>| #[trigger]
            names.push(name).contains(n) <==> names.contains(n) || n == name,
{
    let r = names.push(name);
    assert forall|n: Seq<char>| #[trigger] r.contains(n) <==> names.contains(n) || n == name by {
        if names.contains(n) {
            let k = choose|k: int| 0 <= k < names.len() && names[k] == n;
            assert(r[k] == n);
        }
        assert(r[names.len() as int] == name);
        if r.contains(n) && n != name {
            let k = choose|k: int| 0 <= k < r.len() && r[k] == n;
            assert(names[k] == n);
        }
    }
}

/// What a finite set holds can be put in ascending order.
pub proof fn lemma_in_order(all: Set<Seq<char>>)
    requires
        all.finite(),
    ensures
        exists|names: Seq<Seq<char>>| ascending(names) && (forall|n: Seq<char>| #[trigger]
            names.contains(n) <==> all.contains(n)),
    decreases all.len(),
{
    if all.len() == 0 {
        let none = Seq::<Seq<char>>::empty();
        assert(all =~= Set::empty());
        assert(ascending(none));
        assert(forall|n: Seq<char>| #[trigger] none.contains(n) <==> all.contains(n));
    } else {
        let name = all.choose();
        let rest = all.remove(name);
        lemma_in_order(rest);
        let names = choose|names: Seq<Seq<char>>| ascending(names) && (forall|n: Seq<char>|
            #[trigger]
            names.contains(n) <==> rest.contains(n));
        lemma_put_in(names, name);
        let r = put_in(names, name);
        assert forall|n: Seq<char>| #[trigger] r.contains(n) <==> all.contains(n) by {
            assert(names.contains(n) <==> rest.contains(n));
        }
    }
}

/// The list holds every file of the diff once, in order. Where renames without
/// content changes are hidden, it holds every file that is not one of these.
pub proof fn law_listed(files: FilesView, meta: MetaView, hide: bool, name: Seq<char>)
    requires
        files.dom().finite(),
    ensures
        ascending(visible_names(files, meta, hide)),
        visible_names(files, meta, false).contains(name) <==> files.dom().contains(name),
        visible_names(files, meta, true).contains(name) <==> files.dom().contains(name) && !(
        meta.dom().contains(name) && meta[name].rename is Some && meta[name].rename->0.similarity
            >= 100),
{
    lemma_listing(files, meta, hide);
    lemma_listing(files, meta, true);
    lemma_listing(files, meta, false);
}

proof fn lemma_listing(files: FilesView, meta: MetaView, hide: bool)
    requires
        files.dom().finite(),
    ensures
        is_listing(visible_names(files, meta, hide), files, meta, hide),
{
    let all = files.dom().filter(|n: Seq<char>| listed(files, meta, hide, n));
    lemma_in_order(all);
    let names = choose|names: Seq<Seq<char>>| ascending(names) && (forall|n: Seq<char>| #[trigger]
        names.contains(n) <==> all.contains(n));
    assert forall|n: Seq<char>| #[trigger] names.contains(n) <==> listed(files, meta, hide, n) by {
        assert(names.contains(n) <==> all.contains(n));
    }
    assert(is_listing(names, files, meta, hide));
}

} // verus!
