//! What holds of finding the memories of a store.

use crate::path::PartView;
use crate::store::{
    age_and_place, exact, hits, holds_id, ids_of, is_newest, located, lookup, newer, newest_path,
    wins_batch, FileView, Lookup,
};
use crate::time::Timestamp;
use vstd::prelude::*;

verus! {

/// Whether two listings hold the same files, in whatever order.
pub open spec fn same_files(a: Seq<FileView>, b: Seq<FileView>) -> bool {
    forall|f: FileView|
        #![trigger a.contains(f)]
        #![trigger b.contains(f)]
        a.contains(f) <==> b.contains(f)
}

proof fn lemma_ids_contain(files: Seq<FileView>, id: Seq<char>)
    ensures
        ids_of(files).contains(id) <==> exists|i: int|
            0 <= i < files.len() && (#[trigger] files[i]).id == id,
{
    let name = |f: FileView| f.id;
    let ids = files.map_values(name);
    if ids.contains(id) {
        let i = choose|i: int| 0 <= i < ids.len() && ids[i] == id;
        assert(files[i].id == id);
    }
    if exists|i: int| 0 <= i < files.len() && (#[trigger] files[i]).id == id {
        let i = choose|i: int| 0 <= i < files.len() && (#[trigger] files[i]).id == id;
        assert(ids[i] == id);
    }
}

proof fn lemma_one_id(files: Seq<FileView>, i: int, j: int)
    requires
        ids_of(files).len() <= 1,
        0 <= i < files.len(),
        0 <= j < files.len(),
    ensures
        files[i].id == files[j].id,
{
    let ids = ids_of(files);
    lemma_ids_contain(files, files[i].id);
    lemma_ids_contain(files, files[j].id);
    vstd::seq_lib::seq_to_set_is_finite(files.map_values(|f: FileView| f.id));
    if files[i].id != files[j].id {
        let rest = ids.remove(files[i].id);
        assert(rest.contains(files[j].id));
        assert(rest.len() == 0);
        vstd::set_lib::lemma_set_empty_equivalency_len(rest);
    }
}

/// A full id is never ambiguous: it stands for the memory with that id, also
/// where other ids begin with it.
pub proof fn an_exact_id_beats_every_prefix(files: Seq<FileView>, id: Seq<char>, i: int)
    requires
        0 <= i < files.len(),
        files[i].id == id,
    ensures
        located(files, id) == Some(exact(files, id)),
        exact(files, id).contains(files[i]),
{
    let fits = |f: FileView| id.is_prefix_of(f.id);
    let same = |f: FileView| f.id == id;
    let found = hits(files, id);
    assert(id.is_prefix_of(id)) by {
        assert(id.subrange(0, id.len() as int) =~= id);
    }
    crate::seqs::lemma_filter_twice(files, fits, same);
    assert(exact(found, id) == exact(files, id));
    crate::seqs::lemma_filter_contains(files, fits, files[i]);
    crate::seqs::lemma_filter_contains(files, same, files[i]);
    assert(files.contains(files[i]));
    let k = choose|k: int| 0 <= k < found.len() && found[k] == files[i];
    lemma_ids_contain(found, id);
    assert(found[k].id == id);
    if ids_of(found).len() <= 1 {
        assert forall|j: int| 0 <= j < found.len() implies same(#[trigger] found[j]) by {
            lemma_one_id(found, k, j);
        }
        crate::seqs::lemma_filter_all(found, same);
    }
}

/// The files that are found for an id, or for the beginning of one, all are of
/// one memory, whose id begins with it.
pub proof fn located_files_are_of_one_memory(
    files: Seq<FileView>,
    id: Seq<char>,
    found: Seq<FileView>,
    i: int,
    j: int,
)
    requires
        located(files, id) == Some(found),
        0 <= i < found.len(),
        0 <= j < found.len(),
    ensures
        found[i].id == found[j].id,
        id.is_prefix_of(found[i].id),
        files.contains(found[i]),
{
    let fits = |f: FileView| id.is_prefix_of(f.id);
    let same = |f: FileView| f.id == id;
    let first = hits(files, id);
    assert(found.contains(found[i]) && found.contains(found[j]));
    if ids_of(first).len() <= 1 {
        lemma_one_id(found, i, j);
        crate::seqs::lemma_filter_contains(files, fits, found[i]);
    } else {
        crate::seqs::lemma_filter_contains(first, same, found[i]);
        crate::seqs::lemma_filter_contains(first, same, found[j]);
        crate::seqs::lemma_filter_contains(files, fits, found[i]);
    }
}

/// Of several files one is the newest.
pub proof fn some_file_is_the_newest(files: Seq<FileView>) -> (k: int)
    requires
        files.len() > 0,
    ensures
        is_newest(files, k),
    decreases files.len(),
{
    crate::store::preference_is_a_strict_order();
    let lt = |a: (Timestamp, Seq<PartView>), b: (Timestamp, Seq<PartView>)| newer(a, b);
    let last = files.len() - 1;
    let z = age_and_place(files[last]);
    assert(!lt(z, z));
    if files.len() == 1 {
        0
    } else {
        let before = files.drop_last();
        let k = some_file_is_the_newest(before);
        let best = age_and_place(files[k]);
        assert(before[k] == files[k]);
        let r = if newer(z, best) { last } else { k };
        assert forall|i: int| 0 <= i < files.len() implies !newer(
            age_and_place(#[trigger] files[i]),
            age_and_place(files[r]),
        ) by {
            let x = age_and_place(files[i]);
            if i < last {
                assert(before[i] == files[i]);
                assert(!lt(x, best));
                if lt(z, best) && lt(x, z) {
                    assert(lt(x, best));
                }
            }
        }
        r
    }
}

proof fn lemma_same_newest(a: Seq<FileView>, b: Seq<FileView>)
    requires
        same_files(a, b),
        a.len() > 0,
        b.len() > 0,
    ensures
        newest_path(a) == newest_path(b),
{
    let ka = some_file_is_the_newest(a);
    let kb = some_file_is_the_newest(b);
    let i = choose|k: int| is_newest(a, k);
    let j = choose|k: int| is_newest(b, k);
    let f = a[i];
    let g = b[j];
    assert(a.contains(f) && b.contains(g));
    assert(b.contains(f) && a.contains(g));
    let fj = choose|k: int| 0 <= k < b.len() && b[k] == f;
    let gi = choose|k: int| 0 <= k < a.len() && a[k] == g;
    assert(!newer(age_and_place(b[fj]), age_and_place(g)));
    assert(!newer(age_and_place(a[gi]), age_and_place(f)));
    crate::store::preference_is_a_strict_order();
    let lt = |a: (Timestamp, Seq<PartView>), b: (Timestamp, Seq<PartView>)| newer(a, b);
    if age_and_place(f) != age_and_place(g) {
        assert(lt(age_and_place(f), age_and_place(g)) || lt(age_and_place(g), age_and_place(f)));
    }
}

proof fn lemma_same_filter(a: Seq<FileView>, b: Seq<FileView>, keep: spec_fn(FileView) -> bool)
    requires
        same_files(a, b),
    ensures
        same_files(a.filter(keep), b.filter(keep)),
{
    assert forall|f: FileView| #[trigger]
        a.filter(keep).contains(f) <==> b.filter(keep).contains(f) by {
        crate::seqs::lemma_filter_contains(a, keep, f);
        crate::seqs::lemma_filter_contains(b, keep, f);
        assert(a.contains(f) <==> b.contains(f));
    }
}

proof fn lemma_same_emptiness(a: Seq<FileView>, b: Seq<FileView>)
    requires
        same_files(a, b),
    ensures
        a.len() == 0 <==> b.len() == 0,
{
    if a.len() > 0 {
        assert(a.contains(a[0]));
        assert(b.contains(a[0]));
    }
    if b.len() > 0 {
        assert(b.contains(b[0]));
        assert(a.contains(b[0]));
    }
}

/// Which file a memory is read from does not depend on the order in which a
/// directory lists its files.
pub proof fn lookup_does_not_depend_on_the_order_listed(
    a: Seq<FileView>,
    b: Seq<FileView>,
    id: Seq<char>,
)
    requires
        same_files(a, b),
    ensures
        lookup(a, id) == lookup(b, id),
{
    let fits = |f: FileView| id.is_prefix_of(f.id);
    let same = |f: FileView| f.id == id;
    let fa = hits(a, id);
    let fb = hits(b, id);
    lemma_same_filter(a, b, fits);
    assert forall|x: Seq<char>| #[trigger]
        ids_of(fa).contains(x) <==> ids_of(fb).contains(x) by {
        lemma_ids_contain(fa, x);
        lemma_ids_contain(fb, x);
        if ids_of(fa).contains(x) {
            let i = choose|i: int| 0 <= i < fa.len() && (#[trigger] fa[i]).id == x;
            assert(fa.contains(fa[i]));
            let j = choose|j: int| 0 <= j < fb.len() && fb[j] == fa[i];
            assert(fb[j].id == x);
        }
        if ids_of(fb).contains(x) {
            let i = choose|i: int| 0 <= i < fb.len() && (#[trigger] fb[i]).id == x;
            assert(fb.contains(fb[i]));
            let j = choose|j: int| 0 <= j < fa.len() && fa[j] == fb[i];
            assert(fa[j].id == x);
        }
    }
    assert(ids_of(fa) =~= ids_of(fb));
    lemma_same_filter(fa, fb, same);
    lemma_same_emptiness(fa, fb);
    lemma_same_emptiness(exact(fa, id), exact(fb, id));
    if fa.len() > 0 {
        lemma_same_newest(fa, fb);
    }
    if exact(fa, id).len() > 0 {
        lemma_same_newest(exact(fa, id), exact(fb, id));
    }
}

/// A read of one memory and a batch read take the same file.
pub proof fn single_and_batch_reads_agree(files: Seq<FileView>, id: Seq<char>, k: int)
    requires
        wins_batch(files, id, k),
        forall|i: int|
            0 <= i < files.len() && (#[trigger] files[i]).id == id
                ==> crate::path::is_markdown_path(files[i].path),
    ensures
        lookup(files, id) == Lookup::Found(files[k].path),
{
    an_exact_id_beats_every_prefix(files, id, k);
    let same = |f: FileView| f.id == id;
    let found = exact(files, id);
    let m = some_file_is_the_newest(found);
    let n = choose|n: int| is_newest(found, n);
    let p = choose|p: int| 0 <= p < found.len() && found[p] == files[k];
    assert forall|q: int| 0 <= q < found.len() implies !newer(
        age_and_place(#[trigger] found[q]),
        age_and_place(found[p]),
    ) by {
        assert(found.contains(found[q]));
        crate::seqs::lemma_filter_contains(files, same, found[q]);
        let j = choose|j: int| 0 <= j < files.len() && files[j] == found[q];
        assert(holds_id(files, id, j));
    }
    crate::store::the_newest_file_is_unique(found, n, p);
}

/// Which file a batch reads for an id does not depend on the order in which the
/// directory lists its files.
pub proof fn batch_reads_do_not_depend_on_the_order_listed(
    a: Seq<FileView>,
    b: Seq<FileView>,
    id: Seq<char>,
    j: int,
    k: int,
)
    requires
        same_files(a, b),
        wins_batch(a, id, j),
        wins_batch(b, id, k),
    ensures
        age_and_place(a[j]) == age_and_place(b[k]),
{
    crate::store::preference_is_a_strict_order();
    let lt = |x: (Timestamp, Seq<PartView>), y: (Timestamp, Seq<PartView>)| newer(x, y);
    let x = age_and_place(a[j]);
    let y = age_and_place(b[k]);
    assert(a.contains(a[j]) && b.contains(b[k]));
    assert(b.contains(a[j]) && a.contains(b[k]));
    let m = choose|m: int| 0 <= m < b.len() && b[m] == a[j];
    let n = choose|n: int| 0 <= n < a.len() && a[n] == b[k];
    assert(holds_id(b, id, m) && holds_id(a, id, n));
    if x != y {
        assert(lt(x, y) || lt(y, x));
    }
}

} // verus!
