//! The list of recently opened vault files that the window offers: most
//! recent first, each path once, at most a configured number of them.

use vstd::prelude::*;

use crate::db_base::views;

verus! {

/// `paths` with every occurrence of `p` removed, the rest in order.
pub open spec fn without(paths: Seq<Seq<char>>, p: Seq<char>) -> Seq<Seq<char>>
    decreases paths.len(),
{
    if paths.len() == 0 {
        paths
    } else {
        let rest = without(paths.drop_last(), p);
        if paths.last() == p {
            rest
        } else {
            rest.push(paths.last())
        }
    }
}

/// The first `max` of `paths`, or all of them when there are fewer.
pub open spec fn capped(paths: Seq<Seq<char>>, max: nat) -> Seq<Seq<char>> {
    if paths.len() > max {
        paths.take(max as int)
    } else {
        paths
    }
}

/// The list after `p` was opened: `p` first, then the others in their order,
/// cut to `max` entries.
pub open spec fn with_recent(paths: Seq<Seq<char>>, p: Seq<char>, max: nat) -> Seq<Seq<char>> {
    capped(seq![p] + without(paths, p), max)
}

/// No path occurs twice.
pub open spec fn no_repeats(paths: Seq<Seq<char>>) -> bool {
    forall|i: int, j: int| 0 <= i < j < paths.len() ==> paths[i] != paths[j]
}

proof fn lemma_without(paths: Seq<Seq<char>>, p: Seq<char>)
    ensures
        !without(paths, p).contains(p),
        forall|x: Seq<char>| x != p ==> (#[trigger] without(paths, p).contains(x) <==> paths.contains(x)),
        no_repeats(paths) ==> no_repeats(without(paths, p)),
        !paths.contains(p) ==> without(paths, p) == paths,
    decreases paths.len(),
{
    if paths.len() > 0 {
        let shorter = paths.drop_last();
        lemma_without(shorter, p);
        let rest = without(shorter, p);
        assert forall|x: Seq<char>| x != p implies (#[trigger] without(paths, p).contains(x) <==> paths.contains(x)) by {
            if paths.contains(x) && x != paths.last() {
                let i = choose|i: int| 0 <= i < paths.len() && paths[i] == x;
                assert(shorter[i] == x);
            }
            if rest.contains(x) {
                let i = choose|i: int| 0 <= i < rest.len() && rest[i] == x;
                assert(without(paths, p)[i] == x);
            }
            if shorter.contains(x) {
                let i = choose|i: int| 0 <= i < shorter.len() && shorter[i] == x;
                assert(paths[i] == x);
            }
            if x == paths.last() {
                assert(paths[paths.len() - 1] == x);
                assert(without(paths, p)[without(paths, p).len() - 1] == x);
            }
        }
        if no_repeats(paths) {
            assert(no_repeats(shorter)) by {
                assert forall|i: int, j: int| 0 <= i < j < shorter.len() implies shorter[i] != shorter[j] by {
                    assert(shorter[i] == paths[i] && shorter[j] == paths[j]);
                }
            }
            if paths.last() != p {
                assert(!shorter.contains(paths.last())) by {
                    if shorter.contains(paths.last()) {
                        let i = choose|i: int| 0 <= i < shorter.len() && shorter[i] == paths.last();
                        assert(paths[i] == paths[paths.len() - 1]);
                    }
                }
                assert(!rest.contains(paths.last()));
            }
        }
        if !paths.contains(p) {
            assert(!shorter.contains(p)) by {
                if shorter.contains(p) {
                    let i = choose|i: int| 0 <= i < shorter.len() && shorter[i] == p;
                    assert(paths[i] == p);
                }
            }
            assert(paths.last() != p) by {
                assert(paths[paths.len() - 1] == paths.last());
            }
            assert(paths =~= shorter.push(paths.last()));
        }
    }
}

/// Opening a vault keeps the list well formed: its path comes first, no
/// path occurs twice, the list holds at most `max` paths, and every other
/// path in it was already there.
pub proof fn lemma_recent_well_formed(paths: Seq<Seq<char>>, p: Seq<char>, max: nat)
    requires
        no_repeats(paths),
    ensures
        no_repeats(with_recent(paths, p, max)),
        with_recent(paths, p, max).len() <= max,
        max > 0 ==> with_recent(paths, p, max)[0] == p,
        forall|x: Seq<char>| #[trigger] with_recent(paths, p, max).contains(x) && x != p ==> paths.contains(x),
{
    lemma_without(paths, p);
    let w = without(paths, p);
    let l = seq![p] + w;
    assert(no_repeats(l)) by {
        assert forall|i: int, j: int| 0 <= i < j < l.len() implies l[i] != l[j] by {
            if i == 0 {
                assert(l[j] == w[j - 1]);
                assert(w.contains(l[j]));
            } else {
                assert(l[i] == w[i - 1] && l[j] == w[j - 1]);
            }
        }
    }
    let r = with_recent(paths, p, max);
    assert forall|x: Seq<char>| #[trigger] r.contains(x) && x != p implies paths.contains(x) by {
        let i = choose|i: int| 0 <= i < r.len() && r[i] == x;
        assert(l[i] == x);
        assert(i > 0);
        assert(w[i - 1] == x);
        assert(w.contains(x));
    }
}

/// Opening the same vault twice in a row leaves the list as opening it once.
pub proof fn lemma_recent_idempotent(paths: Seq<Seq<char>>, p: Seq<char>, max: nat)
    ensures
        with_recent(with_recent(paths, p, max), p, max) == with_recent(paths, p, max),
{
    lemma_without(paths, p);
    let w = without(paths, p);
    let r = with_recent(paths, p, max);
    if max == 0 {
        assert(r =~= Seq::<Seq<char>>::empty());
        assert(with_recent(r, p, max) =~= Seq::<Seq<char>>::empty());
    } else {
        let k = r.len() as int;
        let tail = w.take(k - 1);
        assert(r =~= seq![p] + tail);
        assert(!tail.contains(p)) by {
            if tail.contains(p) {
                let i = choose|i: int| 0 <= i < tail.len() && tail[i] == p;
                assert(w[i] == p);
                assert(w.contains(p));
            }
        }
        lemma_without_prepend(tail, p);
        lemma_without(tail, p);
        assert(without(r, p) == tail);
        assert(with_recent(r, p, max) =~= r);
    }
}

proof fn lemma_without_prepend(paths: Seq<Seq<char>>, p: Seq<char>)
    ensures
        without(seq![p] + paths, p) == without(paths, p),
    decreases paths.len(),
{
    let l = seq![p] + paths;
    if paths.len() == 0 {
        assert(l.drop_last() =~= Seq::<Seq<char>>::empty());
        assert(l.last() == p);
        assert(without(l.drop_last(), p) =~= Seq::<Seq<char>>::empty());
        assert(without(paths, p) =~= Seq::<Seq<char>>::empty());
    } else {
        assert(l.drop_last() =~= seq![p] + paths.drop_last());
        assert(l.last() == paths.last());
        lemma_without_prepend(paths.drop_last(), p);
    }
}

/// Cutting the list to a new maximum keeps it well formed.
pub proof fn lemma_capped_well_formed(paths: Seq<Seq<char>>, max: nat)
    requires
        no_repeats(paths),
    ensures
        no_repeats(capped(paths, max)),
        capped(paths, max).len() <= max || capped(paths, max) == paths,
        capped(paths, max).len() <= max || paths.len() <= max,
{
    let c = capped(paths, max);
    assert forall|i: int, j: int| 0 <= i < j < c.len() implies c[i] != c[j] by {
        assert(c[i] == paths[i] && c[j] == paths[j]);
    }
}

/// Records that `file` was opened: it moves to the front of
/// `prev_vaults`, other occurrences of it are dropped, and the list is cut
/// to `max_length` entries.
pub fn append_vault_path_to_prev_vaults(prev_vaults: &mut Vec<String>, max_length: usize, file: String)
    ensures
        views(final(prev_vaults)@) == with_recent(views(old(prev_vaults)@), file@, max_length as nat),
{
    let ghost old_paths = views(prev_vaults@);
    let mut out: Vec<String> = Vec::new();
    out.push(file.clone());
    let mut i: usize = 0;
    while i < prev_vaults.len()
        invariant
            i <= prev_vaults@.len(),
            old_paths == views(prev_vaults@),
            views(out@) == seq![file@] + without(old_paths.take(i as int), file@),
        decreases prev_vaults@.len() - i,
    {
        let ghost before = views(out@);
        assert(old_paths.take(i + 1).drop_last() =~= old_paths.take(i as int));
        assert(old_paths.take(i + 1).last() == prev_vaults@[i as int]@);
        if prev_vaults[i] != file {
            out.push(prev_vaults[i].clone());
            assert(views(out@) =~= before.push(prev_vaults@[i as int]@));
        }
        i = i + 1;
    }
    assert(old_paths.take(i as int) =~= old_paths);
    if out.len() > max_length {
        out.truncate(max_length);
        assert(views(out@) =~= (seq![file@] + without(old_paths, file@)).take(max_length as int));
    }
    *prev_vaults = out;
}

/// Sets the maximum length of the list to `new_max`, cutting the list to it.
pub fn update_prev_vaults_max_length(prev_vaults: &mut Vec<String>, max_length: &mut usize, new_max: usize)
    ensures
        *final(max_length) == new_max,
        views(final(prev_vaults)@) == capped(views(old(prev_vaults)@), new_max as nat),
{
    *max_length = new_max;
    if prev_vaults.len() > new_max {
        prev_vaults.truncate(new_max);
        assert(views(prev_vaults@) =~= views(old(prev_vaults)@).take(new_max as int));
    }
}

} // verus!
