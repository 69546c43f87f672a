//! What an initialization does to the files: the target becomes the mirror
//! of the authoritative tree, and doing it again changes nothing.

use vstd::prelude::*;
use crate::action::{lemma_effect_confined, run, FileTree, FsActionView};
use crate::error::EntryKind;
use crate::initializer::{
    clear_plan, clearing, initialization, populate_plan, populating, WalkEntry,
};
use crate::path::{
    lemma_rerooted_injective, lemma_rerooted_is_under, lemma_translate_round_trip, rerooted,
    under,
};

verus! {

/// Neither root lies under the other.
pub open spec fn separate(a: Seq<Seq<u8>>, b: Seq<Seq<u8>>) -> bool {
    !under(a, b) && !under(b, a)
}

/// The entry accounts for the file at `file`: it is that file, or a
/// directory above it.
pub open spec fn accounts_for(entry: WalkEntry, file: Seq<Seq<u8>>) -> bool {
    ||| entry.kind == Some(EntryKind::File) && entry.path@ == file
    ||| entry.kind == Some(EntryKind::Directory) && under(file, entry.path@)
}

/// The entries account for every file of `tree` under `target`.
pub open spec fn covers(top_level: Seq<WalkEntry>, tree: FileTree, target: Seq<Seq<u8>>) -> bool {
    forall|q: Seq<Seq<u8>>|
        tree.contains_key(q) && #[trigger] under(q, target) ==> exists|i: int|
            0 <= i < top_level.len() && accounts_for(#[trigger] top_level[i], q)
}

/// The walk names every file of `tree` under `authoritative` as a regular
/// file.
pub open spec fn lists(walk: Seq<WalkEntry>, tree: FileTree, authoritative: Seq<Seq<u8>>) -> bool {
    forall|f: Seq<Seq<u8>>|
        tree.contains_key(f) && #[trigger] under(f, authoritative) ==> exists|i: int|
            0 <= i < walk.len() && (#[trigger] walk[i]).path@ == f && walk[i].kind == Some(
                EntryKind::File,
            )
}

/// The files under `target` are those under `authoritative`, each at its
/// place under the other root and with the same content.
pub open spec fn mirrored(tree: FileTree, authoritative: Seq<Seq<u8>>, target: Seq<Seq<u8>>) -> bool {
    &&& forall|f: Seq<Seq<u8>>|
        tree.contains_key(f) && #[trigger] under(f, authoritative) ==> tree.contains_key(
            rerooted(f, authoritative, target),
        ) && tree[rerooted(f, authoritative, target)] == tree[f]
    &&& forall|q: Seq<Seq<u8>>|
        tree.contains_key(q) && #[trigger] under(q, target) ==> tree.contains_key(
            rerooted(q, target, authoritative),
        ) && tree[rerooted(q, target, authoritative)] == tree[q]
}

/// The two trees hold the same files outside `root`.
pub open spec fn agree_outside(after: FileTree, before: FileTree, root: Seq<Seq<u8>>) -> bool {
    forall|p: Seq<Seq<u8>>|
        !(#[trigger] under(p, root)) ==> after.contains_key(p) == before.contains_key(p) && (
        before.contains_key(p) ==> after[p] == before[p])
}

/// No path lies under both of two separate roots.
pub proof fn lemma_separate_roots(p: Seq<Seq<u8>>, a: Seq<Seq<u8>>, b: Seq<Seq<u8>>)
    requires
        separate(a, b),
        under(p, a),
    ensures
        !under(p, b),
{
    if under(p, b) {
        if a.len() <= b.len() {
            assert(b.subrange(0, a.len() as int) =~= a) by {
                assert forall|i: int| 0 <= i < a.len() implies b[i] == a[i] by {
                    assert(p.subrange(0, b.len() as int)[i] == b[i]);
                    assert(p.subrange(0, a.len() as int)[i] == a[i]);
                }
            }
            assert(under(b, a));
        } else {
            assert(a.subrange(0, b.len() as int) =~= b) by {
                assert forall|i: int| 0 <= i < b.len() implies a[i] == b[i] by {
                    assert(p.subrange(0, b.len() as int)[i] == b[i]);
                    assert(p.subrange(0, a.len() as int)[i] == a[i]);
                }
            }
            assert(under(a, b));
        }
    }
}

/// Carrying out two lists of operations one after the other is carrying out
/// the joined list.
pub proof fn lemma_run_joined(first: Seq<FsActionView>, second: Seq<FsActionView>, tree: FileTree)
    ensures
        run(first + second, tree) == run(second, run(first, tree)),
    decreases second.len(),
{
    if second.len() == 0 {
        assert(first + second == first);
    } else {
        assert((first + second).drop_last() == first + second.drop_last());
        assert((first + second).last() == second.last());
        lemma_run_joined(first, second.drop_last(), tree);
    }
}

/// After the clearing, nothing that an entry accounted for is left, nothing
/// was added, and the files outside the target are as they were.
pub proof fn lemma_clearing_empties(top_level: Seq<WalkEntry>, target: Seq<Seq<u8>>, tree: FileTree)
    requires
        clear_plan(top_level, target) is Ok,
    ensures
        agree_outside(run(clear_plan(top_level, target)->Ok_0, tree), tree, target),
        forall|q: Seq<Seq<u8>>| #[trigger]
            run(clear_plan(top_level, target)->Ok_0, tree).contains_key(q)
                ==> tree.contains_key(q),
        forall|q: Seq<Seq<u8>>, i: int|
            0 <= i < top_level.len() && accounts_for(#[trigger] top_level[i], q) ==> !#[trigger] run(
                clear_plan(top_level, target)->Ok_0,
                tree,
            ).contains_key(q),
    decreases top_level.len(),
{
    let plan = clear_plan(top_level, target)->Ok_0;
    let after = run(plan, tree);
    if top_level.len() == 0 {
        assert(after == tree);
    } else {
        let front = top_level.drop_last();
        let entry = top_level.last();
        lemma_clearing_empties(front, target, tree);
        let front_plan = clear_plan(front, target)->Ok_0;
        let mid = run(front_plan, tree);
        let action = clearing(entry, target)->Ok_0;
        assert(plan == front_plan.push(action));
        assert(plan.drop_last() == front_plan);
        assert(plan.last() == action);
        assert(after == action.effect(mid));
        assert(action.confined_to(target));
        assert forall|p: Seq<Seq<u8>>| !(#[trigger] under(p, target)) implies after.contains_key(p)
            == tree.contains_key(p) && (tree.contains_key(p) ==> after[p] == tree[p]) by {
            lemma_effect_confined(action, mid, target, p);
        }
        assert forall|q: Seq<Seq<u8>>| #[trigger] after.contains_key(q) implies tree.contains_key(
            q,
        ) by {
            assert(mid.contains_key(q));
        }
        assert forall|q: Seq<Seq<u8>>, i: int|
            0 <= i < top_level.len() && accounts_for(
                #[trigger] top_level[i],
                q,
            ) implies !#[trigger] after.contains_key(q) by {
            if i < front.len() {
                assert(front[i] == top_level[i]);
                assert(!mid.contains_key(q));
            } else {
                assert(top_level[i] == entry);
            }
        }
    }
}

/// The entry is copied by an initialization: it is a regular file or a link.
pub open spec fn is_copied(entry: WalkEntry) -> bool {
    entry.kind == Some(EntryKind::File) || entry.kind == Some(EntryKind::Symlink)
}

/// After the filling of a target that held no file, the target holds the
/// copy of every listed file that exists and no other file, and the files
/// outside the target are as they were.
pub proof fn lemma_filling_mirrors(
    walk: Seq<WalkEntry>,
    authoritative: Seq<Seq<u8>>,
    target: Seq<Seq<u8>>,
    start: FileTree,
)
    requires
        separate(authoritative, target),
        populate_plan(walk, authoritative, target) is Ok,
        forall|q: Seq<Seq<u8>>| #[trigger] under(q, target) ==> !start.contains_key(q),
    ensures
        agree_outside(run(populate_plan(walk, authoritative, target)->Ok_0, start), start, target),
        forall|q: Seq<Seq<u8>>|
            run(populate_plan(walk, authoritative, target)->Ok_0, start).contains_key(q)
                && #[trigger] under(q, target) ==> start.contains_key(
                rerooted(q, target, authoritative),
            ) && run(populate_plan(walk, authoritative, target)->Ok_0, start)[q]
                == start[rerooted(q, target, authoritative)],
        forall|i: int|
            0 <= i < walk.len() && is_copied(#[trigger] walk[i]) ==> under(
                walk[i].path@,
                authoritative,
            ),
        forall|i: int|
            0 <= i < walk.len() && is_copied(#[trigger] walk[i]) && start.contains_key(
                walk[i].path@,
            ) ==> run(populate_plan(walk, authoritative, target)->Ok_0, start).contains_key(
                rerooted(walk[i].path@, authoritative, target),
            ) && run(populate_plan(walk, authoritative, target)->Ok_0, start)[rerooted(
                walk[i].path@,
                authoritative,
                target,
            )] == start[walk[i].path@],
    decreases walk.len(),
{
    let plan = populate_plan(walk, authoritative, target)->Ok_0;
    let after = run(plan, start);
    if walk.len() == 0 {
        assert(after == start);
    } else {
        let front = walk.drop_last();
        let entry = walk.last();
        lemma_filling_mirrors(front, authoritative, target, start);
        let front_plan = populate_plan(front, authoritative, target)->Ok_0;
        let mid = run(front_plan, start);
        assert forall|i: int| 0 <= i < front.len() implies front[i] == walk[i] by {}
        assert(walk[walk.len() - 1] == entry);
        match populating(entry, authoritative, target)->Ok_0 {
            None => {
                assert(plan == front_plan);
                assert(!is_copied(entry));
            },
            Some(FsActionView::Copy(copy)) => {
                let action = FsActionView::Copy(copy);
                let source = entry.path@;
                let destination = rerooted(source, authoritative, target);
                assert(plan == front_plan.push(action));
                assert(plan.drop_last() == front_plan);
                assert(plan.last() == action);
                assert(after == action.effect(mid));
                assert(under(source, authoritative));
                lemma_rerooted_is_under(source, authoritative, target);
                lemma_translate_round_trip(source, authoritative, target);
                lemma_separate_roots(source, authoritative, target);
                assert(action.confined_to(target));
                assert(mid.contains_key(source) == start.contains_key(source));
                assert forall|p: Seq<Seq<u8>>| !(#[trigger] under(p, target)) implies after.contains_key(
                    p,
                ) == start.contains_key(p) && (start.contains_key(p) ==> after[p] == start[p]) by {
                    lemma_effect_confined(action, mid, target, p);
                }
                assert forall|q: Seq<Seq<u8>>|
                    after.contains_key(q) && #[trigger] under(q, target) implies start.contains_key(
                    rerooted(q, target, authoritative),
                ) && after[q] == start[rerooted(q, target, authoritative)] by {
                    if q != destination {
                        assert(mid.contains_key(q));
                        assert(after[q] == mid[q]);
                    }
                }
                assert forall|i: int|
                    0 <= i < walk.len() && is_copied(#[trigger] walk[i]) && start.contains_key(
                        walk[i].path@,
                    ) implies after.contains_key(rerooted(walk[i].path@, authoritative, target))
                    && after[rerooted(walk[i].path@, authoritative, target)]
                    == start[walk[i].path@] by {
                    if i < front.len() {
                        assert(is_copied(front[i]));
                        let other = rerooted(walk[i].path@, authoritative, target);
                        if other == destination {
                            lemma_rerooted_injective(
                                walk[i].path@,
                                source,
                                authoritative,
                                target,
                            );
                        } else {
                            assert(mid.contains_key(other));
                            assert(after[other] == mid[other]);
                        }
                    }
                }
            },
            Some(other_action) => {
                assert(other_action is CreateDirAll);
                assert(plan == front_plan.push(other_action));
                assert(plan.drop_last() == front_plan);
                assert(plan.last() == other_action);
                assert(after == mid);
                assert(!is_copied(entry));
            },
        }
    }
}

/// After an initialization the target is the mirror of the authoritative
/// tree: every file of the authoritative tree is in the target with the same
/// content, the target holds nothing else, and no file outside the target
/// has changed.
///
/// This holds for roots of which neither lies under the other, and for
/// listings that are true of the tree: the entries given for the target
/// account for every file in it, and the walk names every file of the
/// authoritative tree.
pub proof fn lemma_initialization_mirrors(
    top_level: Seq<WalkEntry>,
    walk: Seq<WalkEntry>,
    authoritative: Seq<Seq<u8>>,
    target: Seq<Seq<u8>>,
    tree: FileTree,
)
    requires
        separate(authoritative, target),
        initialization(top_level, walk, authoritative, target) is Ok,
        covers(top_level, tree, target),
        lists(walk, tree, authoritative),
    ensures
        mirrored(
            run(initialization(top_level, walk, authoritative, target)->Ok_0, tree),
            authoritative,
            target,
        ),
        agree_outside(
            run(initialization(top_level, walk, authoritative, target)->Ok_0, tree),
            tree,
            target,
        ),
{
    let clearing = clear_plan(top_level, target)->Ok_0;
    let filling = populate_plan(walk, authoritative, target)->Ok_0;
    let cleared = run(clearing, tree);
    let after = run(filling, cleared);
    lemma_run_joined(clearing, filling, tree);
    assert(run(initialization(top_level, walk, authoritative, target)->Ok_0, tree) == after);
    lemma_clearing_empties(top_level, target, tree);
    assert forall|q: Seq<Seq<u8>>| #[trigger] under(q, target) implies !cleared.contains_key(q) by {
        if cleared.contains_key(q) {
            assert(tree.contains_key(q));
            let i = choose|i: int|
                0 <= i < top_level.len() && accounts_for(#[trigger] top_level[i], q);
            assert(accounts_for(top_level[i], q));
        }
    }
    lemma_filling_mirrors(walk, authoritative, target, cleared);
    assert forall|p: Seq<Seq<u8>>| !(#[trigger] under(p, target)) implies after.contains_key(p)
        == tree.contains_key(p) && (tree.contains_key(p) ==> after[p] == tree[p]) by {}
    assert forall|f: Seq<Seq<u8>>|
        after.contains_key(f) && #[trigger] under(f, authoritative) implies after.contains_key(
        rerooted(f, authoritative, target),
    ) && after[rerooted(f, authoritative, target)] == after[f] by {
        lemma_separate_roots(f, authoritative, target);
        assert(!under(f, target));
        assert(tree.contains_key(f));
        assert(cleared.contains_key(f));
        let i = choose|i: int|
            0 <= i < walk.len() && (#[trigger] walk[i]).path@ == f && walk[i].kind == Some(
                EntryKind::File,
            );
        assert(is_copied(walk[i]));
    }
    assert forall|q: Seq<Seq<u8>>|
        after.contains_key(q) && #[trigger] under(q, target) implies after.contains_key(
        rerooted(q, target, authoritative),
    ) && after[rerooted(q, target, authoritative)] == after[q] by {
        let origin = rerooted(q, target, authoritative);
        lemma_rerooted_is_under(q, target, authoritative);
        lemma_separate_roots(origin, authoritative, target);
        assert(!under(origin, target));
    }
}

/// An initialization that follows another, with the authoritative tree
/// untouched in between, changes no file: the target is the same after the
/// second as after the first.
///
/// This holds for roots of which neither lies under the other, and for
/// listings that are true of the tree at the time they are made.
pub proof fn lemma_initialization_is_idempotent(
    first_top_level: Seq<WalkEntry>,
    first_walk: Seq<WalkEntry>,
    second_top_level: Seq<WalkEntry>,
    second_walk: Seq<WalkEntry>,
    authoritative: Seq<Seq<u8>>,
    target: Seq<Seq<u8>>,
    tree: FileTree,
)
    requires
        separate(authoritative, target),
        initialization(first_top_level, first_walk, authoritative, target) is Ok,
        covers(first_top_level, tree, target),
        lists(first_walk, tree, authoritative),
        initialization(second_top_level, second_walk, authoritative, target) is Ok,
        covers(
            second_top_level,
            run(initialization(first_top_level, first_walk, authoritative, target)->Ok_0, tree),
            target,
        ),
        lists(
            second_walk,
            run(initialization(first_top_level, first_walk, authoritative, target)->Ok_0, tree),
            authoritative,
        ),
    ensures
        run(
            initialization(second_top_level, second_walk, authoritative, target)->Ok_0,
            run(initialization(first_top_level, first_walk, authoritative, target)->Ok_0, tree),
        ) == run(initialization(first_top_level, first_walk, authoritative, target)->Ok_0, tree),
{
    let once = run(
        initialization(first_top_level, first_walk, authoritative, target)->Ok_0,
        tree,
    );
    let twice = run(
        initialization(second_top_level, second_walk, authoritative, target)->Ok_0,
        once,
    );
    lemma_initialization_mirrors(first_top_level, first_walk, authoritative, target, tree);
    lemma_initialization_mirrors(second_top_level, second_walk, authoritative, target, once);
    assert forall|q: Seq<Seq<u8>>|
        #![trigger twice.dom().contains(q)]
        #![trigger once.dom().contains(q)]
        twice.dom().contains(q) == once.dom().contains(q) && (once.dom().contains(q) ==> twice[q]
            == once[q]) by {
        if under(q, target) {
            let origin = rerooted(q, target, authoritative);
            lemma_rerooted_is_under(q, target, authoritative);
            lemma_translate_round_trip(q, target, authoritative);
            lemma_separate_roots(origin, authoritative, target);
            assert(!under(origin, target));
            assert(under(origin, authoritative));
        } else {
            assert(!under(q, target));
        }
    }
    assert(twice =~= once);
}

} // verus!
