//! Per-task address spaces: cloning and freeing whole table trees.

use vstd::prelude::*;
use crate::mem::frame::FrameAllocator;
use crate::mem::page_table::{
    alloc_table, backed, kernel_l0_phys, lemma_desc, TableSpace, DESC_TABLE, DESC_VALID,
};
use crate::mem::tables::{idx, is_table, mapping, valid, Tables, ADDR_MASK};
use crate::mem::PhysAddr;

verus! {

/// Word `i` of the level-`l` table `f` points to a table.
pub open spec fn child(t: Tables, f: int, l: int, i: int) -> bool {
    l < 3 && 0 <= i < 512 && is_table(t.entry(f, i))
}

/// Table `g` is in the tree below the level-`l` table `f`.
pub open spec fn in_tree(t: Tables, f: int, l: int, g: int) -> bool
    decreases 3 - l,
{
    g == f || (l < 3 && exists|i: int|
        #[trigger] child(t, f, l, i) && in_tree(t, t.target(t.entry(f, i)), l + 1, g))
}

/// Number of tables below the first `n` words of the level-`l` table `f`.
pub open spec fn children_size(t: Tables, f: int, l: int, n: int) -> nat
    decreases 3 - l, n,
{
    if n <= 0 {
        0
    } else {
        children_size(t, f, l, n - 1) + if child(t, f, l, n - 1) {
            tree_size(t, t.target(t.entry(f, n - 1)), l + 1)
        } else {
            0
        }
    }
}

/// Number of tables in the tree below the level-`l` table `f`, itself included.
pub open spec fn tree_size(t: Tables, f: int, l: int) -> nat
    decreases 3 - l, 513int,
{
    1 + children_size(t, f, l, 512)
}

/// No live table points to `f`.
pub open spec fn unlinked(t: Tables, f: int) -> bool {
    forall|g: int, j: int| #[trigger] t.link(g, j) ==> t.target(t.entry(g, j)) != f
}

/// The live tables of `t` are live tables of `u` with the same contents.
pub open spec fn keeps(t: Tables, u: Tables) -> bool {
    &&& u.base == t.base
    &&& u.n() == t.n()
    &&& forall|g: int| #[trigger]
        t.live(g) ==> u.live(g) && u.levels[g] == t.levels[g] && u.mem[g] == t.mem[g]
}

/// A tree with the mappings of the one below the level-`l` table `f` of `t` now
/// hangs below the fresh table `c`; everything else is as it was.
pub open spec fn cloned(
    t: Tables,
    a: FrameAllocator,
    u: Tables,
    b: FrameAllocator,
    f: int,
    l: int,
    c: int,
) -> bool {
    &&& u.wf()
    &&& backed(u, b)
    &&& b.same_window(a)
    &&& keeps(t, u)
    &&& u.live(c)
    &&& !t.live(c)
    &&& u.levels[c] == l
    &&& unlinked(u, c)
    &&& forall|g: int| #[trigger] u.live(g) && !t.live(g) ==> a.free_set().contains(g)
    &&& forall|g: int, j: int|
        #[trigger] u.link(g, j) && !t.live(g) ==> !t.live(u.target(u.entry(g, j)))
    &&& forall|g: int| 0 <= g < t.n() && !u.live(g) ==> #[trigger] u.mem[g] == t.mem[g]
    &&& forall|g: int| #[trigger]
        b.free_set().contains(g) <==> a.free_set().contains(g) && !u.live(g)
    &&& forall|va: u64| #[trigger] u.leaf_from(c, l, va) == t.leaf_from(f, l, va)
    &&& forall|g: int| #[trigger] in_tree(u, c, l, g) <==> u.live(g) && !t.live(g)
    &&& b.free_set().len() + tree_size(t, f, l) == a.free_set().len()
}

/// The mapping below a table by its entry and the mapping below its child.
proof fn lemma_leaf_step(t: Tables, f: int, l: int, va: u64)
    requires
        0 <= l <= 3,
    ensures
        l < 3 && is_table(t.entry(f, idx(va, l))) ==> t.leaf_from(f, l, va) == t.leaf_from(
            t.target(t.entry(f, idx(va, l))),
            l + 1,
            va,
        ),
        l < 2 && !is_table(t.entry(f, idx(va, l))) ==> t.leaf_from(f, l, va) is None,
        l == 2 && !is_table(t.entry(f, idx(va, 2))) ==> t.leaf_from(f, l, va) == mapping(
            2,
            t.entry(f, idx(va, 2)),
        ),
        l == 3 ==> t.leaf_from(f, l, va) == mapping(3, t.entry(f, idx(va, 3))),
{
    if l < 3 {
        t.lemma_reach_step(f, l, va, 3);
        if l < 2 {
            t.lemma_reach_step(f, l, va, 2);
        }
        assert(t.reach_from(f, 2, va, 2) == Some(f));
        assert(t.reach_from(f, 3, va, 3) == Some(f));
    }
}

/// Kept tables keep their paths and mappings.
pub(crate) proof fn lemma_keeps_leaf(t: Tables, u: Tables, f: int, l: int, va: u64)
    requires
        t.wf(),
        keeps(t, u),
        t.live(f),
        t.levels[f] == l,
    ensures
        u.leaf_from(f, l, va) == t.leaf_from(f, l, va),
    decreases 3 - l,
{
    lemma_leaf_step(t, f, l, va);
    lemma_leaf_step(u, f, l, va);
    assert(u.mem[f] == t.mem[f]);
    if l < 3 && is_table(t.entry(f, idx(va, l))) {
        assert(t.link(f, idx(va, l)));
        lemma_keeps_leaf(t, u, t.target(t.entry(f, idx(va, l))), l + 1, va);
    }
}

/// Kept tables keep their trees.
proof fn lemma_keeps_tree(t: Tables, u: Tables, f: int, l: int, g: int)
    requires
        t.wf(),
        keeps(t, u),
        t.live(f),
        t.levels[f] == l,
    ensures
        in_tree(u, f, l, g) <==> in_tree(t, f, l, g),
    decreases 3 - l,
{
    assert(u.mem[f] == t.mem[f]);
    assert forall|i: int| child(u, f, l, i) == #[trigger] child(t, f, l, i) by {}
    assert forall|i: int| #[trigger] child(t, f, l, i) implies (in_tree(
        u,
        u.target(u.entry(f, i)),
        l + 1,
        g,
    ) <==> in_tree(t, t.target(t.entry(f, i)), l + 1, g)) by {
        assert(t.link(f, i));
        lemma_keeps_tree(t, u, t.target(t.entry(f, i)), l + 1, g);
    }
    if in_tree(u, f, l, g) && g != f {
        let i = choose|i: int|
            #[trigger] child(u, f, l, i) && in_tree(u, u.target(u.entry(f, i)), l + 1, g);
        assert(child(t, f, l, i));
    }
    if in_tree(t, f, l, g) && g != f {
        let i = choose|i: int|
            #[trigger] child(t, f, l, i) && in_tree(t, t.target(t.entry(f, i)), l + 1, g);
        assert(child(u, f, l, i));
    }
}

proof fn lemma_keeps_children(t: Tables, u: Tables, f: int, l: int, n: int)
    requires
        t.wf(),
        keeps(t, u),
        t.live(f),
        t.levels[f] == l,
        n <= 512,
    ensures
        children_size(u, f, l, n) == children_size(t, f, l, n),
    decreases 3 - l, n,
{
    if n > 0 {
        lemma_keeps_children(t, u, f, l, n - 1);
        assert(u.mem[f] == t.mem[f]);
        assert(child(u, f, l, n - 1) == child(t, f, l, n - 1));
        if child(t, f, l, n - 1) {
            assert(t.link(f, n - 1));
            lemma_keeps_size(t, u, t.target(t.entry(f, n - 1)), l + 1);
        }
    }
}

/// Kept tables keep the size of their trees.
proof fn lemma_keeps_size(t: Tables, u: Tables, f: int, l: int)
    requires
        t.wf(),
        keeps(t, u),
        t.live(f),
        t.levels[f] == l,
    ensures
        tree_size(u, f, l) == tree_size(t, f, l),
    decreases 3 - l, 513int,
{
    lemma_keeps_children(t, u, f, l, 512);
}

proof fn lemma_children_mono(t: Tables, f: int, l: int, i: int, n: int)
    requires
        i <= n,
    ensures
        children_size(t, f, l, i) <= children_size(t, f, l, n),
    decreases n - i,
{
    if i < n {
        lemma_children_mono(t, f, l, i, n - 1);
    }
}

/// Tables in a tree are live and below its top.
pub(crate) proof fn lemma_in_tree_live(t: Tables, f: int, l: int, g: int)
    requires
        t.wf(),
        t.live(f),
        t.levels[f] == l,
        in_tree(t, f, l, g),
    ensures
        t.live(g),
        g == f || t.levels[g] > l,
    decreases 3 - l,
{
    if g != f {
        let i = choose|i: int|
            #[trigger] child(t, f, l, i) && in_tree(t, t.target(t.entry(f, i)), l + 1, g);
        assert(t.link(f, i));
        lemma_in_tree_live(t, t.target(t.entry(f, i)), l + 1, g);
    }
}

/// State of a clone of table `f` into frame `c` after `i` words.
spec fn partial(
    t: Tables,
    a: FrameAllocator,
    u: Tables,
    b: FrameAllocator,
    f: int,
    l: int,
    c: int,
    i: int,
) -> bool {
    &&& u.wf()
    &&& backed(u, b)
    &&& b.same_window(a)
    &&& keeps(t, u)
    &&& 0 <= c < t.n()
    &&& !u.live(c)
    &&& a.free_set().contains(c)
    &&& forall|g: int| #[trigger] u.live(g) && !t.live(g) ==> a.free_set().contains(g)
    &&& forall|g: int, j: int|
        #[trigger] u.link(g, j) && !t.live(g) ==> !t.live(u.target(u.entry(g, j)))
    &&& forall|g: int| 0 <= g < t.n() && !u.live(g) && g != c ==> #[trigger] u.mem[g] == t.mem[g]
    &&& forall|g: int| #[trigger]
        b.free_set().contains(g) <==> a.free_set().contains(g) && !u.live(g) && g != c
    &&& forall|j: int| 0 <= j < i ==> #[trigger] copied(t, u, f, l, c, j)
    &&& forall|j: int, k: int|
        0 <= j < k < i && #[trigger] child(t, f, l, j) && #[trigger] child(t, f, l, k)
            ==> u.target(u.entry(c, j)) != u.target(u.entry(c, k))
    &&& forall|g: int| #[trigger]
        u.live(g) && !t.live(g) ==> exists|j: int|
            0 <= j < i && #[trigger] child(t, f, l, j) && in_tree(
                u,
                u.target(u.entry(c, j)),
                l + 1,
                g,
            )
    &&& b.free_set().len() + 1 + children_size(t, f, l, i) == a.free_set().len()
}

/// Word `j` of `c` is the copy of word `j` of `f`: the same word, or a link to
/// a clone of the table it points to.
spec fn copied(t: Tables, u: Tables, f: int, l: int, c: int, j: int) -> bool {
    if child(t, f, l, j) {
        let d = u.target(u.entry(c, j));
        &&& is_table(u.entry(c, j))
        &&& u.live(d)
        &&& !t.live(d)
        &&& u.levels[d] == l + 1
        &&& u.addr(d) == u.entry(c, j) & ADDR_MASK
        &&& unlinked(u, d)
        &&& forall|va: u64| #[trigger]
            u.leaf_from(d, l + 1, va) == t.leaf_from(t.target(t.entry(f, j)), l + 1, va)
        &&& forall|g: int| #[trigger] in_tree(u, d, l + 1, g) ==> !t.live(g)
    } else {
        u.entry(c, j) == t.entry(f, j)
    }
}

/// Writing a word of a frame that is no table.
proof fn lemma_set_dead(u: Tables, c: int, i: int, w: u64)
    requires
        u.wf(),
        0 <= c < u.n(),
        !u.live(c),
        0 <= i < 512,
    ensures
        u.set(c, i, w).wf(),
        keeps(u, u.set(c, i, w)),
        keeps(u.set(c, i, w), u),
        forall|g: int, j: int| u.set(c, i, w).link(g, j) == #[trigger] u.link(g, j),
{
    let v = u.set(c, i, w);
    assert forall|g: int, j: int| v.link(g, j) == #[trigger] u.link(g, j) by {
        if u.live(g) {
            assert(v.mem[g] == u.mem[g]);
        }
    }
    assert forall|g: int, j: int| #[trigger] v.link(g, j) implies u.link(g, j) && v.entry(g, j)
        == u.entry(g, j) by {
        assert(v.link(g, j) == u.link(g, j));
    }
    assert(v.wf_links()) by {
        assert forall|g: int, j: int| #[trigger] v.link(g, j) implies v.live(
            v.target(v.entry(g, j)),
        ) by {
            assert(u.live(u.target(u.entry(g, j))));
        }
        assert forall|g: int, j: int|
            v.live(g) && v.levels[g] < 2 && 0 <= j < 512 && valid(
                #[trigger] v.entry(g, j),
            ) implies is_table(v.entry(g, j)) by {
            assert(u.live(g));
            assert(v.entry(g, j) == u.entry(g, j));
        }
    }
    assert forall|g: int| #[trigger] v.live(g) implies 0 <= g < v.n() && 0 <= v.levels[g] <= 3 by {
        assert(u.live(g));
    }
    assert forall|g: int| #[trigger] v.live(g) implies v.mem[g] == u.mem[g] by {
        assert(u.live(g));
    }
}

/// Copying a word that points to no table.
proof fn lemma_copy_word(
    t: Tables,
    a: FrameAllocator,
    u: Tables,
    b: FrameAllocator,
    f: int,
    l: int,
    c: int,
    i: int,
)
    requires
        t.wf(),
        partial(t, a, u, b, f, l, c, i),
        0 <= i < 512,
        !child(t, f, l, i),
    ensures
        partial(t, a, u.set(c, i, t.entry(f, i)), b, f, l, c, i + 1),
{
    let w = t.entry(f, i);
    let v = u.set(c, i, w);
    lemma_set_dead(u, c, i, w);
    lemma_partial_set(t, a, u, b, f, l, c, i, w);
    assert(copied(t, v, f, l, c, i));
}

/// What writing word `i` of the clone keeps of the words before it.
proof fn lemma_partial_set(
    t: Tables,
    a: FrameAllocator,
    u: Tables,
    b: FrameAllocator,
    f: int,
    l: int,
    c: int,
    i: int,
    w: u64,
)
    requires
        t.wf(),
        partial(t, a, u, b, f, l, c, i),
        0 <= i < 512,
    ensures
        ({
            let v = u.set(c, i, w);
            &&& v.wf()
            &&& backed(v, b)
            &&& keeps(t, v)
            &&& !v.live(c)
            &&& v.entry(c, i) == w
            &&& forall|j: int| 0 <= j < 512 && j != i ==> #[trigger] v.entry(c, j) == u.entry(c, j)
            &&& forall|g: int| #[trigger] v.live(g) && !t.live(g) ==> a.free_set().contains(g)
            &&& forall|g: int, j: int|
                #[trigger] v.link(g, j) && !t.live(g) ==> !t.live(v.target(v.entry(g, j)))
            &&& forall|g: int|
                0 <= g < t.n() && !v.live(g) && g != c ==> #[trigger] v.mem[g] == t.mem[g]
            &&& forall|g: int| #[trigger]
                b.free_set().contains(g) <==> a.free_set().contains(g) && !v.live(g) && g != c
            &&& forall|j: int| 0 <= j < i ==> #[trigger] copied(t, v, f, l, c, j)
            &&& forall|g: int| #[trigger]
                v.live(g) && !t.live(g) ==> exists|j: int|
                    0 <= j < i && #[trigger] child(t, f, l, j) && in_tree(
                        v,
                        v.target(v.entry(c, j)),
                        l + 1,
                        g,
                    )
        }),
{
    let v = u.set(c, i, w);
    lemma_set_dead(u, c, i, w);
    assert(v.mem[c] == u.mem[c].update(i, w));
    assert forall|g: int| #[trigger] t.live(g) implies v.live(g) && v.levels[g] == t.levels[g]
        && v.mem[g] == t.mem[g] by {
        assert(u.live(g));
        assert(v.mem[g] == u.mem[g]);
    }
    assert forall|g: int| #[trigger] v.live(g) implies !b.free_set().contains(g) by {
        assert(u.live(g));
    }
    assert forall|g: int| #[trigger] v.live(g) && !t.live(g) implies a.free_set().contains(g) by {
        assert(u.live(g));
    }
    assert forall|g: int, j: int| #[trigger] v.link(g, j) && !t.live(g) implies !t.live(
        v.target(v.entry(g, j)),
    ) by {
        assert(u.link(g, j));
        assert(v.mem[g] == u.mem[g]);
    }
    assert forall|g: int| 0 <= g < t.n() && !v.live(g) && g != c implies #[trigger] v.mem[g]
        == t.mem[g] by {
        assert(!u.live(g));
        assert(u.mem[g] == t.mem[g]);
    }
    assert forall|g: int| #[trigger] b.free_set().contains(g) <==> a.free_set().contains(g)
        && !v.live(g) && g != c by {
        assert(u.live(g) == v.live(g));
    }
    assert forall|j: int| 0 <= j < i implies #[trigger] copied(t, v, f, l, c, j) by {
        assert(copied(t, u, f, l, c, j));
        if child(t, f, l, j) {
            let d = u.target(u.entry(c, j));
            assert forall|g: int, k: int| #[trigger] v.link(g, k) implies v.target(v.entry(g, k))
                != d by {
                assert(u.link(g, k));
                assert(v.mem[g] == u.mem[g]);
            }
        }
        lemma_copied_keep(t, u, v, f, l, c, j);
    }
    assert forall|g: int| #[trigger] v.live(g) && !t.live(g) implies exists|j: int|
        0 <= j < i && #[trigger] child(t, f, l, j) && in_tree(
            v,
            v.target(v.entry(c, j)),
            l + 1,
            g,
        ) by {
        assert(u.live(g) && !t.live(g));
        let j = choose|j: int|
            0 <= j < i && #[trigger] child(t, f, l, j) && in_tree(
                u,
                u.target(u.entry(c, j)),
                l + 1,
                g,
            );
        assert(copied(t, u, f, l, c, j));
        lemma_keeps_tree(u, v, u.target(u.entry(c, j)), l + 1, g);
        assert(v.entry(c, j) == u.entry(c, j));
        assert(child(t, f, l, j) && in_tree(v, v.target(v.entry(c, j)), l + 1, g));
    }
}

/// A copied word stays copied while tables are kept and nothing links to its
/// clone.
proof fn lemma_copied_keep(t: Tables, u: Tables, v: Tables, f: int, l: int, c: int, j: int)
    requires
        t.wf(),
        u.wf(),
        keeps(u, v),
        keeps(t, u),
        copied(t, u, f, l, c, j),
        v.entry(c, j) == u.entry(c, j),
        child(t, f, l, j) ==> unlinked(v, u.target(u.entry(c, j))),
    ensures
        copied(t, v, f, l, c, j),
{
    if child(t, f, l, j) {
        let d = u.target(u.entry(c, j));
        assert forall|va: u64| #[trigger] v.leaf_from(d, l + 1, va) == t.leaf_from(
            t.target(t.entry(f, j)),
            l + 1,
            va,
        ) by {
            lemma_keeps_leaf(u, v, d, l + 1, va);
            assert(u.leaf_from(d, l + 1, va) == t.leaf_from(t.target(t.entry(f, j)), l + 1, va));
        }
        assert forall|g: int| #[trigger] in_tree(v, d, l + 1, g) implies !t.live(g) by {
            lemma_keeps_tree(u, v, d, l + 1, g);
            assert(in_tree(u, d, l + 1, g));
        }
    }
}

/// Copying a word that points to a table, once that table has been cloned.
#[verifier::rlimit(40)]
proof fn lemma_copy_child(
    t: Tables,
    a: FrameAllocator,
    u: Tables,
    b: FrameAllocator,
    v: Tables,
    b2: FrameAllocator,
    f: int,
    l: int,
    c: int,
    i: int,
    d: int,
)
    requires
        t.wf(),
        t.live(f),
        t.levels[f] == l,
        partial(t, a, u, b, f, l, c, i),
        0 <= i < 512,
        child(t, f, l, i),
        cloned(u, b, v, b2, t.target(t.entry(f, i)), l + 1, d),
    ensures
        partial(t, a, v.set(c, i, (v.addr(d) as u64) | 1 | 2), b2, f, l, c, i + 1),
{
    let w = (v.addr(d) as u64) | 1 | 2;
    let x = v.set(c, i, w);
    let src = t.target(t.entry(f, i));
    assert(t.link(f, i));
    assert(!v.live(c)) by {
        if v.live(c) {
            assert(b.free_set().contains(c));
        }
    }
    lemma_set_dead(v, c, i, w);
    lemma_desc(v.addr(d) as u64, 0, 0);
    assert(x.mem[c] == v.mem[c].update(i, w));
    assert(v.mem[c] == u.mem[c]);
    assert(x.target(w) == d);
    assert forall|g: int| #[trigger] u.live(g) implies x.live(g) && x.levels[g] == u.levels[g]
        && x.mem[g] == u.mem[g] by {
        assert(v.live(g));
    }
    assert(keeps(u, x));
    assert forall|g: int| #[trigger] t.live(g) implies x.live(g) && x.levels[g] == t.levels[g]
        && x.mem[g] == t.mem[g] by {
        assert(u.live(g));
    }
    assert forall|g: int| #[trigger] x.live(g) implies !b2.free_set().contains(g) by {
        assert(v.live(g));
    }
    assert forall|g: int| #[trigger] x.live(g) && !t.live(g) implies a.free_set().contains(g) by {
        assert(v.live(g));
        if !u.live(g) {
            assert(b.free_set().contains(g));
        }
    }
    assert forall|g: int, j: int| #[trigger] x.link(g, j) implies v.link(g, j) && x.entry(g, j)
        == v.entry(g, j) by {
        assert(x.link(g, j) == v.link(g, j));
        assert(x.mem[g] == v.mem[g]);
    }
    assert forall|g: int, j: int| #[trigger] x.link(g, j) && u.live(g) implies u.link(g, j)
        && x.entry(g, j) == u.entry(g, j) by {
        assert(x.mem[g] == u.mem[g]);
    }
    assert forall|g: int, j: int| #[trigger] x.link(g, j) && !t.live(g) implies !t.live(
        x.target(x.entry(g, j)),
    ) by {
        assert(v.link(g, j));
        if u.live(g) {
            assert(u.link(g, j));
        } else {
            assert(!u.live(v.target(v.entry(g, j))));
            if t.live(v.target(v.entry(g, j))) {
                assert(u.live(v.target(v.entry(g, j))));
            }
        }
    }
    assert forall|g: int| 0 <= g < t.n() && !x.live(g) && g != c implies #[trigger] x.mem[g]
        == t.mem[g] by {
        assert(!v.live(g));
        assert(v.mem[g] == u.mem[g]);
        assert(!u.live(g));
        assert(u.mem[g] == t.mem[g]);
    }
    assert forall|g: int| #[trigger] b2.free_set().contains(g) <==> a.free_set().contains(g)
        && !x.live(g) && g != c by {
        assert(b.free_set().contains(g) <==> a.free_set().contains(g) && !u.live(g) && g != c);
        assert(x.live(g) == v.live(g));
        if u.live(g) {
            assert(v.live(g));
        }
    }
    assert forall|j: int| 0 <= j < i implies #[trigger] copied(t, x, f, l, c, j) by {
        assert(copied(t, u, f, l, c, j));
        if child(t, f, l, j) {
            let dj = u.target(u.entry(c, j));
            assert forall|g: int, k: int| #[trigger] x.link(g, k) implies x.target(x.entry(g, k))
                != dj by {
                assert(v.link(g, k));
                if u.live(g) {
                    assert(u.link(g, k));
                } else {
                    assert(!u.live(v.target(v.entry(g, k))));
                }
            }
        }
        lemma_copied_keep(t, u, x, f, l, c, j);
    }
    assert(copied(t, x, f, l, c, i)) by {
        assert forall|g: int, k: int| #[trigger] x.link(g, k) implies x.target(x.entry(g, k))
            != d by {
            assert(v.link(g, k));
        }
        assert forall|va: u64| #[trigger] x.leaf_from(d, l + 1, va) == t.leaf_from(
            src,
            l + 1,
            va,
        ) by {
            lemma_keeps_leaf(v, x, d, l + 1, va);
            assert(v.leaf_from(d, l + 1, va) == u.leaf_from(src, l + 1, va));
            lemma_keeps_leaf(t, u, src, l + 1, va);
        }
        assert forall|g: int| #[trigger] in_tree(x, d, l + 1, g) implies !t.live(g) by {
            lemma_keeps_tree(v, x, d, l + 1, g);
            assert(in_tree(v, d, l + 1, g));
            if t.live(g) {
                assert(u.live(g));
            }
        }
        assert(t.live(d) ==> u.live(d));
    }
    assert forall|j: int, k: int|
        0 <= j < k < i + 1 && #[trigger] child(t, f, l, j) && #[trigger] child(
            t,
            f,
            l,
            k,
        ) implies x.target(x.entry(c, j)) != x.target(x.entry(c, k)) by {
        assert(copied(t, u, f, l, c, j));
        assert(x.entry(c, j) == u.entry(c, j));
        if k < i {
            assert(x.entry(c, k) == u.entry(c, k));
        } else {
            assert(x.entry(c, k) == w);
        }
    }
    assert forall|g: int| #[trigger] x.live(g) && !t.live(g) implies exists|j: int|
        0 <= j < i + 1 && #[trigger] child(t, f, l, j) && in_tree(
            x,
            x.target(x.entry(c, j)),
            l + 1,
            g,
        ) by {
        if u.live(g) {
            let j = choose|j: int|
                0 <= j < i && #[trigger] child(t, f, l, j) && in_tree(
                    u,
                    u.target(u.entry(c, j)),
                    l + 1,
                    g,
                );
            assert(copied(t, u, f, l, c, j));
            lemma_keeps_tree(u, x, u.target(u.entry(c, j)), l + 1, g);
            assert(x.entry(c, j) == u.entry(c, j));
            assert(child(t, f, l, j) && in_tree(x, x.target(x.entry(c, j)), l + 1, g));
        } else {
            assert(v.live(g));
            assert(in_tree(v, d, l + 1, g));
            lemma_keeps_tree(v, x, d, l + 1, g);
            assert(x.entry(c, i) == w);
            assert(child(t, f, l, i) && in_tree(x, x.target(x.entry(c, i)), l + 1, g));
        }
    }
    lemma_keeps_size(t, u, src, l + 1);
}

/// Once all words are copied, the frame becomes a table.
#[verifier::rlimit(40)]
proof fn lemma_finish_clone(
    t: Tables,
    a: FrameAllocator,
    u: Tables,
    b: FrameAllocator,
    f: int,
    l: int,
    c: int,
)
    requires
        t.wf(),
        t.live(f),
        t.levels[f] == l,
        partial(t, a, u, b, f, l, c, 512),
    ensures
        cloned(t, a, u.put_table(c, l, u.mem[c]), b, f, l, c),
{
    let v = u.put_table(c, l, u.mem[c]);
    assert(v.mem =~= u.mem);
    assert forall|g: int, j: int| #[trigger] v.link(g, j) implies if g == c {
        child(t, f, l, j) && copied(t, u, f, l, c, j)
    } else {
        u.link(g, j)
    } by {
        if g == c {
            assert(copied(t, u, f, l, c, j));
        }
    }
    assert forall|g: int| #[trigger] v.live(g) implies 0 <= g < v.n() && 0 <= v.levels[g] <= 3 by {
        assert(g == c || u.live(g));
    }
    assert(v.wf_links()) by {
        assert forall|g: int, j: int| #[trigger] v.link(g, j) implies {
            let d = v.target(v.entry(g, j));
            &&& v.live(d)
            &&& v.levels[d] == v.levels[g] + 1
            &&& v.addr(d) == v.entry(g, j) & ADDR_MASK
        } by {
            if g != c {
                assert(u.link(g, j));
                assert(u.live(u.target(u.entry(g, j))));
            }
        }
        assert forall|g: int, j: int|
            v.live(g) && v.levels[g] < 2 && 0 <= j < 512 && valid(
                #[trigger] v.entry(g, j),
            ) implies is_table(v.entry(g, j)) by {
            if g == c {
                assert(copied(t, u, f, l, c, j));
                if !child(t, f, l, j) {
                    assert(t.entry(f, j) == v.entry(g, j));
                }
            } else {
                assert(u.live(g));
                assert(u.entry(g, j) == v.entry(g, j));
            }
        }
    }
    assert(v.wf_unique()) by {
        assert forall|g: int, i: int, h: int, j: int|
            #![trigger v.link(g, i), v.link(h, j)]
            v.link(g, i) && v.link(h, j) && v.target(v.entry(g, i)) == v.target(
                v.entry(h, j),
            ) implies g == h && i == j by {
            if g == c && h == c {
                if i < j {
                    assert(child(t, f, l, i) && child(t, f, l, j));
                } else if j < i {
                    assert(child(t, f, l, j) && child(t, f, l, i));
                }
            } else if g == c {
                assert(u.link(h, j));
            } else if h == c {
                assert(u.link(g, i));
            } else {
                assert(u.link(g, i) && u.link(h, j));
            }
        }
    }
    assert forall|g: int| #[trigger] v.live(g) implies !b.free_set().contains(g) by {
        assert(g == c || u.live(g));
    }
    assert(!t.live(c)) by {
        if t.live(c) {
            assert(u.live(c));
        }
    }
    assert forall|g: int| #[trigger] t.live(g) implies v.live(g) && v.levels[g] == t.levels[g]
        && v.mem[g] == t.mem[g] by {
        assert(u.live(g));
    }
    assert forall|g: int, j: int| #[trigger] v.link(g, j) implies v.target(v.entry(g, j)) != c by {
        if g == c {
            assert(u.live(u.target(u.entry(c, j))));
        } else {
            assert(u.link(g, j));
            assert(u.live(u.target(u.entry(g, j))));
        }
    }
    assert forall|g: int| #[trigger] v.live(g) && !t.live(g) implies a.free_set().contains(g) by {
        assert(g == c || u.live(g));
    }
    assert forall|g: int, j: int| #[trigger] v.link(g, j) && !t.live(g) implies !t.live(
        v.target(v.entry(g, j)),
    ) by {
        if g != c {
            assert(u.link(g, j));
        }
    }
    assert forall|g: int| 0 <= g < t.n() && !v.live(g) implies #[trigger] v.mem[g] == t.mem[g] by {
        assert(!u.live(g) && g != c);
        assert(u.mem[g] == t.mem[g]);
    }
    assert forall|g: int| #[trigger] b.free_set().contains(g) <==> a.free_set().contains(g)
        && !v.live(g) by {
        assert(v.live(g) <==> g == c || u.live(g));
    }
    assert forall|va: u64| #[trigger] v.leaf_from(c, l, va) == t.leaf_from(f, l, va) by {
        let j = idx(va, l);
        assert(0 <= j < 512);
        lemma_leaf_step(v, c, l, va);
        lemma_leaf_step(t, f, l, va);
        assert(copied(t, u, f, l, c, j));
        if child(t, f, l, j) {
            let d = u.target(u.entry(c, j));
            lemma_keeps_leaf(u, v, d, l + 1, va);
            assert(u.leaf_from(d, l + 1, va) == t.leaf_from(t.target(t.entry(f, j)), l + 1, va));
        }
    }
    assert forall|g: int| #[trigger] in_tree(v, c, l, g) <==> v.live(g) && !t.live(g) by {
        if in_tree(v, c, l, g) && g != c {
            let j = choose|j: int|
                #[trigger] child(v, c, l, j) && in_tree(v, v.target(v.entry(c, j)), l + 1, g);
            assert(v.link(c, j));
            let d = u.target(u.entry(c, j));
            lemma_keeps_tree(u, v, d, l + 1, g);
            assert(in_tree(u, d, l + 1, g));
            lemma_in_tree_live(u, d, l + 1, g);
        }
        if v.live(g) && !t.live(g) && g != c {
            assert(u.live(g));
            let j = choose|j: int|
                0 <= j < 512 && #[trigger] child(t, f, l, j) && in_tree(
                    u,
                    u.target(u.entry(c, j)),
                    l + 1,
                    g,
                );
            assert(copied(t, u, f, l, c, j));
            lemma_keeps_tree(u, v, u.target(u.entry(c, j)), l + 1, g);
            assert(child(v, c, l, j));
        }
    }
}

/// Clone the tree below the level-`level` table at `src` into fresh frames.
///
/// Every table descriptor gets a cloned table; block and page descriptors and
/// empty entries are copied as they are.
fn clone_level(
    space: &mut TableSpace,
    frames: &mut FrameAllocator,
    src: PhysAddr,
    level: usize,
) -> (r: PhysAddr)
    requires
        old(space)@.wf(),
        old(space).backed(*old(frames)),
        old(space)@.has_frame(src as int),
        old(space)@.live(old(space)@.frame(src as int)),
        level <= 3,
        old(space)@.levels[old(space)@.frame(src as int)] == level,
        tree_size(old(space)@, old(space)@.frame(src as int), level as int) <= old(
            frames).free_set().len(),
    ensures
        final(space).kernel_root() == old(space).kernel_root(),
        final(space)@.has_frame(r as int),
        r == final(space)@.addr(final(space)@.frame(r as int)),
        cloned(
            old(space)@,
            *old(frames),
            final(space)@,
            *final(frames),
            old(space)@.frame(src as int),
            level as int,
            old(space)@.frame(r as int),
        ),
    decreases 3 - level,
{
    let ghost t = space@;
    let ghost a = *frames;
    let ghost f = t.frame(src as int);
    let ghost l = level as int;
    let dst: PhysAddr = alloc_table(frames);
    let ghost c = t.frame(dst as int);
    proof {
        a.lemma_window();
        frames.lemma_window();
        assert(c == a.frame_of(dst as int));
        assert(children_size(t, f, l, 0) == 0);
        assert(partial(t, a, t, *frames, f, l, c, 0));
    }
    let mut i: usize = 0;
    while i < 512
        invariant
            i <= 512,
            level <= 3,
            l == level,
            t == old(space)@,
            a == *old(frames),
            f == t.frame(src as int),
            c == t.frame(dst as int),
            dst == t.addr(c),
            t.has_frame(src as int),
            t.has_frame(dst as int),
            t.wf(),
            t.live(f),
            t.levels[f] == l,
            tree_size(t, f, l) <= a.free_set().len(),
            space.kernel_root() == old(space).kernel_root(),
            partial(t, a, space@, *frames, f, l, c, i as int),
        decreases 512 - i,
    {
        let ghost u = space@;
        let ghost b = *frames;
        proof {
            assert(u.live(f));
            assert(u.mem[f] == t.mem[f]);
        }
        let e: u64 = space.read(src, i);
        if e & DESC_VALID != 0 && e & DESC_TABLE != 0 && level < 3 {
            let child_src: PhysAddr = e & ADDR_MASK;
            proof {
                assert(child(t, f, l, i as int));
                assert(t.link(f, i as int));
                let s = t.target(e);
                assert(t.live(s));
                assert(u.live(s));
                lemma_keeps_size(t, u, s, l + 1);
                lemma_children_mono(t, f, l, i + 1, 512);
            }
            let child_phys: PhysAddr = clone_level(space, frames, child_src, level + 1);
            proof {
                lemma_copy_child(
                    t,
                    a,
                    u,
                    b,
                    space@,
                    *frames,
                    f,
                    l,
                    c,
                    i as int,
                    t.frame(child_phys as int),
                );
            }
            space.write(dst, i, child_phys | DESC_VALID | DESC_TABLE);
        } else {
            proof {
                lemma_copy_word(t, a, u, b, f, l, c, i as int);
            }
            space.write(dst, i, e);
        }
        i = i + 1;
    }
    proof {
        lemma_finish_clone(t, a, space@, *frames, f, l, c);
    }
    space.adopt(dst, level as u8);
    dst
}

/// Largest number of tables in a tree below a level-`l` table.
pub open spec fn tree_bound(l: int) -> int {
    if l <= 0 {
        0x804_0201
    } else if l == 1 {
        0x4_0201
    } else if l == 2 {
        0x201
    } else {
        1
    }
}

fn count_level(space: &TableSpace, table: PhysAddr, l: usize) -> (n: u64)
    requires
        space.wf(),
        space@.has_frame(table as int),
        space@.live(space@.frame(table as int)),
        space@.levels[space@.frame(table as int)] == l,
        l <= 3,
    ensures
        n == tree_size(space@, space@.frame(table as int), l as int),
        n <= tree_bound(l as int),
    decreases 3 - l,
{
    let ghost t = space@;
    let ghost f = t.frame(table as int);
    let mut n: u64 = 1;
    let mut i: usize = 0;
    while i < 512
        invariant
            i <= 512,
            l <= 3,
            space.wf(),
            t == space@,
            t.has_frame(table as int),
            f == t.frame(table as int),
            t.live(f),
            t.levels[f] == l,
            n == 1 + children_size(t, f, l as int, i as int),
            n <= 1 + i * tree_bound(l + 1),
            l == 3 ==> n == 1,
        decreases 512 - i,
    {
        let e: u64 = space.read(table, i);
        if l < 3 && e & DESC_VALID != 0 && e & DESC_TABLE != 0 {
            proof {
                assert(t.link(f, i as int));
            }
            let c: u64 = e & ADDR_MASK;
            proof {
                let ct = t.target(e);
                assert(t.live(ct));
                assert(t.addr(ct) == c);
            }
            n = n + count_level(space, c, l + 1);
        }
        proof {
            let b = tree_bound(l + 1);
            assert((i + 1) * b == i * b + b) by (nonlinear_arith);
        }
        i = i + 1;
    }
    n
}

/// Number of tables that [`clone_kernel_table`] takes.
pub fn kernel_table_count(space: &TableSpace) -> (n: u64)
    requires
        space.wf(),
    ensures
        n == tree_size(space@, space@.frame(space.kernel_root()), 0),
{
    count_level(space, kernel_l0_phys(space), 0)
}

/// Clone the kernel's map into a fresh set of tables and return its root.
///
/// The new root maps every address as the kernel's root does.
pub fn clone_kernel_table(space: &mut TableSpace, frames: &mut FrameAllocator) -> (root: PhysAddr)
    requires
        old(space).wf(),
        old(space).backed(*old(frames)),
        tree_size(old(space)@, old(space)@.frame(old(space).kernel_root()), 0) <= old(
            frames).free_set().len(),
    ensures
        final(space).wf(),
        final(space).kernel_root() == old(space).kernel_root(),
        final(space)@.is_root(root as int),
        cloned(
            old(space)@,
            *old(frames),
            final(space)@,
            *final(frames),
            old(space)@.frame(old(space).kernel_root()),
            0,
            old(space)@.frame(root as int),
        ),
        forall|va: u64| #[trigger]
            final(space)@.leaf(root as int, va) == old(space)@.leaf(old(space).kernel_root(), va),
        forall|g: int, va: u64|
            old(space)@.live(g) && old(space)@.levels[g] == 0 ==> #[trigger] final(
                space)@.leaf_from(g, 0, va) == old(space)@.leaf_from(g, 0, va),
{
    let k: PhysAddr = kernel_l0_phys(space);
    let ghost t = space@;
    let root: PhysAddr = clone_level(space, frames, k, 0);
    proof {
        let u = space@;
        assert(u.live(u.frame(k as int)));
        assert forall|va: u64| #[trigger] u.leaf(root as int, va) == t.leaf(k as int, va) by {
            assert(u.leaf_from(u.frame(root as int), 0, va) == t.leaf_from(
                t.frame(k as int),
                0,
                va,
            ));
        }
        assert forall|g: int, va: u64| t.live(g) && t.levels[g] == 0 implies #[trigger] u.leaf_from(
            g,
            0,
            va,
        ) == t.leaf_from(g, 0, va) by {
            lemma_keeps_leaf(t, u, g, 0, va);
        }
    }
    root
}

/// The tree below the level-`l` table `f` of `t` is gone: its tables are free
/// frames; every frame keeps its contents.
pub open spec fn freed(
    t: Tables,
    a: FrameAllocator,
    u: Tables,
    b: FrameAllocator,
    f: int,
    l: int,
) -> bool {
    &&& u.wf()
    &&& backed(u, b)
    &&& b.same_window(a)
    &&& u.base == t.base
    &&& u.mem == t.mem
    &&& forall|g: int| #[trigger] u.live(g) <==> t.live(g) && !in_tree(t, f, l, g)
    &&& forall|g: int| #[trigger] u.live(g) ==> u.levels[g] == t.levels[g]
    &&& forall|g: int| #[trigger]
        b.free_set().contains(g) <==> a.free_set().contains(g) || in_tree(t, f, l, g)
}

/// Some of the first `i` words of `f` has table `g` below it.
spec fn below(t: Tables, f: int, l: int, i: int, g: int) -> bool {
    exists|j: int|
        0 <= j < i && #[trigger] child(t, f, l, j) && in_tree(
            t,
            t.target(t.entry(f, j)),
            l + 1,
            g,
        )
}

/// What a tree holds depends on the contents of memory alone.
proof fn lemma_tree_mem(t: Tables, u: Tables, f: int, l: int, g: int)
    requires
        u.base == t.base,
        u.mem == t.mem,
    ensures
        in_tree(u, f, l, g) == in_tree(t, f, l, g),
    decreases 3 - l,
{
    if l < 3 {
        assert forall|i: int| #[trigger] child(t, f, l, i) implies in_tree(
            u,
            u.target(u.entry(f, i)),
            l + 1,
            g,
        ) == in_tree(t, t.target(t.entry(f, i)), l + 1, g) by {
            lemma_tree_mem(t, u, t.target(t.entry(f, i)), l + 1, g);
        }
        if in_tree(u, f, l, g) && g != f {
            let i = choose|i: int|
                #[trigger] child(u, f, l, i) && in_tree(u, u.target(u.entry(f, i)), l + 1, g);
            assert(child(t, f, l, i));
        }
        if in_tree(t, f, l, g) && g != f {
            let i = choose|i: int|
                #[trigger] child(t, f, l, i) && in_tree(t, t.target(t.entry(f, i)), l + 1, g);
            assert(child(u, f, l, i));
        }
    }
}

/// The tables below the first `i` words of `f`, and `f` itself, are gone.
spec fn part_freed(
    t: Tables,
    a: FrameAllocator,
    u: Tables,
    b: FrameAllocator,
    f: int,
    l: int,
    i: int,
) -> bool {
    &&& u.wf()
    &&& backed(u, b)
    &&& b.same_window(a)
    &&& u.base == t.base
    &&& u.mem == t.mem
    &&& forall|g: int| #[trigger] u.live(g) <==> t.live(g) && g != f && !below(t, f, l, i, g)
    &&& forall|g: int| #[trigger] u.live(g) ==> u.levels[g] == t.levels[g]
    &&& forall|g: int| #[trigger]
        b.free_set().contains(g) <==> a.free_set().contains(g) || below(t, f, l, i, g)
}

proof fn lemma_free_start(t: Tables, a: FrameAllocator, f: int, l: int)
    requires
        t.wf(),
        backed(t, a),
        t.live(f),
        t.levels[f] == l,
        unlinked(t, f),
    ensures
        part_freed(t, a, (Tables { levels: t.levels.remove(f), ..t }), a, f, l, 0),
{
    let u = Tables { levels: t.levels.remove(f), ..t };
    assert forall|g: int| #[trigger] u.live(g) implies t.live(g) && g != f by {}
    assert forall|g: int, j: int| #[trigger] u.link(g, j) implies t.link(g, j) && u.live(
        u.target(u.entry(g, j)),
    ) by {
        assert(t.live(g));
        assert(t.link(g, j));
        assert(t.live(t.target(t.entry(g, j))));
    }
    assert forall|g: int, j: int|
        u.live(g) && u.levels[g] < 2 && 0 <= j < 512 && valid(#[trigger] u.entry(g, j)) implies
        is_table(u.entry(g, j)) by {
        assert(t.live(g));
        assert(t.entry(g, j) == u.entry(g, j));
    }
    assert forall|g: int| !#[trigger] below(t, f, l, 0, g) by {}
}

proof fn lemma_free_child(
    t: Tables,
    a: FrameAllocator,
    u: Tables,
    b: FrameAllocator,
    f: int,
    l: int,
    i: int,
)
    requires
        t.wf(),
        t.live(f),
        t.levels[f] == l,
        part_freed(t, a, u, b, f, l, i),
        child(t, f, l, i),
        0 <= i,
    ensures
        u.live(t.target(t.entry(f, i))),
        u.levels[t.target(t.entry(f, i))] == l + 1,
        unlinked(u, t.target(t.entry(f, i))),
{
    let d = t.target(t.entry(f, i));
    assert(t.link(f, i));
    assert(t.live(d));
    if below(t, f, l, i, d) {
        let j = choose|j: int|
            0 <= j < i && #[trigger] child(t, f, l, j) && in_tree(
                t,
                t.target(t.entry(f, j)),
                l + 1,
                d,
            );
        assert(t.link(f, j));
        lemma_in_tree_live(t, t.target(t.entry(f, j)), l + 1, d);
    }
    assert(u.live(d));
    assert forall|g: int, j: int| #[trigger] u.link(g, j) implies u.target(u.entry(g, j)) != d by {
        assert(u.live(g));
        assert(t.link(g, j));
    }
}

proof fn lemma_free_next(
    t: Tables,
    a: FrameAllocator,
    u: Tables,
    b: FrameAllocator,
    v: Tables,
    b2: FrameAllocator,
    f: int,
    l: int,
    i: int,
)
    requires
        part_freed(t, a, u, b, f, l, i),
        0 <= i,
        child(t, f, l, i) ==> freed(u, b, v, b2, t.target(t.entry(f, i)), l + 1),
        !child(t, f, l, i) ==> v == u && b2 == b,
    ensures
        part_freed(t, a, v, b2, f, l, i + 1),
{
    assert forall|g: int| #[trigger] below(t, f, l, i + 1, g) <==> below(t, f, l, i, g) || (child(
        t,
        f,
        l,
        i,
    ) && in_tree(t, t.target(t.entry(f, i)), l + 1, g)) by {
        if below(t, f, l, i, g) {
            let j = choose|j: int|
                0 <= j < i && #[trigger] child(t, f, l, j) && in_tree(
                    t,
                    t.target(t.entry(f, j)),
                    l + 1,
                    g,
                );
            assert(0 <= j < i + 1 && child(t, f, l, j));
        }
        if below(t, f, l, i + 1, g) {
            let j = choose|j: int|
                0 <= j < i + 1 && #[trigger] child(t, f, l, j) && in_tree(
                    t,
                    t.target(t.entry(f, j)),
                    l + 1,
                    g,
                );
            if j < i {
                assert(0 <= j < i && child(t, f, l, j));
            }
        }
    }
    if child(t, f, l, i) {
        let d = t.target(t.entry(f, i));
        assert forall|g: int| #[trigger] in_tree(u, d, l + 1, g) == in_tree(t, d, l + 1, g) by {
            lemma_tree_mem(t, u, d, l + 1, g);
        }
        assert forall|g: int| #[trigger] v.live(g) <==> t.live(g) && g != f && !below(
            t,
            f,
            l,
            i + 1,
            g,
        ) by {
            assert(u.live(g) <==> t.live(g) && g != f && !below(t, f, l, i, g));
            assert(in_tree(u, d, l + 1, g) == in_tree(t, d, l + 1, g));
        }
        assert forall|g: int| #[trigger] v.live(g) implies v.levels[g] == t.levels[g] by {
            assert(u.live(g));
        }
        assert forall|g: int| #[trigger] b2.free_set().contains(g) <==> a.free_set().contains(g)
            || below(t, f, l, i + 1, g) by {
            assert(b.free_set().contains(g) <==> a.free_set().contains(g) || below(t, f, l, i, g));
            assert(in_tree(u, d, l + 1, g) == in_tree(t, d, l + 1, g));
        }
    }
}

/// Free the tree below the level-`level` table at `table`.
fn free_level(
    space: &mut TableSpace,
    frames: &mut FrameAllocator,
    table: PhysAddr,
    level: usize,
)
    requires
        old(space)@.wf(),
        old(space).backed(*old(frames)),
        old(space)@.has_frame(table as int),
        table % 4096 == 0,
        old(space)@.live(old(space)@.frame(table as int)),
        level <= 3,
        old(space)@.levels[old(space)@.frame(table as int)] == level,
        unlinked(old(space)@, old(space)@.frame(table as int)),
    ensures
        final(space).kernel_root() == old(space).kernel_root(),
        freed(
            old(space)@,
            *old(frames),
            final(space)@,
            *final(frames),
            old(space)@.frame(table as int),
            level as int,
        ),
    decreases 3 - level,
{
    let ghost t = space@;
    let ghost a = *frames;
    let ghost f = t.frame(table as int);
    let ghost l = level as int;
    proof {
        lemma_free_start(t, a, f, l);
    }
    space.drop_table(table);
    let mut i: usize = 0;
    while i < 512
        invariant
            i <= 512,
            level <= 3,
            l == level,
            t == old(space)@,
            a == *old(frames),
            f == t.frame(table as int),
            t.has_frame(table as int),
            t.wf(),
            t.live(f),
            t.levels[f] == l,
            space.kernel_root() == old(space).kernel_root(),
            part_freed(t, a, space@, *frames, f, l, i as int),
        decreases 512 - i,
    {
        let ghost u = space@;
        let ghost b = *frames;
        let e: u64 = space.read(table, i);
        if level < 3 && e & DESC_VALID != 0 && e & DESC_TABLE != 0 {
            let next: PhysAddr = e & ADDR_MASK;
            proof {
                assert(child(t, f, l, i as int));
                assert(t.link(f, i as int));
                lemma_free_child(t, a, u, b, f, l, i as int);
            }
            free_level(space, frames, next, level + 1);
        }
        proof {
            lemma_free_next(t, a, u, b, space@, *frames, f, l, i as int);
        }
        i = i + 1;
    }
    let ghost u = space@;
    let ghost b = *frames;
    proof {
        b.lemma_window();
    }
    frames.free(table);
    proof {
        assert forall|g: int| #[trigger] in_tree(t, f, l, g) <==> g == f || below(t, f, l, 512, g) by {
            if in_tree(t, f, l, g) && g != f {
                let j = choose|j: int|
                    #[trigger] child(t, f, l, j) && in_tree(t, t.target(t.entry(f, j)), l + 1, g);
                assert(0 <= j < 512 && child(t, f, l, j));
            }
            if below(t, f, l, 512, g) {
                let j = choose|j: int|
                    0 <= j < 512 && #[trigger] child(t, f, l, j) && in_tree(
                        t,
                        t.target(t.entry(f, j)),
                        l + 1,
                        g,
                    );
                assert(child(t, f, l, j));
            }
        }
        assert(frames.free_set() == b.free_set().insert(f));
        assert forall|g: int| #[trigger] frames.free_set().contains(g) <==> a.free_set().contains(g)
            || in_tree(t, f, l, g) by {
            assert(b.free_set().contains(g) <==> a.free_set().contains(g) || below(
                t,
                f,
                l,
                512,
                g,
            ));
        }
    }
}

/// Free every table of a task's tree (not the memory its descriptors point
/// to), so that the frames return to the allocator.
pub fn free_task_tables(space: &mut TableSpace, frames: &mut FrameAllocator, root: PhysAddr)
    requires
        old(space).wf(),
        old(space).backed(*old(frames)),
        old(space)@.is_root(root as int),
        root != old(space).kernel_root(),
    ensures
        final(space).wf(),
        final(space).kernel_root() == old(space).kernel_root(),
        freed(
            old(space)@,
            *old(frames),
            final(space)@,
            *final(frames),
            old(space)@.frame(root as int),
            0,
        ),
        forall|g: int, va: u64| #[trigger]
            final(space)@.leaf_from(g, 0, va) == old(space)@.leaf_from(g, 0, va),
{
    let ghost t = space@;
    let ghost f = t.frame(root as int);
    proof {
        assert forall|g: int, j: int| #[trigger] t.link(g, j) implies t.target(t.entry(g, j))
            != f by {}
    }
    free_level(space, frames, root, 0);
    proof {
        let u = space@;
        let k = t.frame(space.kernel_root());
        if in_tree(t, f, 0, k) {
            lemma_in_tree_live(t, f, 0, k);
            assert(false);
        }
        assert(u.live(k));
        assert forall|g: int, va: u64| #[trigger] u.leaf_from(g, 0, va) == t.leaf_from(
            g,
            0,
            va,
        ) by {
            lemma_reach_mem(t, u, g, 0, va, 2);
            lemma_reach_mem(t, u, g, 0, va, 3);
        }
    }
}

/// Paths depend on the contents of memory alone.
proof fn lemma_reach_mem(t: Tables, u: Tables, f: int, m: int, va: u64, l: int)
    requires
        u.base == t.base,
        u.mem == t.mem,
    ensures
        u.reach_from(f, m, va, l) == t.reach_from(f, m, va, l),
    decreases l - m,
{
    if l > m {
        lemma_reach_mem(t, u, f, m, va, l - 1);
    }
}

/// Freeing a cloned address space gives back exactly the frames that the clone
/// took, and leaves the tables that were there before.
pub proof fn law_free_undoes_clone(
    t: Tables,
    a: FrameAllocator,
    u: Tables,
    b: FrameAllocator,
    v: Tables,
    c: FrameAllocator,
    f: int,
    root: int,
)
    requires
        t.wf(),
        backed(t, a),
        cloned(t, a, u, b, f, 0, root),
        freed(u, b, v, c, root, 0),
    ensures
        c.free_set() == a.free_set(),
        v.levels.dom() == t.levels.dom(),
        forall|g: int| #[trigger] t.live(g) ==> v.mem[g] == t.mem[g],
{
    assert forall|g: int| c.free_set().contains(g) <==> a.free_set().contains(g) by {
        assert(c.free_set().contains(g) <==> b.free_set().contains(g) || in_tree(u, root, 0, g));
        assert(in_tree(u, root, 0, g) <==> u.live(g) && !t.live(g));
        assert(b.free_set().contains(g) <==> a.free_set().contains(g) && !u.live(g));
        if a.free_set().contains(g) {
            assert(!t.live(g));
        }
    }
    assert(c.free_set() =~= a.free_set());
    assert forall|g: int| v.live(g) <==> t.live(g) by {
        assert(v.live(g) <==> u.live(g) && !in_tree(u, root, 0, g));
        assert(in_tree(u, root, 0, g) <==> u.live(g) && !t.live(g));
        if t.live(g) {
            assert(u.live(g));
        }
    }
    assert(v.levels.dom() =~= t.levels.dom()) by {
        assert forall|g: int| v.levels.dom().contains(g) <==> t.levels.dom().contains(g) by {
            assert(v.live(g) <==> t.live(g));
        }
    }
}

} // verus!
