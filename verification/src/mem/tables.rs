//! Mathematical model of the translation tables in memory.
//!
//! Memory is a sequence of frames of 512 words.  Some frames are live tables;
//! each has a level, and every table descriptor in a live table points to a
//! live table one level down, so that no table hangs from two places.

use vstd::prelude::*;

verus! {

/// Bits [47:12] of a descriptor: the output address.
pub const ADDR_MASK: u64 = 0x0000_FFFF_FFFF_F000;

/// The frames of a DRAM window and the translation tables among them.
#[verifier::ext_equal]
pub struct Tables {
    /// Address of frame 0.
    pub base: int,
    /// Contents of the frames, 512 words each.
    pub mem: Seq<Seq<u64>>,
    /// The live tables, by frame, and their levels.
    pub levels: Map<int, int>,
}

/// The descriptor is valid.
pub open spec fn valid(e: u64) -> bool {
    e & 1 != 0
}

/// The descriptor points to a next-level table (below level 3).
pub open spec fn is_table(e: u64) -> bool {
    e & 1 != 0 && e & 2 != 0
}

/// Index into the level-`l` table that translates `va`.
pub open spec fn idx(va: u64, l: int) -> int {
    if l == 0 {
        (va as int / 0x80_0000_0000) % 512
    } else if l == 1 {
        (va as int / 0x4000_0000) % 512
    } else if l == 2 {
        (va as int / 0x20_0000) % 512
    } else {
        (va as int / 0x1000) % 512
    }
}

/// `va` and `vb` go through the same indices at the first `l` levels.
pub open spec fn same_prefix(va: u64, vb: u64, l: int) -> bool {
    &&& l > 0 ==> idx(va, 0) == idx(vb, 0)
    &&& l > 1 ==> idx(va, 1) == idx(vb, 1)
    &&& l > 2 ==> idx(va, 2) == idx(vb, 2)
    &&& l > 3 ==> idx(va, 3) == idx(vb, 3)
}

/// `va` and `vb` lie in the same 4 KiB page of the 48-bit address space.
pub open spec fn same_page(va: u64, vb: u64) -> bool {
    same_prefix(va, vb, 4)
}

/// `va` and `vb` lie in the same 2 MiB block of the 48-bit address space.
pub open spec fn same_block(va: u64, vb: u64) -> bool {
    same_prefix(va, vb, 3)
}

/// The level and descriptor of a mapping, if the descriptor is valid.
pub open spec fn mapping(l: int, e: u64) -> Option<(int, u64)> {
    if valid(e) {
        Some((l, e))
    } else {
        None
    }
}

/// A frame of zeroes.
pub open spec fn zero_frame() -> Seq<u64> {
    Seq::new(512, |i: int| 0u64)
}

impl Tables {
    /// Number of frames.
    pub open spec fn n(self) -> int {
        self.mem.len() as int
    }

    /// Address of frame `f`.
    pub open spec fn addr(self, f: int) -> int {
        self.base + 4096 * f
    }

    /// Frame at address `a`.
    pub open spec fn frame(self, a: int) -> int {
        (a - self.base) / 4096
    }

    /// `a` is the address of a frame.
    pub open spec fn has_frame(self, a: int) -> bool {
        &&& self.base <= a
        &&& (a - self.base) % 4096 == 0
        &&& self.frame(a) < self.n()
    }

    /// Word `i` of frame `f`.
    pub open spec fn entry(self, f: int, i: int) -> u64 {
        self.mem[f][i]
    }

    /// Frame that the table descriptor `e` points to.
    pub open spec fn target(self, e: u64) -> int {
        self.frame((e & ADDR_MASK) as int)
    }

    /// Frame `f` is a live table.
    pub open spec fn live(self, f: int) -> bool {
        self.levels.dom().contains(f)
    }

    /// Address `a` holds the root of a live table tree.
    pub open spec fn is_root(self, a: int) -> bool {
        self.has_frame(a) && self.live(self.frame(a)) && self.levels[self.frame(a)] == 0
    }

    /// Frame `f` is a live table above level 3 whose word `i` points to a table.
    pub open spec fn link(self, f: int, i: int) -> bool {
        self.live(f) && self.levels[f] < 3 && 0 <= i < 512 && is_table(self.entry(f, i))
    }

    pub open spec fn wf_space(self) -> bool {
        &&& 0 <= self.base
        &&& self.base % 4096 == 0
        &&& self.base + 4096 * self.n() <= 0x1_0000_0000_0000
        &&& forall|f: int| 0 <= f < self.n() ==> (#[trigger] self.mem[f]).len() == 512
        &&& forall|f: int| #[trigger]
            self.live(f) ==> 0 <= f < self.n() && 0 <= self.levels[f] <= 3
    }

    pub open spec fn wf_links(self) -> bool {
        &&& forall|f: int, i: int| #[trigger]
            self.link(f, i) ==> {
                let c = self.target(self.entry(f, i));
                &&& self.live(c)
                &&& self.levels[c] == self.levels[f] + 1
                &&& self.addr(c) == self.entry(f, i) & ADDR_MASK
            }
        &&& forall|f: int, i: int|
            self.live(f) && self.levels[f] < 2 && 0 <= i < 512 && valid(
                #[trigger] self.entry(f, i),
            ) ==> is_table(self.entry(f, i))
    }

    pub open spec fn wf_unique(self) -> bool {
        forall|f: int, i: int, g: int, j: int|
            #![trigger self.link(f, i), self.link(g, j)]
            self.link(f, i) && self.link(g, j) && self.target(self.entry(f, i)) == self.target(
                self.entry(g, j),
            ) ==> f == g && i == j
    }

    /// The live tables form disjoint trees.
    pub open spec fn wf(self) -> bool {
        self.wf_space() && self.wf_links() && self.wf_unique()
    }

    /// The level-`l` table on the path of `va` from the level-`m` table `f`.
    pub open spec fn reach_from(self, f: int, m: int, va: u64, l: int) -> Option<int>
        decreases l - m,
    {
        if l <= m {
            Some(f)
        } else {
            match self.reach_from(f, m, va, l - 1) {
                Some(g) => if is_table(self.entry(g, idx(va, l - 1))) {
                    Some(self.target(self.entry(g, idx(va, l - 1))))
                } else {
                    None
                },
                None => None,
            }
        }
    }

    /// The level-`l` table on the path of `va` from the root at address `root`.
    pub open spec fn reach(self, root: int, va: u64, l: int) -> Option<int> {
        self.reach_from(self.frame(root), 0, va, l)
    }

    /// How `va` is mapped below the level-`m` table `f`: the level (2 for a
    /// 2 MiB block, 3 for a page) and the descriptor.
    pub open spec fn leaf_from(self, f: int, m: int, va: u64) -> Option<(int, u64)> {
        match self.reach_from(f, m, va, 3) {
            Some(g) => mapping(3, self.entry(g, idx(va, 3))),
            None => if m <= 2 {
                match self.reach_from(f, m, va, 2) {
                    Some(g) => mapping(2, self.entry(g, idx(va, 2))),
                    None => None,
                }
            } else {
                None
            },
        }
    }

    /// How the tree at address `root` maps `va`.
    pub open spec fn leaf(self, root: int, va: u64) -> Option<(int, u64)> {
        self.leaf_from(self.frame(root), 0, va)
    }

    /// `va` lies in a mapped 2 MiB block.
    pub open spec fn in_block(self, root: int, va: u64) -> bool {
        self.leaf(root, va) matches Some((l, e)) && l == 2
    }

    /// The same memory with word `i` of frame `f` set to `e`.
    pub open spec fn set(self, f: int, i: int, e: u64) -> Tables {
        Tables { mem: self.mem.update(f, self.mem[f].update(i, e)), ..self }
    }

    /// The same memory with frame `c` holding `words`, a live table of level `l`.
    pub open spec fn put_table(self, c: int, l: int, words: Seq<u64>) -> Tables {
        Tables { mem: self.mem.update(c, words), levels: self.levels.insert(c, l), ..self }
    }

    pub proof fn lemma_reach_live(self, f: int, m: int, va: u64, l: int)
        requires
            self.wf(),
            self.live(f),
            self.levels[f] == m,
            m <= l <= 3,
        ensures
            self.reach_from(f, m, va, l) matches Some(g) ==> self.live(g) && self.levels[g] == l,
        decreases l - m,
    {
        if l > m {
            self.lemma_reach_live(f, m, va, l - 1);
            if let Some(g) = self.reach_from(f, m, va, l - 1) {
                let i = idx(va, l - 1);
                if is_table(self.entry(g, i)) {
                    assert(self.link(g, i));
                }
            }
        }
    }

    /// Paths that end in the same table go through the same indices.
    pub proof fn lemma_reach_unique(self, f: int, g: int, m: int, va: u64, vb: u64, l: int)
        requires
            self.wf(),
            self.live(f),
            self.live(g),
            self.levels[f] == m,
            self.levels[g] == m,
            m <= l <= 3,
            self.reach_from(f, m, va, l) is Some,
            self.reach_from(f, m, va, l) == self.reach_from(g, m, vb, l),
        ensures
            f == g,
            forall|k: int| m <= k < l ==> #[trigger] idx(va, k) == idx(vb, k),
        decreases l - m,
    {
        if l > m {
            self.lemma_reach_live(f, m, va, l - 1);
            self.lemma_reach_live(g, m, vb, l - 1);
            let p = self.reach_from(f, m, va, l - 1)->0;
            let q = self.reach_from(g, m, vb, l - 1)->0;
            assert(self.link(p, idx(va, l - 1)));
            assert(self.link(q, idx(vb, l - 1)));
            self.lemma_reach_unique(f, g, m, va, vb, l - 1);
        }
    }

    /// Addresses with the same indices share their path.
    pub proof fn lemma_reach_prefix(self, f: int, m: int, va: u64, vb: u64, l: int)
        requires
            0 <= m,
            l <= 4,
            forall|k: int| m <= k < l ==> #[trigger] idx(va, k) == idx(vb, k),
        ensures
            self.reach_from(f, m, va, l) == self.reach_from(f, m, vb, l),
        decreases l - m,
    {
        if l > m {
            self.lemma_reach_prefix(f, m, va, vb, l - 1);
            assert(idx(va, l - 1) == idx(vb, l - 1));
        }
    }

    /// The first step of a path.
    pub proof fn lemma_reach_step(self, f: int, m: int, va: u64, l: int)
        requires
            m < l,
        ensures
            self.reach_from(f, m, va, l) == if is_table(self.entry(f, idx(va, m))) {
                self.reach_from(self.target(self.entry(f, idx(va, m))), m + 1, va, l)
            } else {
                None
            },
        decreases l - m,
    {
        if l > m + 1 {
            self.lemma_reach_step(f, m, va, l - 1);
        } else {
            assert(self.reach_from(f, m, va, m) == Some(f));
        }
    }

    /// The path of `va` below `g` goes through word `i` of table `f`.
    pub open spec fn through(self, g: int, m: int, va: u64, f: int, i: int) -> bool {
        let l = self.levels[f];
        m <= l && self.reach_from(g, m, va, l) == Some(f) && idx(va, l) == i
    }

    /// Writing a word leaves every path that does not go through it, and the
    /// upper part of those that do.
    pub proof fn lemma_set_reach(self, f: int, i: int, e: u64, g: int, m: int, va: u64, k: int)
        requires
            self.wf(),
            self.live(f),
            0 <= i < 512,
            self.live(g),
            self.levels[g] == m,
            m <= k <= 3,
            k <= self.levels[f] || !self.through(g, m, va, f, i),
        ensures
            self.set(f, i, e).reach_from(g, m, va, k) == self.reach_from(g, m, va, k),
        decreases k - m,
    {
        let t = self.set(f, i, e);
        if k > m {
            self.lemma_set_reach(f, i, e, g, m, va, k - 1);
            self.lemma_reach_live(g, m, va, k - 1);
            if let Some(h) = self.reach_from(g, m, va, k - 1) {
                let j = idx(va, k - 1);
                assert(0 <= j < 512);
                assert(h != f || j != i);
                assert(t.entry(h, j) == self.entry(h, j));
            }
        }
    }

    /// Writing a word that does not become a table descriptor.
    pub proof fn lemma_set_leaf_wf(self, f: int, i: int, e: u64)
        requires
            self.wf(),
            self.live(f),
            0 <= i < 512,
            self.levels[f] == 3 || (self.levels[f] == 2 && !is_table(e)),
        ensures
            self.set(f, i, e).wf(),
    {
        let t = self.set(f, i, e);
        assert(t.wf_space()) by {
            assert forall|g: int| #[trigger] t.live(g) implies 0 <= g < t.n() && 0 <= t.levels[g]
                <= 3 by {
                assert(self.live(g));
            }
        }
        assert forall|g: int, j: int| t.link(g, j) == (self.link(g, j) && !(g == f && j == i)) by {
            if self.live(g) && 0 <= j < 512 && (g != f || j != i) {
                assert(t.entry(g, j) == self.entry(g, j));
            }
        }
        assert forall|g: int, j: int| #[trigger] t.link(g, j) implies t.entry(g, j) == self.entry(
            g,
            j,
        ) && self.link(g, j) by {}
        assert forall|g: int, j: int|
            t.live(g) && t.levels[g] < 2 && 0 <= j < 512 && valid(
                #[trigger] t.entry(g, j),
            ) implies is_table(t.entry(g, j)) by {
            assert(self.live(g));
            assert(g != f);
            assert(t.entry(g, j) == self.entry(g, j));
        }
    }

    /// How writing a word at level 2 or 3 that does not become a table
    /// descriptor shows in the mapping of `va`.
    pub proof fn lemma_set_leaf(self, f: int, i: int, e: u64, g: int, m: int, va: u64)
        requires
            self.wf(),
            self.live(f),
            0 <= i < 512,
            self.levels[f] == 3 || (self.levels[f] == 2 && !is_table(e)),
            self.live(g),
            self.levels[g] == m,
        ensures
            self.set(f, i, e).leaf_from(g, m, va) == if self.through(g, m, va, f, i) {
                mapping(self.levels[f], e)
            } else {
                self.leaf_from(g, m, va)
            },
    {
        let t = self.set(f, i, e);
        let l = self.levels[f];
        let p = self.through(g, m, va, f, i);
        self.lemma_set_leaf_wf(f, i, e);
        if p || m <= 2 {
            if m <= 2 {
                self.lemma_set_reach(f, i, e, g, m, va, 2);
                self.lemma_reach_live(g, m, va, 2);
            }
        }
        if p {
            if l == 3 {
                self.lemma_set_reach(f, i, e, g, m, va, 3);
                assert(t.entry(f, i) == e);
            } else {
                assert(t.entry(f, i) == e);
                assert(t.reach_from(g, m, va, 3) is None);
            }
        } else {
            self.lemma_set_reach(f, i, e, g, m, va, 3);
            self.lemma_reach_live(g, m, va, 3);
            if let Some(h) = self.reach_from(g, m, va, 3) {
                assert(t.entry(h, idx(va, 3)) == self.entry(h, idx(va, 3)));
            }
            if m <= 2 {
                if let Some(h) = self.reach_from(g, m, va, 2) {
                    assert(t.entry(h, idx(va, 2)) == self.entry(h, idx(va, 2)));
                }
            }
        }
    }

    /// Turning a free frame into a table leaves every path and mapping alone.
    pub proof fn lemma_put_table(self, c: int, l: int, words: Seq<u64>)
        requires
            self.wf(),
            0 <= c < self.n(),
            !self.live(c),
            0 <= l <= 3,
            words.len() == 512,
            l < 3 ==> forall|i: int| 0 <= i < 512 ==> !is_table(#[trigger] words[i]),
            l < 2 ==> forall|i: int| 0 <= i < 512 ==> !valid(#[trigger] words[i]),
        ensures
            self.put_table(c, l, words).wf(),
            forall|g: int, m: int, va: u64, k: int|
                self.live(g) && self.levels[g] == m && m <= k <= 3
                    ==> #[trigger] self.put_table(c, l, words).reach_from(g, m, va, k)
                    == self.reach_from(g, m, va, k),
            forall|g: int, m: int, va: u64|
                self.live(g) && self.levels[g] == m ==> #[trigger] self.put_table(
                    c,
                    l,
                    words,
                ).leaf_from(g, m, va) == self.leaf_from(g, m, va),
            forall|g: int, j: int| #[trigger]
                self.put_table(c, l, words).link(g, j) ==> self.put_table(c, l, words).target(
                    self.put_table(c, l, words).entry(g, j),
                ) != c,
    {
        let t = self.put_table(c, l, words);
        assert(t.wf_space()) by {
            assert forall|g: int| #[trigger] t.live(g) implies 0 <= g < t.n() && 0 <= t.levels[g]
                <= 3 by {
                assert(g == c || self.live(g));
            }
        }
        assert forall|g: int, j: int| t.link(g, j) == self.link(g, j) by {
            if g == c && 0 <= j < 512 {
                assert(t.entry(g, j) == words[j]);
            } else if g != c && self.live(g) {
                assert(t.mem[g] == self.mem[g]);
            }
        }
        assert forall|g: int, j: int| #[trigger] t.link(g, j) implies t.entry(g, j) == self.entry(
            g,
            j,
        ) && g != c && t.target(t.entry(g, j)) != c by {
            assert(self.link(g, j));
        }
        assert forall|g: int, j: int|
            t.live(g) && t.levels[g] < 2 && 0 <= j < 512 && valid(
                #[trigger] t.entry(g, j),
            ) implies is_table(t.entry(g, j)) by {
            if g == c {
                assert(t.entry(g, j) == words[j]);
            } else {
                assert(self.live(g));
                assert(t.entry(g, j) == self.entry(g, j));
            }
        }
        assert forall|g: int, m: int, va: u64, k: int|
            self.live(g) && self.levels[g] == m && m <= k <= 3 implies #[trigger] t.reach_from(
            g,
            m,
            va,
            k,
        ) == self.reach_from(g, m, va, k) by {
            self.lemma_put_reach(c, l, words, g, m, va, k);
        }
        assert forall|g: int, m: int, va: u64|
            self.live(g) && self.levels[g] == m implies #[trigger] t.leaf_from(g, m, va)
            == self.leaf_from(g, m, va) by {
            self.lemma_reach_live(g, m, va, 3);
            assert(t.reach_from(g, m, va, 3) == self.reach_from(g, m, va, 3));
            if m <= 2 {
                self.lemma_reach_live(g, m, va, 2);
                assert(t.reach_from(g, m, va, 2) == self.reach_from(g, m, va, 2));
            }
        }
    }

    proof fn lemma_put_reach(
        self,
        c: int,
        l: int,
        words: Seq<u64>,
        g: int,
        m: int,
        va: u64,
        k: int,
    )
        requires
            self.wf(),
            0 <= c < self.n(),
            !self.live(c),
            self.live(g),
            self.levels[g] == m,
            m <= k <= 3,
        ensures
            self.put_table(c, l, words).reach_from(g, m, va, k) == self.reach_from(g, m, va, k),
        decreases k - m,
    {
        if k > m {
            self.lemma_put_reach(c, l, words, g, m, va, k - 1);
            self.lemma_reach_live(g, m, va, k - 1);
        }
    }

    /// Linking a fresh table `c` of level `l + 1` into an empty word of a
    /// level-`l` table.
    pub proof fn lemma_link(self, f: int, i: int, e: u64, c: int)
        requires
            self.wf(),
            self.live(f),
            self.levels[f] < 3,
            0 <= i < 512,
            !is_table(self.entry(f, i)),
            self.live(c),
            self.levels[c] == self.levels[f] + 1,
            is_table(e),
            e & ADDR_MASK == self.addr(c),
            forall|g: int, j: int| #[trigger] self.link(g, j) ==> self.target(self.entry(g, j)) != c,
        ensures
            self.set(f, i, e).wf(),
    {
        let t = self.set(f, i, e);
        assert(t.wf_space()) by {
            assert forall|g: int| #[trigger] t.live(g) implies 0 <= g < t.n() && 0 <= t.levels[g]
                <= 3 by {
                assert(self.live(g));
            }
        }
        assert(t.target(e) == c);
        assert forall|g: int, j: int| t.link(g, j) == (self.link(g, j) || (g == f && j == i)) by {
            if self.live(g) && 0 <= j < 512 && (g != f || j != i) {
                assert(t.entry(g, j) == self.entry(g, j));
            }
        }
        assert forall|g: int, j: int| #[trigger] t.link(g, j) implies t.entry(g, j) == if g == f && j
            == i {
            e
        } else {
            self.entry(g, j)
        } by {}
        assert forall|g: int, j: int|
            t.live(g) && t.levels[g] < 2 && 0 <= j < 512 && valid(
                #[trigger] t.entry(g, j),
            ) implies is_table(t.entry(g, j)) by {
            assert(self.live(g));
            if g != f || j != i {
                assert(t.entry(g, j) == self.entry(g, j));
            }
        }
    }

    /// Table `c` is fresh, holds `words`, and hangs from word `i` of table `f`.
    pub open spec fn linked(self, f: int, i: int, c: int, words: Seq<u64>) -> Tables {
        self.put_table(c, self.levels[f] + 1, words).set(f, i, (self.addr(c) as u64) | 1 | 2)
    }

    /// Every root of `self` maps every address in `t` as it does in `self`.
    pub open spec fn same_maps(self, t: Tables) -> bool {
        forall|g: int, va: u64|
            self.live(g) && self.levels[g] == 0 ==> #[trigger] t.leaf_from(g, 0, va)
                == self.leaf_from(g, 0, va)
    }

    /// `t` has the tables of `self` and, below the root `r`, those on the path
    /// of `va` down to level `d`.
    pub open spec fn reach_grown(self, t: Tables, r: int, va: u64, d: int) -> bool {
        forall|g: int, vb: u64, k: int|
            self.live(g) && self.levels[g] == 0 && 0 <= k <= 3 ==> match self.reach_from(
                g,
                0,
                vb,
                k,
            ) {
                Some(h) => #[trigger] t.reach_from(g, 0, vb, k) == Some(h),
                None => t.reach_from(g, 0, vb, k) is Some <==> g == r && k <= d && same_prefix(
                    va,
                    vb,
                    k,
                ),
            }
    }

    /// Two paths below roots meet in table `f` exactly if they are the same.
    pub proof fn lemma_through(self, r: int, va: u64, l: int, f: int, g: int, vb: u64)
        requires
            self.wf(),
            self.live(r),
            self.levels[r] == 0,
            self.live(g),
            self.levels[g] == 0,
            0 <= l <= 3,
            self.reach_from(r, 0, va, l) == Some(f),
        ensures
            self.live(f),
            self.levels[f] == l,
            self.through(g, 0, vb, f, idx(va, l)) <==> g == r && same_prefix(va, vb, l + 1),
    {
        self.lemma_reach_live(r, 0, va, l);
        if self.through(g, 0, vb, f, idx(va, l)) {
            self.lemma_reach_unique(r, g, 0, va, vb, l);
            assert(forall|k: int| 0 <= k < l ==> #[trigger] idx(va, k) == idx(vb, k));
            assert(l > 0 ==> idx(va, 0) == idx(vb, 0));
            assert(l > 1 ==> idx(va, 1) == idx(vb, 1));
            assert(l > 2 ==> idx(va, 2) == idx(vb, 2));
        }
        if g == r && same_prefix(va, vb, l + 1) {
            assert forall|k: int| 0 <= k < l implies #[trigger] idx(va, k) == idx(vb, k) by {}
            self.lemma_reach_prefix(r, 0, va, vb, l);
        }
    }

    /// Linking a fresh table into the path of `va` grows that path by one
    /// table.
    pub proof fn lemma_linked(self, r: int, va: u64, l: int, f: int, c: int, words: Seq<u64>)
        requires
            self.can_link(r, va, l, f, c, words),
        ensures
            self.linked(f, idx(va, l), c, words).wf(),
            self.linked(f, idx(va, l), c, words).reach_from(r, 0, va, l + 1) == Some(c),
            self.reach_grown(self.linked(f, idx(va, l), c, words), r, va, l + 1),
    {
        let i = idx(va, l);
        let u = self.put_table(c, l + 1, words);
        let e = (self.addr(c) as u64) | 1 | 2;
        let t = u.set(f, i, e);
        self.lemma_reach_live(r, 0, va, l);
        crate::mem::page_table::lemma_desc(self.addr(c) as u64, 0, 0);
        self.lemma_put_table(c, l + 1, words);
        assert(u.entry(f, i) == self.entry(f, i));
        u.lemma_link(f, i, e, c);
        assert(t == self.linked(f, i, c, words));
        assert(t.target(e) == c);
        assert forall|g: int, vb: u64, k: int|
            self.live(g) && self.levels[g] == 0 && 0 <= k <= 3 implies match self.reach_from(
            g,
            0,
            vb,
            k,
        ) {
            Some(h) => #[trigger] t.reach_from(g, 0, vb, k) == Some(h),
            None => t.reach_from(g, 0, vb, k) is Some <==> g == r && k <= l + 1 && same_prefix(
                va,
                vb,
                k,
            ),
        } by {
            self.lemma_linked_reach(r, va, l, f, c, words, g, vb, k);
        }
        self.lemma_linked_reach(r, va, l, f, c, words, r, va, l + 1);
    }

    /// Linking an empty table into an empty word changes no mapping.
    pub proof fn lemma_linked_empty(self, r: int, va: u64, l: int, f: int, c: int)
        requires
            self.can_link(r, va, l, f, c, zero_frame()),
            !valid(self.entry(f, idx(va, l))),
        ensures
            self.same_maps(self.linked(f, idx(va, l), c, zero_frame())),
    {
        let words = zero_frame();
        let i = idx(va, l);
        let t = self.linked(f, i, c, words);
        self.lemma_linked(r, va, l, f, c, words);
        assert(!valid(0u64)) by {
            crate::mem::page_table::lemma_desc(0, 0, 0);
        }
        assert forall|g: int, vb: u64| self.live(g) && self.levels[g] == 0 implies #[trigger] t.leaf_from(
            g,
            0,
            vb,
        ) == self.leaf_from(g, 0, vb) by {
            self.lemma_linked_reach(r, va, l, f, c, words, g, vb, 2);
            self.lemma_linked_reach(r, va, l, f, c, words, g, vb, 3);
            self.lemma_reach_live(r, 0, va, l);
            self.lemma_reach_live(g, 0, vb, 2);
            self.lemma_reach_live(g, 0, vb, 3);
            self.lemma_through(r, va, l, f, g, vb);
            if let Some(h) = self.reach_from(g, 0, vb, 3) {
                assert(t.entry(h, idx(vb, 3)) == self.entry(h, idx(vb, 3)));
            }
            if let Some(h) = self.reach_from(g, 0, vb, 2) {
                if h != f || idx(vb, 2) != i {
                    assert(t.entry(h, idx(vb, 2)) == self.entry(h, idx(vb, 2)));
                }
            }
        }
    }

    /// Linking a table at level 3 maps the pages of its 2 MiB range by its
    /// words and changes no other mapping.
    pub proof fn lemma_linked_pages(
        self,
        r: int,
        va: u64,
        f: int,
        c: int,
        words: Seq<u64>,
        g: int,
        vb: u64,
    )
        requires
            self.can_link(r, va, 2, f, c, words),
            self.live(g),
            self.levels[g] == 0,
        ensures
            self.linked(f, idx(va, 2), c, words).leaf_from(g, 0, vb) == if g == r && same_block(
                va,
                vb,
            ) {
                mapping(3, words[idx(vb, 3)])
            } else {
                self.leaf_from(g, 0, vb)
            },
    {
        let i = idx(va, 2);
        let t = self.linked(f, i, c, words);
        self.lemma_linked(r, va, 2, f, c, words);
        self.lemma_linked_reach(r, va, 2, f, c, words, g, vb, 2);
        self.lemma_linked_reach(r, va, 2, f, c, words, g, vb, 3);
        self.lemma_reach_live(r, 0, va, 2);
        self.lemma_reach_live(g, 0, vb, 2);
        self.lemma_reach_live(g, 0, vb, 3);
        self.lemma_through(r, va, 2, f, g, vb);
        if g == r && same_block(va, vb) {
            assert(self.reach_from(g, 0, vb, 3) is None);
            assert(t.reach_from(g, 0, vb, 3) == Some(c));
            assert(t.entry(c, idx(vb, 3)) == words[idx(vb, 3)]);
        } else {
            if let Some(h) = self.reach_from(g, 0, vb, 3) {
                assert(t.entry(h, idx(vb, 3)) == self.entry(h, idx(vb, 3)));
            }
            if let Some(h) = self.reach_from(g, 0, vb, 2) {
                assert(t.entry(h, idx(vb, 2)) == self.entry(h, idx(vb, 2)));
            }
        }
    }

    /// The level-`l` table `f` on the path of `va` has room for a link to the
    /// frame `c` holding `words`.
    pub open spec fn can_link(
        self,
        r: int,
        va: u64,
        l: int,
        f: int,
        c: int,
        words: Seq<u64>,
    ) -> bool {
        &&& self.wf()
        &&& self.live(r)
        &&& self.levels[r] == 0
        &&& 0 <= l < 3
        &&& self.reach_from(r, 0, va, l) == Some(f)
        &&& !is_table(self.entry(f, idx(va, l)))
        &&& 0 <= c < self.n()
        &&& !self.live(c)
        &&& words.len() == 512
        &&& l < 2 ==> forall|i: int| 0 <= i < 512 ==> !valid(#[trigger] words[i])
    }

    proof fn lemma_linked_reach(
        self,
        r: int,
        va: u64,
        l: int,
        f: int,
        c: int,
        words: Seq<u64>,
        g: int,
        vb: u64,
        k: int,
    )
        requires
            self.can_link(r, va, l, f, c, words),
            self.live(g),
            self.levels[g] == 0,
            0 <= k <= 3,
        ensures
            ({
                let t = self.linked(f, idx(va, l), c, words);
                match self.reach_from(g, 0, vb, k) {
                    Some(h) => t.reach_from(g, 0, vb, k) == Some(h),
                    None => {
                        &&& t.reach_from(g, 0, vb, k) is Some <==> g == r && k <= l + 1
                            && same_prefix(va, vb, k)
                        &&& t.reach_from(g, 0, vb, k) is Some ==> k == l + 1 && t.reach_from(
                            g,
                            0,
                            vb,
                            k,
                        ) == Some(c)
                    },
                }
            }),
    {
        let i = idx(va, l);
        let u = self.put_table(c, l + 1, words);
        let e = (self.addr(c) as u64) | 1 | 2;
        let t = u.set(f, i, e);
        crate::mem::page_table::lemma_desc(self.addr(c) as u64, 0, 0);
        self.lemma_reach_live(r, 0, va, l);
        self.lemma_put_table(c, l + 1, words);
        self.lemma_through(r, va, l, f, g, vb);
        assert(u.reach_from(g, 0, vb, k) == self.reach_from(g, 0, vb, k));
        assert(u.reach_from(g, 0, vb, l) == self.reach_from(g, 0, vb, l));
        assert(u.entry(f, i) == self.entry(f, i));
        if k <= l || !self.through(g, 0, vb, f, i) {
            u.lemma_set_reach(f, i, e, g, 0, vb, k);
            if self.reach_from(g, 0, vb, k) is None && g == r && k <= l + 1 && same_prefix(
                va,
                vb,
                k,
            ) {
                if k <= l {
                    assert forall|q: int| 0 <= q < k implies #[trigger] idx(va, q) == idx(vb, q) by {}
                    self.lemma_reach_prefix(r, 0, va, vb, k);
                    self.lemma_reach_upper(r, va, k, l);
                    assert(false);
                } else {
                    assert(same_prefix(va, vb, l + 1));
                }
            }
        } else {
            u.lemma_set_reach(f, i, e, g, 0, vb, l);
            assert(t.reach_from(g, 0, vb, l) == Some(f));
            assert(t.entry(f, i) == e);
            assert(t.reach_from(g, 0, vb, l + 1) == Some(c));
            assert(self.reach_from(g, 0, vb, l + 1) is None);
            self.lemma_reach_none(g, vb, l + 1, k);
            if k > l + 1 {
                assert(t.entry(c, idx(vb, l + 1)) == words[idx(vb, l + 1)]);
                assert(t.reach_from(g, 0, vb, l + 2) is None);
                t.lemma_reach_none(g, vb, l + 2, k);
            }
        }
    }

    /// A path that has ended stays ended.
    pub proof fn lemma_reach_none(self, g: int, va: u64, l: int, k: int)
        requires
            0 <= l <= k,
            self.reach_from(g, 0, va, l) is None,
        ensures
            self.reach_from(g, 0, va, k) is None,
        decreases k - l,
    {
        if k > l {
            self.lemma_reach_none(g, va, l, k - 1);
        }
    }

    /// A path that gets to level `l` passes every level above.
    pub proof fn lemma_reach_upper(self, g: int, va: u64, k: int, l: int)
        requires
            0 <= k <= l,
            self.reach_from(g, 0, va, l) is Some,
        ensures
            self.reach_from(g, 0, va, k) is Some,
    {
        if self.reach_from(g, 0, va, k) is None {
            self.lemma_reach_none(g, va, k, l);
        }
    }
}

} // verus!
