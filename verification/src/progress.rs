//! Hierarchical progress tree.
//!
//! A forest of progress indicators mirrors the concurrency tree of the
//! update pipeline: one node per running unit of work, each knowing its
//! parent, its children, its nesting depth, and whether it is the last
//! sibling.  The left margin of each rendered line encodes the node's
//! ancestry with box-drawing glyphs; which glyphs appear is determined
//! entirely by the last-sibling flags along the ancestor chain.
//!
//! The nodes live in an arena and are addressed by stable handles (their
//! index); parent references are plain indices and never own their target,
//! while child lists own the subtree.  A new child is always inserted after
//! its parent's current last child: the previous last child's flag is
//! cleared and the new child becomes the last sibling.  Removal detaches a
//! node from its parent, hands the last-sibling flag to the remaining
//! youngest sibling, and recursively removes any still-attached children.
//!
//! The component has no success or failure semantics of its own: it is pure
//! bookkeeping, and the terminal rendering that consumes it lives outside
//! the library.

use vstd::prelude::*;

verus! {

/// How a node renders: a determinate bar when a total byte count is known,
/// an indeterminate spinner with byte rate when it is not, or a bare
/// message line.
#[derive(PartialEq, Eq, Structural, Clone, Copy)]
pub enum BarStyle {
    KnownTotal,
    UnknownTotal,
    MessageOnly,
}

/// One progress indicator: its place in the tree and its display state.
pub struct ProgressBar {
    /// The owning parent's handle; `None` for a root.
    pub parent: Option<usize>,
    /// Handles of the still-attached children, oldest first.
    pub children: Vec<usize>,
    /// Whether this node is the last sibling under its parent.
    pub is_last_child: bool,
    /// Nesting depth: zero for a root.
    pub level: u64,
    /// Whether the node is still attached to the display.
    pub alive: bool,
    /// Current position of the bar.
    pub position: u64,
    /// Total length, when known.
    pub length: Option<u64>,
    /// Current message line.
    pub message: String,
    /// Render style.
    pub style: BarStyle,
    /// Whether the node has finished.
    pub finished: bool,
}

/// The arena of progress nodes.  Handles are indices into the arena and
/// stay stable for the life of the manager; a removed node only loses its
/// `alive` mark.
pub struct ProgressBarManager {
    nodes: Vec<ProgressBar>,
}

/// Tree and display state agree on everything except the `alive` mark and
/// the last-sibling flag.
#[verifier::inline]
pub open spec fn same_skeleton(a: ProgressBar, b: ProgressBar) -> bool {
    &&& a.parent == b.parent
    &&& a.children@ == b.children@
    &&& a.level == b.level
    &&& a.position == b.position
    &&& a.length == b.length
    &&& a.message == b.message
    &&& a.style == b.style
    &&& a.finished == b.finished
}

/// The display state of `a` and `b` agrees; the tree state may differ.
#[verifier::inline]
pub open spec fn same_display(a: ProgressBar, b: ProgressBar) -> bool {
    &&& a.position == b.position
    &&& a.length == b.length
    &&& a.message == b.message
    &&& a.style == b.style
    &&& a.finished == b.finished
}

/// The tree state of `a` and `b` agrees; the display state may differ.
#[verifier::inline]
pub open spec fn same_tree(a: ProgressBar, b: ProgressBar) -> bool {
    &&& a.parent == b.parent
    &&& a.children@ == b.children@
    &&& a.is_last_child == b.is_last_child
    &&& a.level == b.level
    &&& a.alive == b.alive
}

/// The child list of node `i`: every entry points below `i` in the arena to
/// a live node that calls `i` its parent, and entries appear in creation
/// order (strictly increasing handles), so the last entry is the most
/// recently added still-attached child.
pub open spec fn child_list_ok(ns: Seq<ProgressBar>, i: int) -> bool {
    &&& forall|k: int|
        0 <= k < ns[i].children@.len() ==> i < #[trigger] ns[i].children@[k] < ns.len()
            && ns[ns[i].children@[k] as int].alive
            && ns[ns[i].children@[k] as int].parent == Some(i as usize)
    &&& forall|k1: int, k2: int|
        0 <= k1 < k2 < ns[i].children@.len() ==> ns[i].children@[k1] < ns[i].children@[k2]
}

/// Well-formedness of one node of the arena.
pub open spec fn wf_at(ns: Seq<ProgressBar>, i: int) -> bool {
    &&& (ns[i].parent is Some ==> ns[i].parent->0 < i)
    &&& ns[i].level <= i
    &&& (ns[i].parent is None ==> ns[i].level == 0 && ns[i].is_last_child)
    &&& (ns[i].alive && ns[i].parent is Some ==> {
        let p = ns[i].parent->0 as int;
        &&& ns[p].alive
        &&& ns[i].level == ns[p].level + 1
        &&& ns[p].children@.contains(i as usize)
        &&& (ns[i].is_last_child <==> ns[p].children@.len() > 0 && ns[p].children@.last() == i)
    })
    &&& (ns[i].alive ==> child_list_ok(ns, i))
}

/// Well-formedness of the whole arena.
pub open spec fn wf_nodes(ns: Seq<ProgressBar>) -> bool {
    forall|i: int| 0 <= i < ns.len() ==> #[trigger] wf_at(ns, i)
}

/// What inserting a node under `parent` does: the previous last child (if
/// any) loses its last-sibling flag, the parent's child list grows by the
/// new handle, every other node is untouched, and the new node starts live,
/// empty and last.
pub open spec fn spec_insert_effect(
    ns0: Seq<ProgressBar>,
    ns1: Seq<ProgressBar>,
    parent: Option<usize>,
    style: BarStyle,
    length: Option<u64>,
    id: int,
) -> bool {
    &&& id == ns0.len()
    &&& ns1.len() == ns0.len() + 1
    &&& ns1[id].parent == parent
    &&& ns1[id].children@ == Seq::<usize>::empty()
    &&& ns1[id].is_last_child
    &&& ns1[id].alive
    &&& ns1[id].position == 0
    &&& ns1[id].length == length
    &&& ns1[id].message@ == Seq::<char>::empty()
    &&& ns1[id].style == style
    &&& !ns1[id].finished
    &&& match parent {
        None => {
            &&& ns1[id].level == 0
            &&& forall|j: int| 0 <= j < ns0.len() ==> ns1[j] == ns0[j]
        },
        Some(p) => {
            let prev = prev_last_child(ns0, p as int);
            &&& ns1[id].level == ns0[p as int].level + 1
            &&& ns1[p as int].children@ == ns0[p as int].children@.push(id as usize)
            &&& ns1[p as int].parent == ns0[p as int].parent
            &&& ns1[p as int].level == ns0[p as int].level
            &&& same_display(ns1[p as int], ns0[p as int])
            &&& ns1[p as int].is_last_child == ns0[p as int].is_last_child
            &&& ns1[p as int].alive == ns0[p as int].alive
            &&& (prev >= 0 ==> !ns1[prev].is_last_child && same_skeleton(ns1[prev], ns0[prev])
                && ns1[prev].alive == ns0[prev].alive)
            &&& forall|j: int|
                0 <= j < ns0.len() && j != p && j != prev ==> ns1[j] == ns0[j]
        },
    }
}

/// The previous last child of `p`, or `-1` when `p` has none.
pub open spec fn prev_last_child(ns: Seq<ProgressBar>, p: int) -> int {
    if ns[p].children@.len() > 0 {
        ns[p].children@.last() as int
    } else {
        -1
    }
}

impl View for ProgressBarManager {
    type V = Seq<ProgressBar>;

    closed spec fn view(&self) -> Seq<ProgressBar> {
        self.nodes@
    }
}

impl ProgressBarManager {
    /// The arena is well formed.
    pub open spec fn wf(self) -> bool {
        wf_nodes(self@)
    }

    /// An empty forest.
    pub fn new() -> (m: ProgressBarManager)
        ensures
            m.wf(),
            m@.len() == 0,
    {
        ProgressBarManager { nodes: Vec::new() }
    }

    /// The number of handles ever created.
    pub fn node_count(&self) -> (n: usize)
        ensures
            n == self@.len(),
    {
        self.nodes.len()
    }

    /// Creates a node; the shared path of the three public constructors.
    fn insert_node(&mut self, parent: Option<usize>, style: BarStyle, length: Option<u64>) -> (id:
        usize)
        requires
            old(self).wf(),
            match parent {
                Some(p) => p < old(self)@.len() && old(self)@[p as int].alive,
                None => true,
            },
        ensures
            final(self).wf(),
            spec_insert_effect(old(self)@, final(self)@, parent, style, length, id as int),
    {
        let ghost ns0 = self.nodes@;
        let id = self.nodes.len();
        let level: u64 = match parent {
            Some(p) => {
                proof {
                    assert(wf_at(ns0, p as int));
                }
                self.nodes[p].level + 1
            },
            None => 0,
        };
        if let Some(p) = parent {
            let clen = self.nodes[p].children.len();
            proof {
                assert(wf_at(ns0, p as int));
            }
            if clen > 0 {
                let prev = self.nodes[p].children[clen - 1];
                self.nodes[prev].is_last_child = false;
            }
            self.nodes[p].children.push(id);
        }
        self.nodes.push(
            ProgressBar {
                parent,
                children: Vec::new(),
                is_last_child: true,
                level,
                alive: true,
                position: 0,
                length,
                message: String::new(),
                style,
                finished: false,
            },
        );
        proof {
            let ns1 = self.nodes@;
            assert(spec_insert_effect(ns0, ns1, parent, style, length, id as int));
            match parent {
                None => {
                    assert forall|i: int| 0 <= i < ns1.len() implies wf_at(ns1, i) by {
                        if i < id as int {
                            assert(wf_at(ns0, i));
                            assert(ns1[i] == ns0[i]);
                            lemma_wf_at_frame(ns0, ns1, i);
                        }
                    }
                },
                Some(p) => {
                    let prev = prev_last_child(ns0, p as int);
                    assert(forall|c: int| 0 <= c < ns0.len() ==> ns1[c].alive == ns0[c].alive);
                    assert(forall|c: int| 0 <= c < ns0.len() ==> ns1[c].parent == ns0[c].parent);
                    assert(forall|c: int| 0 <= c < ns0.len() ==> ns1[c].level == ns0[c].level);
                    assert(forall|c: int|
                        0 <= c < ns0.len() && c != p ==> ns1[c].children@ == ns0[c].children@);
                    assert(forall|c: int|
                        0 <= c < ns0.len() && c != prev ==> ns1[c].is_last_child == ns0[
                            c].is_last_child);
                    assert forall|i: int| 0 <= i < ns1.len() implies wf_at(ns1, i) by {
                        if i == id as int {
                            assert(ns1[p as int].children@.last() == id as usize);
                        } else {
                            assert(wf_at(ns0, i));
                            if ns1[i].alive {
                                assert(child_list_ok(ns0, i));
                                assert(child_list_ok(ns1, i)) by {
                                    if i == p as int {
                                        assert(forall|k: int|
                                            0 <= k < ns0[i].children@.len() ==> ns1[i].children@[k]
                                                == ns0[i].children@[k]);
                                        assert(forall|k: int|
                                            0 <= k < ns0[i].children@.len()
                                                ==> #[trigger] ns0[i].children@[k] < ns0.len());
                                        assert(ns1[i].children@.last() == id as usize);
                                    } else {
                                        assert(ns1[i].children@ == ns0[i].children@);
                                        assert(forall|k: int|
                                            0 <= k < ns0[i].children@.len()
                                                ==> #[trigger] ns0[i].children@[k] < ns0.len());
                                    }
                                }
                                if ns1[i].parent is Some {
                                    let q = ns1[i].parent->0 as int;
                                    assert(wf_at(ns0, q));
                                    assert(ns0[q].children@.contains(i as usize));
                                    let k = choose|k: int|
                                        0 <= k < ns0[q].children@.len() && ns0[q].children@[k] == (
                                        i as usize);
                                    if q == p as int {
                                        assert(ns1[q].children@[k] == (i as usize));
                                        assert(ns1[q].children@.contains(i as usize));
                                        assert(ns1[q].children@.last() == id as usize);
                                        if i == prev {
                                            assert(ns0[q].children@.last() == i as usize);
                                            assert(!ns1[i].is_last_child);
                                        } else {
                                            assert(ns0[q].children@.last() != i as usize);
                                            assert(!ns0[i].is_last_child);
                                        }
                                    } else {
                                        assert(ns1[q].children@ == ns0[q].children@);
                                    }
                                }
                            }
                        }
                    }
                },
            }
        }
        id
    }

    /// Starts a root indicator with the indeterminate spinner style.
    pub fn add_root(&mut self) -> (id: usize)
        requires
            old(self).wf(),
        ensures
            final(self).wf(),
            spec_insert_effect(
                old(self)@,
                final(self)@,
                None,
                BarStyle::UnknownTotal,
                None,
                id as int,
            ),
    {
        self.insert_node(None, BarStyle::UnknownTotal, None)
    }

    /// Starts a bare message line, under `parent` or at the root level.
    pub fn add_msg(&mut self, parent: Option<usize>) -> (id: usize)
        requires
            old(self).wf(),
            match parent {
                Some(p) => p < old(self)@.len() && old(self)@[p as int].alive,
                None => true,
            },
        ensures
            final(self).wf(),
            spec_insert_effect(
                old(self)@,
                final(self)@,
                parent,
                BarStyle::MessageOnly,
                None,
                id as int,
            ),
    {
        self.insert_node(parent, BarStyle::MessageOnly, None)
    }

    /// Starts a child indicator: a determinate bar when the total is known,
    /// an indeterminate one otherwise.
    pub fn add_child_with_total(&mut self, parent: usize, total: Option<u64>) -> (id: usize)
        requires
            old(self).wf(),
            parent < old(self)@.len(),
            old(self)@[parent as int].alive,
        ensures
            final(self).wf(),
            spec_insert_effect(
                old(self)@,
                final(self)@,
                Some(parent),
                if total is Some {
                    BarStyle::KnownTotal
                } else {
                    BarStyle::UnknownTotal
                },
                None,
                id as int,
            ),
    {
        let style = match total {
            Some(_) => BarStyle::KnownTotal,
            None => BarStyle::UnknownTotal,
        };
        self.insert_node(Some(parent), style, None)
    }
}

impl ProgressBarManager {
    /// Moves the bar of `id` to `pos`.
    pub fn set_position(&mut self, id: usize, pos: u64)
        requires
            old(self).wf(),
            id < old(self)@.len(),
        ensures
            final(self).wf(),
            final(self)@.len() == old(self)@.len(),
            forall|j: int| 0 <= j < old(self)@.len() && j != id ==> final(self)@[j] == old(self)@[j],
            same_tree(final(self)@[id as int], old(self)@[id as int]),
            final(self)@[id as int].position == pos,
            final(self)@[id as int].length == old(self)@[id as int].length,
            final(self)@[id as int].message == old(self)@[id as int].message,
            final(self)@[id as int].style == old(self)@[id as int].style,
            final(self)@[id as int].finished == old(self)@[id as int].finished,
    {
        let ghost ns0 = self.nodes@;
        self.nodes[id].position = pos;
        proof {
            lemma_wf_same_tree(ns0, self.nodes@);
        }
    }

    /// Advances the bar of `id` by `n`, saturating at the top of the range.
    pub fn inc(&mut self, id: usize, n: u64)
        requires
            old(self).wf(),
            id < old(self)@.len(),
        ensures
            final(self).wf(),
            final(self)@.len() == old(self)@.len(),
            forall|j: int| 0 <= j < old(self)@.len() && j != id ==> final(self)@[j] == old(self)@[j],
            same_tree(final(self)@[id as int], old(self)@[id as int]),
            final(self)@[id as int].position == (if old(self)@[id as int].position + n
                <= u64::MAX {
                old(self)@[id as int].position + n
            } else {
                u64::MAX as int
            }),
            final(self)@[id as int].length == old(self)@[id as int].length,
            final(self)@[id as int].message == old(self)@[id as int].message,
            final(self)@[id as int].style == old(self)@[id as int].style,
            final(self)@[id as int].finished == old(self)@[id as int].finished,
    {
        let ghost ns0 = self.nodes@;
        let p = self.nodes[id].position;
        let q: u64 = if n <= u64::MAX - p {
            p + n
        } else {
            u64::MAX
        };
        self.nodes[id].position = q;
        proof {
            lemma_wf_same_tree(ns0, self.nodes@);
        }
    }

    /// Replaces the message line of `id`.
    pub fn set_message(&mut self, id: usize, msg: String)
        requires
            old(self).wf(),
            id < old(self)@.len(),
        ensures
            final(self).wf(),
            final(self)@.len() == old(self)@.len(),
            forall|j: int| 0 <= j < old(self)@.len() && j != id ==> final(self)@[j] == old(self)@[j],
            same_tree(final(self)@[id as int], old(self)@[id as int]),
            final(self)@[id as int].message == msg,
            final(self)@[id as int].position == old(self)@[id as int].position,
            final(self)@[id as int].length == old(self)@[id as int].length,
            final(self)@[id as int].style == old(self)@[id as int].style,
            final(self)@[id as int].finished == old(self)@[id as int].finished,
    {
        let ghost ns0 = self.nodes@;
        self.nodes[id].message = msg;
        proof {
            lemma_wf_same_tree(ns0, self.nodes@);
        }
    }

    /// Finishes `id` with a closing message; the node stays attached until
    /// it is removed.
    pub fn finish(&mut self, id: usize, msg: String)
        requires
            old(self).wf(),
            id < old(self)@.len(),
        ensures
            final(self).wf(),
            final(self)@.len() == old(self)@.len(),
            forall|j: int| 0 <= j < old(self)@.len() && j != id ==> final(self)@[j] == old(self)@[j],
            same_tree(final(self)@[id as int], old(self)@[id as int]),
            final(self)@[id as int].message == msg,
            final(self)@[id as int].finished,
            final(self)@[id as int].position == old(self)@[id as int].position,
            final(self)@[id as int].length == old(self)@[id as int].length,
            final(self)@[id as int].style == old(self)@[id as int].style,
    {
        let ghost ns0 = self.nodes@;
        self.nodes[id].message = msg;
        self.nodes[id].finished = true;
        proof {
            lemma_wf_same_tree(ns0, self.nodes@);
        }
    }

    /// Switches `id` between the determinate bar style (when a total byte
    /// count is known, which also sets the bar's length) and the
    /// indeterminate spinner style.
    pub fn update_template(&mut self, id: usize, total: Option<u64>)
        requires
            old(self).wf(),
            id < old(self)@.len(),
        ensures
            final(self).wf(),
            final(self)@.len() == old(self)@.len(),
            forall|j: int| 0 <= j < old(self)@.len() && j != id ==> final(self)@[j] == old(self)@[j],
            same_tree(final(self)@[id as int], old(self)@[id as int]),
            match total {
                Some(t) => final(self)@[id as int].style == BarStyle::KnownTotal
                    && final(self)@[id as int].length == Some(t),
                None => final(self)@[id as int].style == BarStyle::UnknownTotal
                    && final(self)@[id as int].length == old(self)@[id as int].length,
            },
            final(self)@[id as int].position == old(self)@[id as int].position,
            final(self)@[id as int].message == old(self)@[id as int].message,
            final(self)@[id as int].finished == old(self)@[id as int].finished,
    {
        let ghost ns0 = self.nodes@;
        match total {
            Some(t) => {
                self.nodes[id].style = BarStyle::KnownTotal;
                self.nodes[id].length = Some(t);
            },
            None => {
                self.nodes[id].style = BarStyle::UnknownTotal;
            },
        }
        proof {
            lemma_wf_same_tree(ns0, self.nodes@);
        }
    }
}

/// Whether node `j` lies in the subtree rooted at `id`: it is `id` itself,
/// or its parent chain passes through `id`.  Children always sit above
/// their parent in the arena, so the chain descends.
pub open spec fn in_subtree(ns: Seq<ProgressBar>, j: int, id: int) -> bool
    decreases j,
{
    if j == id {
        true
    } else if id < j && j < ns.len() && ns[j].parent is Some && ns[j].parent->0 < j {
        in_subtree(ns, ns[j].parent->0 as int, id)
    } else {
        false
    }
}

/// The parent a removed node is detached from, or `-1` for a root.
pub open spec fn removed_parent(ns: Seq<ProgressBar>, id: int) -> int {
    if ns[id].parent is Some {
        ns[id].parent->0 as int
    } else {
        -1
    }
}

/// The sibling that inherits the last-sibling flag when `id` is removed:
/// the next-youngest child of `id`'s parent, when `id` was the last child
/// and siblings remain; `-1` otherwise.
pub open spec fn flag_heir(ns: Seq<ProgressBar>, id: int) -> int {
    if ns[id].parent is Some {
        let ch = ns[ns[id].parent->0 as int].children@;
        if ch.len() > 1 && ch.last() == id as usize {
            ch[ch.len() - 2] as int
        } else {
            -1
        }
    } else {
        -1
    }
}

/// All fields of `a` and `b` agree except possibly the `alive` mark.
#[verifier::inline]
spec fn same_except_alive(a: ProgressBar, b: ProgressBar) -> bool {
    &&& a.parent == b.parent
    &&& a.children@ == b.children@
    &&& a.is_last_child == b.is_last_child
    &&& a.level == b.level
    &&& same_display(a, b)
}

impl ProgressBarManager {
    /// Removes `id` from the display: detaches it from its parent's child
    /// list (handing the last-sibling flag to the remaining youngest
    /// sibling), and removes every node of its subtree — defensive cleanup
    /// for children a caller forgot to remove.  Handles stay valid; the
    /// removed nodes only lose their `alive` mark.
    pub fn remove_bar(&mut self, id: usize)
        requires
            old(self).wf(),
            id < old(self)@.len(),
            old(self)@[id as int].alive,
        ensures
            final(self).wf(),
            final(self)@.len() == old(self)@.len(),
            forall|j: int|
                #![trigger final(self)@[j]]
                0 <= j < old(self)@.len() ==> (final(self)@[j].alive == (old(self)@[j].alive
                    && !in_subtree(old(self)@, j, id as int))),
            forall|j: int|
                0 <= j < old(self)@.len() && j != removed_parent(old(self)@, id as int) ==> final(
                    self)@[j].parent == old(self)@[j].parent && final(self)@[j].children@ == old(
                    self)@[j].children@ && final(self)@[j].level == old(self)@[j].level
                    && same_display(final(self)@[j], old(self)@[j]),
            forall|j: int|
                0 <= j < old(self)@.len() && j != flag_heir(old(self)@, id as int) ==> final(
                    self)@[j].is_last_child == old(self)@[j].is_last_child,
            flag_heir(old(self)@, id as int) >= 0 ==> final(self)@[flag_heir(
                old(self)@,
                id as int,
            )].is_last_child,
            removed_parent(old(self)@, id as int) >= 0 ==> final(self)@[removed_parent(
                old(self)@,
                id as int,
            )].parent == old(self)@[removed_parent(old(self)@, id as int)].parent && final(
                self)@[removed_parent(old(self)@, id as int)].level == old(self)@[removed_parent(
                old(self)@,
                id as int,
            )].level && same_display(
                final(self)@[removed_parent(old(self)@, id as int)],
                old(self)@[removed_parent(old(self)@, id as int)],
            ) && final(self)@[removed_parent(old(self)@, id as int)].children@.len() == old(
                self)@[removed_parent(old(self)@, id as int)].children@.len() - 1 && (forall|
                c: usize,
            |
                final(self)@[removed_parent(old(self)@, id as int)].children@.contains(c) <==> (old(
                    self)@[removed_parent(old(self)@, id as int)].children@.contains(c) && c
                    != id)),
    {
        let ghost ns0 = self.nodes@;
        let ghost mut gk: int = -1;
        proof {
            assert(wf_at(ns0, id as int));
        }
        let p_opt = self.nodes[id].parent;
        if let Some(p) = p_opt {
            proof {
                assert(wf_at(ns0, p as int));
                assert(ns0[p as int].children@.contains(id));
            }
            let ghost ch = ns0[p as int].children@;
            let clen = self.nodes[p].children.len();
            let mut k: usize = 0;
            proof {
                let t0 = choose|t: int| 0 <= t < ch.len() && ch[t] == id;
                assert(ch[t0] == id);
            }
            while self.nodes[p].children[k] != id
                invariant
                    self.nodes@ == ns0,
                    clen == ch.len(),
                    p < ns0.len(),
                    ns0[p as int].children@ == ch,
                    k < clen,
                    forall|t: int| 0 <= t < k ==> ch[t] != id,
                    exists|t: int| k <= t < ch.len() && ch[t] == id,
                decreases ch.len() - k,
            {
                proof {
                    let t = choose|t: int| k <= t < ch.len() && ch[t] == id;
                    assert(t > k);
                }
                k = k + 1;
            }
            proof {
                assert(ch[k as int] == id);
                gk = k as int;
            }
            let was_last = k == clen - 1;
            self.nodes[p].children.remove(k);
            proof {
                assert(self.nodes@[p as int].children@ == ch.remove(k as int));
            }
            if was_last && clen >= 2 {
                let heir = self.nodes[p].children[k - 1];
                proof {
                    assert(ch.remove(k as int)[k - 1] == ch[k - 1]);
                    assert(heir == flag_heir(ns0, id as int));
                    assert(child_list_ok(ns0, p as int));
                    assert(heir < ns0.len());
                }
                self.nodes[heir].is_last_child = true;
            }
        }
        self.nodes[id].alive = false;
        let ghost nsd = self.nodes@;
        proof {
            assert(detach_rel(ns0, nsd, id as int, gk));
        }
        let total = self.nodes.len();
        let mut j: usize = id + 1;
        while j < self.nodes.len()
            invariant
                id < total,
                id < j <= self.nodes@.len(),
                self.nodes@.len() == ns0.len(),
                id < ns0.len(),
                wf_nodes(ns0),
                nsd.len() == ns0.len(),
                forall|t: int| 0 <= t < ns0.len() ==> same_except_alive(self.nodes@[t], nsd[t]),
                forall|t: int| 0 <= t <= id ==> self.nodes@[t].alive == nsd[t].alive,
                forall|t: int|
                    #![trigger self.nodes@[t]]
                    id < t < j ==> self.nodes@[t].alive == (nsd[t].alive && !in_subtree(
                        ns0,
                        t,
                        id as int,
                    )),
                forall|t: int| j <= t < ns0.len() ==> self.nodes@[t].alive == nsd[t].alive,
                forall|t: int| 0 <= t < ns0.len() ==> nsd[t].parent == ns0[t].parent,
                forall|t: int| 0 <= t < ns0.len() && t != id ==> nsd[t].alive == ns0[t].alive,
                !nsd[id as int].alive,
            decreases self.nodes@.len() - j,
        {
            let ghost cur = self.nodes@;
            proof {
                assert(wf_at(ns0, j as int));
            }
            if self.nodes[j].alive {
                if let Some(q) = self.nodes[j].parent {
                    proof {
                        assert(cur[j as int].parent == ns0[j as int].parent);
                        assert(q < j);
                    }
                    if !self.nodes[q].alive {
                        self.nodes[j].alive = false;
                        proof {
                            lemma_sweep_step(ns0, nsd, cur, id as int, j as int, true);
                        }
                    } else {
                        proof {
                            lemma_sweep_step(ns0, nsd, cur, id as int, j as int, false);
                        }
                    }
                } else {
                    proof {
                        assert(!in_subtree(ns0, j as int, id as int));
                    }
                }
            } else {
                proof {
                    assert(!(nsd[j as int].alive && !in_subtree(ns0, j as int, id as int)));
                }
            }
            j = j + 1;
        }
        proof {
            let ns1 = self.nodes@;
            assert forall|t: int|
                #![trigger ns1[t]]
                0 <= t < ns0.len() implies ns1[t].alive == (ns0[t].alive && !in_subtree(
                ns0,
                t,
                id as int,
            )) by {
                if t < id {
                    assert(!in_subtree(ns0, t, id as int));
                } else if t == id {
                    assert(in_subtree(ns0, t, id as int));
                } else {
                    assert(ns1[t].alive == (nsd[t].alive && !in_subtree(ns0, t, id as int)));
                    assert(nsd[t].alive == ns0[t].alive);
                }
            }
            lemma_remove_wf(ns0, nsd, ns1, id as int, gk);
            if removed_parent(ns0, id as int) >= 0 {
                let p = removed_parent(ns0, id as int);
                assert(child_list_ok(ns0, p));
                lemma_remove_value_contains(ns0[p].children@, gk);
            }
        }
    }
}

/// The glyph before a node's own line: a corner for the last sibling, a
/// branch otherwise.
pub open spec fn glyph_leaf(last: bool) -> Seq<char> {
    if last {
        "└── "@
    } else {
        "├── "@
    }
}

/// The glyph standing in for an ancestor: blank below a last child, a
/// vertical continuation below one with later siblings.
pub open spec fn glyph_inner(last: bool) -> Seq<char> {
    if last {
        "    "@
    } else {
        "│   "@
    }
}

/// The ancestry part of a prefix: one inner glyph per ancestor with a
/// parent, outermost first.
pub open spec fn spec_cont(ns: Seq<ProgressBar>, i: int) -> Seq<char>
    decreases i,
{
    if ns[i].parent is Some && ns[i].parent->0 < i {
        spec_cont(ns, ns[i].parent->0 as int) + glyph_inner(ns[i].is_last_child)
    } else {
        Seq::empty()
    }
}

/// The tree-drawing prefix of a node's line: the ancestry glyphs, then the
/// node's own branch or corner glyph.  A root has no prefix.
pub open spec fn spec_prefix(ns: Seq<ProgressBar>, i: int) -> Seq<char> {
    if ns[i].parent is Some && ns[i].parent->0 < i {
        spec_cont(ns, ns[i].parent->0 as int) + glyph_leaf(ns[i].is_last_child)
    } else {
        Seq::empty()
    }
}

/// The glyphs collected leaf-first, concatenated outermost-first.
spec fn concat_rev(parts: Seq<&str>) -> Seq<char>
    decreases parts.len(),
{
    if parts.len() == 0 {
        Seq::empty()
    } else {
        parts.last()@ + concat_rev(parts.drop_last())
    }
}

proof fn lemma_concat_rev_peel(parts: Seq<&str>, j: int, n: int)
    requires
        0 < j <= n <= parts.len(),
    ensures
        concat_rev(parts.subrange(j - 1, n)) == concat_rev(parts.subrange(j, n)) + parts[j - 1]@,
    decreases n - j,
{
    if j == n {
        assert(parts.subrange(j - 1, n).last() == parts[j - 1]);
        assert(parts.subrange(j - 1, n).drop_last() =~= Seq::<&str>::empty());
        assert(parts.subrange(j, n) =~= Seq::<&str>::empty());
        assert(concat_rev(parts.subrange(j - 1, n)) =~= concat_rev(parts.subrange(j, n))
            + parts[j - 1]@);
    } else {
        lemma_concat_rev_peel(parts, j, n - 1);
        assert(parts.subrange(j - 1, n).last() == parts[n - 1]);
        assert(parts.subrange(j - 1, n).drop_last() =~= parts.subrange(j - 1, n - 1));
        assert(parts.subrange(j, n).last() == parts[n - 1]);
        assert(parts.subrange(j, n).drop_last() =~= parts.subrange(j, n - 1));
        assert(concat_rev(parts.subrange(j - 1, n)) =~= concat_rev(parts.subrange(j, n))
            + parts[j - 1]@);
    }
}

impl ProgressBarManager {
    /// One node of the arena, by handle.
    pub fn bar(&self, id: usize) -> (r: &ProgressBar)
        requires
            id < self@.len(),
        ensures
            *r == self@[id as int],
    {
        &self.nodes[id]
    }

    /// Computes the tree-drawing prefix of `id` by walking its parent
    /// references to the root, reversing, and concatenating the glyphs.
    pub fn prefix(&self, id: usize) -> (r: String)
        requires
            self.wf(),
            id < self@.len(),
        ensures
            r@ == spec_prefix(self@, id as int),
    {
        let ghost ns = self@;
        let mut parts: Vec<&'static str> = Vec::new();
        let mut now: usize = id;
        match self.nodes[id].parent {
            None => {
                return String::new();
            },
            Some(p) => {
                proof {
                    assert(wf_at(ns, id as int));
                }
                if self.nodes[id].is_last_child {
                    parts.push("└── ");
                } else {
                    parts.push("├── ");
                }
                now = p;
                proof {
                    assert(parts@.drop_last() =~= Seq::<&str>::empty());
                    assert(concat_rev(Seq::<&str>::empty()) == Seq::<char>::empty());
                    assert(spec_prefix(ns, id as int) =~= spec_cont(ns, now as int) + concat_rev(
                        parts@,
                    ));
                }
            },
        }
        while self.nodes[now].parent.is_some()
            invariant
                self.wf(),
                ns == self@,
                now < ns.len(),
                spec_prefix(ns, id as int) == spec_cont(ns, now as int) + concat_rev(parts@),
            decreases now,
        {
            let p = match self.nodes[now].parent {
                Some(p) => p,
                None => {
                    proof {
                        assert(false);
                    }
                    0
                },
            };
            proof {
                assert(wf_at(ns, now as int));
            }
            let ghost old_parts = parts@;
            if self.nodes[now].is_last_child {
                parts.push("    ");
            } else {
                parts.push("│   ");
            }
            proof {
                assert(parts@.drop_last() =~= old_parts);
                assert(concat_rev(parts@) =~= glyph_inner(ns[now as int].is_last_child)
                    + concat_rev(old_parts));
                assert(spec_cont(ns, now as int) == spec_cont(ns, p as int) + glyph_inner(
                    ns[now as int].is_last_child,
                ));
                assert(spec_cont(ns, p as int) + glyph_inner(ns[now as int].is_last_child)
                    + concat_rev(old_parts) =~= spec_cont(ns, p as int) + concat_rev(parts@));
            }
            now = p;
        }
        proof {
            assert(spec_cont(ns, now as int) =~= Seq::<char>::empty());
            assert(spec_prefix(ns, id as int) =~= concat_rev(parts@));
        }
        let n = parts.len();
        let mut s = String::new();
        let mut j: usize = n;
        proof {
            assert(parts@.subrange(n as int, n as int) =~= Seq::<&str>::empty());
        }
        while j > 0
            invariant
                j <= n,
                n == parts@.len(),
                s@ == concat_rev(parts@.subrange(j as int, n as int)),
            decreases j,
        {
            j = j - 1;
            s.append(parts[j]);
            proof {
                lemma_concat_rev_peel(parts@, j as int + 1, n as int);
            }
        }
        proof {
            assert(parts@.subrange(0, n as int) =~= parts@);
        }
        s
    }
}

/// The last-sibling flag is held by exactly one child of any parent that
/// still has children: the most recently added still-attached one, which is
/// the last entry of the parent's child list.
pub proof fn lemma_one_last_child(ns: Seq<ProgressBar>, p: int)
    requires
        wf_nodes(ns),
        0 <= p < ns.len(),
        ns[p].alive,
        ns[p].children@.len() > 0,
    ensures
        ns[ns[p].children@.last() as int].is_last_child,
        forall|k: int|
            0 <= k < ns[p].children@.len() - 1 ==> !ns[ns[p].children@[k] as int].is_last_child,
{
    assert(wf_at(ns, p));
    let ch = ns[p].children@;
    let lst = ch.last() as int;
    assert(wf_at(ns, lst));
    assert(ch.contains(lst as usize)) by {
        assert(ch[ch.len() - 1] == lst as usize);
    }
    assert forall|k: int| 0 <= k < ch.len() - 1 implies !ns[ch[k] as int].is_last_child by {
        let c = ch[k] as int;
        assert(wf_at(ns, c));
        assert(ch[k] < ch[ch.len() - 1]);
        assert(ch.contains(c as usize)) by {
            assert(ch[k] == c as usize);
        }
    }
}

/// Structurally identical arenas are equally well formed.
proof fn lemma_wf_same_tree(ns0: Seq<ProgressBar>, ns1: Seq<ProgressBar>)
    requires
        wf_nodes(ns0),
        ns0.len() == ns1.len(),
        forall|j: int| 0 <= j < ns0.len() ==> same_tree(ns1[j], ns0[j]),
    ensures
        wf_nodes(ns1),
{
    assert forall|i: int| 0 <= i < ns1.len() implies wf_at(ns1, i) by {
        assert(wf_at(ns0, i));
        lemma_wf_at_frame(ns0, ns1, i);
    }
}

/// What the detach phase of a removal leaves behind: `id` is dead and gone
/// from its parent's child list (entry `k`), the flag heir carries the
/// last-sibling flag, and nothing else changed.
spec fn detach_rel(ns0: Seq<ProgressBar>, nsd: Seq<ProgressBar>, id: int, k: int) -> bool {
    let p = removed_parent(ns0, id);
    let heir = flag_heir(ns0, id);
    &&& nsd.len() == ns0.len()
    &&& forall|t: int|
        0 <= t < ns0.len() ==> nsd[t].parent == ns0[t].parent && nsd[t].level == ns0[t].level
            && same_display(nsd[t], ns0[t])
    &&& forall|t: int| 0 <= t < ns0.len() && t != p ==> nsd[t].children@ == ns0[t].children@
    &&& forall|t: int|
        0 <= t < ns0.len() && t != heir ==> nsd[t].is_last_child == ns0[t].is_last_child
    &&& (heir >= 0 ==> nsd[heir].is_last_child)
    &&& forall|t: int| 0 <= t < ns0.len() && t != id ==> nsd[t].alive == ns0[t].alive
    &&& !nsd[id].alive
    &&& (p >= 0 ==> 0 <= k < ns0[p].children@.len() && ns0[p].children@[k] == id as usize && nsd[
        p].children@ == ns0[p].children@.remove(k))
}

/// One step of the kill sweep: a live node is orphaned exactly when its
/// parent chain leads into the removed subtree.
proof fn lemma_sweep_step(
    ns0: Seq<ProgressBar>,
    nsd: Seq<ProgressBar>,
    cur: Seq<ProgressBar>,
    id: int,
    j: int,
    marked: bool,
)
    requires
        wf_nodes(ns0),
        0 <= id < j < ns0.len(),
        nsd.len() == ns0.len(),
        cur.len() == ns0.len(),
        forall|t: int| 0 <= t < ns0.len() ==> nsd[t].parent == ns0[t].parent,
        forall|t: int| 0 <= t < ns0.len() ==> cur[t].parent == nsd[t].parent,
        forall|t: int| 0 <= t < ns0.len() && t != id ==> nsd[t].alive == ns0[t].alive,
        !nsd[id].alive,
        forall|t: int| 0 <= t <= id ==> cur[t].alive == nsd[t].alive,
        forall|t: int|
            #![trigger cur[t]]
            id < t < j ==> cur[t].alive == (nsd[t].alive && !in_subtree(ns0, t, id)),
        cur[j].alive == nsd[j].alive,
        cur[j].alive,
        ns0[j].parent is Some,
        marked == !cur[ns0[j].parent->0 as int].alive,
    ensures
        in_subtree(ns0, j, id) == marked,
{
    assert(wf_at(ns0, j));
    let q = ns0[j].parent->0 as int;
    assert(0 <= q < j);
    assert(ns0[j].alive);
    assert(ns0[q].alive);
    if q == id {
        assert(!cur[q].alive);
        assert(in_subtree(ns0, id, id));
        assert(in_subtree(ns0, j, id));
    } else if q < id {
        assert(cur[q].alive == ns0[q].alive);
        assert(!in_subtree(ns0, q, id));
        assert(!in_subtree(ns0, j, id));
    } else {
        assert(cur[q].alive == (nsd[q].alive && !in_subtree(ns0, q, id)));
        assert(nsd[q].alive == ns0[q].alive);
        assert(cur[q].alive == !in_subtree(ns0, q, id));
        assert(in_subtree(ns0, j, id) == in_subtree(ns0, q, id));
    }
}

/// Removing the unique entry `k` of a strictly sorted handle list removes
/// exactly that handle from the membership of the list.
proof fn lemma_remove_value_contains(ch: Seq<usize>, k: int)
    requires
        0 <= k < ch.len(),
        forall|k1: int, k2: int| 0 <= k1 < k2 < ch.len() ==> ch[k1] < ch[k2],
    ensures
        ch.remove(k).len() == ch.len() - 1,
        forall|c: usize| ch.remove(k).contains(c) <==> (ch.contains(c) && c != ch[k]),
{
    let r = ch.remove(k);
    assert forall|c: usize| r.contains(c) <==> (ch.contains(c) && c != ch[k]) by {
        if r.contains(c) {
            let t = choose|t: int| 0 <= t < r.len() && r[t] == c;
            if t < k {
                assert(ch[t] == c);
                assert(ch[t] < ch[k]);
            } else {
                assert(ch[t + 1] == c);
                assert(ch[k] < ch[t + 1]);
            }
        }
        if ch.contains(c) && c != ch[k] {
            let t = choose|t: int| 0 <= t < ch.len() && ch[t] == c;
            assert(t != k);
            if t < k {
                assert(r[t] == c);
            } else {
                assert(r[t - 1] == c);
            }
        }
    }
}

/// Removal preserves well-formedness: after the detach phase and the kill
/// sweep, every surviving node still satisfies the arena invariant.
#[verifier::rlimit(60)]
proof fn lemma_remove_wf(
    ns0: Seq<ProgressBar>,
    nsd: Seq<ProgressBar>,
    ns1: Seq<ProgressBar>,
    id: int,
    k: int,
)
    requires
        wf_nodes(ns0),
        ns0.len() <= usize::MAX,
        0 <= id < ns0.len(),
        ns0[id].alive,
        detach_rel(ns0, nsd, id, k),
        ns1.len() == ns0.len(),
        forall|t: int| 0 <= t < ns0.len() ==> same_except_alive(ns1[t], nsd[t]),
        forall|t: int|
            #![trigger ns1[t]]
            0 <= t < ns0.len() ==> ns1[t].alive == (ns0[t].alive && !in_subtree(ns0, t, id)),
    ensures
        wf_nodes(ns1),
{
    let p = removed_parent(ns0, id);
    let heir = flag_heir(ns0, id);
    assert(wf_at(ns0, id));
    assert(forall|t: int| 0 <= t < ns0.len() ==> ns1[t].parent == ns0[t].parent);
    assert(forall|t: int| 0 <= t < ns0.len() ==> ns1[t].level == ns0[t].level);
    assert(forall|t: int|
        0 <= t < ns0.len() && t != p ==> ns1[t].children@ == ns0[t].children@);
    assert(forall|t: int|
        0 <= t < ns0.len() && t != heir ==> ns1[t].is_last_child == ns0[t].is_last_child);
    if p >= 0 {
        assert(wf_at(ns0, p));
        assert(child_list_ok(ns0, p));
        lemma_remove_value_contains(ns0[p].children@, k);
        if heir >= 0 {
            assert(ns0[p].children@.contains(heir as usize)) by {
                assert(ns0[p].children@[ns0[p].children@.len() - 2] == heir as usize);
            }
            assert(ns0[heir].parent == Some(p as usize));
        }
    }
    assert forall|i: int| 0 <= i < ns1.len() implies wf_at(ns1, i) by {
        assert(wf_at(ns0, i));
        if ns1[i].parent is None {
            assert(i != heir) by {
                if heir >= 0 {
                    assert(ns0[heir].parent == Some(p as usize));
                }
            }
            assert(ns1[i].is_last_child == ns0[i].is_last_child);
        }
        if ns1[i].alive {
            assert(ns1[i].alive == (ns0[i].alive && !in_subtree(ns0, i, id)));
            assert(ns0[i].alive && !in_subtree(ns0, i, id));
            assert(i != id) by {
                assert(in_subtree(ns0, id, id));
            }
            assert(child_list_ok(ns0, i));
            let ch1 = ns1[i].children@;
            assert(child_list_ok(ns1, i)) by {
                if i == p {
                    let ch = ns0[p].children@;
                    assert(ch1 == ch.remove(k));
                    assert forall|t: int|
                        0 <= t < ch1.len() implies i < #[trigger] ch1[t] < ns1.len() && ns1[
                        ch1[t] as int].alive && ns1[ch1[t] as int].parent == Some(i as usize) by {
                        let c = ch1[t] as int;
                        let src: int = if t < k {
                            t
                        } else {
                            t + 1
                        };
                        assert(ch1[t] == ch[src]);
                        assert(ns0[c].alive && ns0[c].parent == Some(i as usize));
                        assert(c != id) by {
                            assert(src != k);
                            if src < k {
                                assert(ch[src] < ch[k]);
                            } else {
                                assert(ch[k] < ch[src]);
                            }
                        }
                        assert(!in_subtree(ns0, c, id)) by {
                            assert(id < c ==> in_subtree(ns0, c, id) == in_subtree(ns0, i, id));
                        }
                    }
                    assert forall|t1: int, t2: int|
                        0 <= t1 < t2 < ch1.len() implies ch1[t1] < ch1[t2] by {
                        let s1: int = if t1 < k {
                            t1
                        } else {
                            t1 + 1
                        };
                        let s2: int = if t2 < k {
                            t2
                        } else {
                            t2 + 1
                        };
                        assert(ch1[t1] == ch[s1]);
                        assert(ch1[t2] == ch[s2]);
                    }
                } else {
                    assert(ch1 == ns0[i].children@);
                    assert forall|t: int|
                        0 <= t < ch1.len() implies i < #[trigger] ch1[t] < ns1.len() && ns1[
                        ch1[t] as int].alive && ns1[ch1[t] as int].parent == Some(i as usize) by {
                        let c = ch1[t] as int;
                        assert(ns0[c].alive && ns0[c].parent == Some(i as usize));
                        assert(c != id) by {
                            if p >= 0 {
                                assert(ns0[id].parent == Some(p as usize));
                            }
                        }
                        assert(!in_subtree(ns0, c, id)) by {
                            assert(id < c ==> in_subtree(ns0, c, id) == in_subtree(ns0, i, id));
                        }
                    }
                }
            }
            if ns1[i].parent is Some {
                let q = ns1[i].parent->0 as int;
                assert(wf_at(ns0, q));
                assert(ns0[q].alive);
                assert(!in_subtree(ns0, q, id)) by {
                    if id < i {
                        assert(in_subtree(ns0, i, id) == in_subtree(ns0, q, id));
                    }
                }
                assert(ns1[q].alive);
                assert(ns1[i].level == ns1[q].level + 1);
                if q == p {
                    let ch = ns0[p].children@;
                    let ch1 = ns1[p].children@;
                    assert(ns1[p].children@ == nsd[p].children@);
                    assert(ch1 == ch.remove(k));
                    assert(ns1[i].parent == ns0[i].parent);
                    assert(ns0[i].parent == Some(q as usize));
                    assert(ch.contains(i as usize));
                    assert(i as usize as int == i);
                    assert(ch1.contains(i as usize));
                    let ti = choose|t: int| 0 <= t < ch1.len() && ch1[t] == i as usize;
                    if heir >= 0 {
                        assert(ch.last() == id as usize);
                        assert(k == ch.len() - 1) by {
                            if k < ch.len() - 1 {
                                assert(ch[k] < ch[ch.len() - 1]);
                            }
                        }
                        assert(ch1.len() == ch.len() - 1);
                        assert(ch1.last() == ch[ch.len() - 2]) by {
                            assert(ch1[ch1.len() - 1] == ch[ch.len() - 2]);
                        }
                        assert(ch1.last() == heir as usize);
                        if i == heir {
                            assert(ns1[i].is_last_child);
                            assert(ch1.last() == i as usize);
                        } else {
                            assert(ns1[i].is_last_child == ns0[i].is_last_child);
                            assert(ns0[i].is_last_child <==> ch.last() == i as usize);
                            assert(ch.last() == id as usize && i != id);
                            assert(!ns1[i].is_last_child);
                            assert(ch1[ti] == i as usize);
                            assert(ch1.last() != i as usize) by {
                                assert(heir != i);
                            }
                        }
                    } else {
                        assert(i != heir);
                        assert(ns1[i].is_last_child == ns0[i].is_last_child);
                        if ch.len() == 1 {
                            assert(ch[0] == ch[k]);
                            assert(ch[k] == id as usize);
                            assert(false);
                        }
                        assert(ch.last() != id as usize) by {
                            if ch.len() > 1 && ch.last() == id as usize {
                                assert(flag_heir(ns0, id) == ch[ch.len() - 2] as int);
                                assert(ch[ch.len() - 2] >= 0);
                            }
                        }
                        assert(k < ch.len() - 1) by {
                            assert(ch[k] == id as usize);
                        }
                        assert(ch1.last() == ch.last()) by {
                            assert(ch1[ch1.len() - 1] == ch[ch.len() - 1]);
                        }
                        assert(ns0[i].is_last_child <==> ch.last() == i as usize);
                        assert(ns1[i].is_last_child <==> ch1.last() == i as usize);
                    }
                } else {
                    assert(ns1[q].children@ == ns0[q].children@);
                    assert(i != heir) by {
                        if heir >= 0 {
                            assert(ns0[heir].parent == Some(p as usize));
                            assert(ns1[i].parent == ns0[i].parent);
                        }
                    }
                    assert(ns1[i].is_last_child == ns0[i].is_last_child);
                    assert(ns0[q].children@.contains(i as usize));
                }
            }
        }
    }
}

/// Unchanged tree structure preserves well-formedness node by node.
proof fn lemma_wf_at_frame(ns0: Seq<ProgressBar>, ns1: Seq<ProgressBar>, i: int)
    requires
        0 <= i < ns0.len(),
        ns0.len() <= ns1.len(),
        wf_at(ns0, i),
        forall|j: int| 0 <= j < ns0.len() ==> same_tree(ns1[j], ns0[j]),
    ensures
        wf_at(ns1, i),
{
    assert(same_tree(ns1[i], ns0[i]));
    if ns1[i].alive && ns1[i].parent is Some {
        let p = ns1[i].parent->0 as int;
        assert(same_tree(ns1[p], ns0[p]));
    }
    if ns1[i].alive {
        assert(child_list_ok(ns1, i)) by {
            assert(ns1[i].children@ == ns0[i].children@);
            assert forall|k: int| 0 <= k < ns1[i].children@.len()
                implies i < #[trigger] ns1[i].children@[k] < ns1.len()
                    && ns1[ns1[i].children@[k] as int].alive
                    && ns1[ns1[i].children@[k] as int].parent == Some(i as usize) by {
                assert(same_tree(ns1[ns0[i].children@[k] as int], ns0[ns0[i].children@[k] as int]));
            }
        }
    }
}

} // verus!
