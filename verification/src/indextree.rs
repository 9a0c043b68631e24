//! An append-only forest of handlers.
//!
//! Widgets render depth first: a leaf pushes its handler, and each container
//! around it pushes its own afterwards. A push makes the new node the parent
//! of every root that is open at that moment, so that the chain of parents of
//! a node lists the handlers of the widgets around it from the innermost to
//! the outermost. That chain is the order in which an event is offered to
//! them.

use vstd::prelude::*;
use vstd::std_specs::iter::IteratorSpec;
use std::collections::{HashMap, HashSet};
use crate::Name;

verus! {

/// The indices from node `i` up to its root in a forest given by the parent
/// of each node.
pub open spec fn chain(parents: Seq<Option<int>>, i: int) -> Seq<int>
    decreases parents.len() - i,
{
    if 0 <= i < parents.len() {
        match parents[i] {
            Some(p) => if i < p < parents.len() {
                seq![i] + chain(parents, p)
            } else {
                seq![i]
            },
            None => seq![i],
        }
    } else {
        Seq::empty()
    }
}

/// The last index at which `names` holds `name`.
pub open spec fn last_named(names: Seq<Option<Name>>, name: Name) -> Option<int>
    decreases names.len(),
{
    if names.len() == 0 {
        None
    } else if names.last() == Some(name) {
        Some(names.len() - 1)
    } else {
        last_named(names.drop_last(), name)
    }
}

/// What a forest holds: for each node its item, its parent and the name it was
/// pushed under.
pub struct TreeView<I> {
    pub items: Seq<I>,
    pub parents: Seq<Option<int>>,
    pub names: Seq<Option<Name>>,
}

impl<I> TreeView<I> {
    pub open spec fn len(self) -> nat {
        self.items.len()
    }

    /// The three sequences run in parallel, and every parent comes after its
    /// children.
    pub open spec fn wf(self) -> bool {
        &&& self.parents.len() == self.items.len()
        &&& self.names.len() == self.items.len()
        &&& forall|i: int|
            0 <= i < self.parents.len() ==> (#[trigger] self.parents[i] matches Some(p) ==> i < p
                < self.parents.len())
    }

    pub open spec fn empty() -> TreeView<I> {
        TreeView { items: Seq::empty(), parents: Seq::empty(), names: Seq::empty() }
    }

    /// The node that `name` stands for: the last one pushed under it.
    pub open spec fn lookup(self, name: Name) -> Option<int> {
        last_named(self.names, name)
    }

    /// The items of the nodes `indices`.
    pub open spec fn items_at(self, indices: Seq<int>) -> Seq<I> {
        indices.map_values(|i: int| self.items[i])
    }

    /// The items from node `i` up to its root; nothing where there is no such
    /// node.
    pub open spec fn ancestry(self, i: int) -> Seq<I> {
        self.items_at(chain(self.parents, i))
    }

    /// The items that an event for `name` is offered to, innermost first.
    pub open spec fn handlers(self, name: Name) -> Seq<I> {
        match self.lookup(name) {
            Some(i) => self.ancestry(i),
            None => Seq::empty(),
        }
    }

    /// The forest after a push: the new node comes last, is a root, and is
    /// the parent of every node that was a root.
    pub open spec fn pushed(self, name: Option<Name>, item: I) -> TreeView<I> {
        TreeView {
            items: self.items.push(item),
            parents: self.parents.map_values(
                |p: Option<int>|
                    match p {
                        Some(q) => Some(q),
                        None => Some(self.items.len() as int),
                    },
            ).push(None),
            names: self.names.push(name),
        }
    }

    /// The forest after `other` was spliced in behind it: the nodes of
    /// `other` keep their order and their links, renumbered by the length of
    /// `self`.
    pub open spec fn appended(self, other: TreeView<I>) -> TreeView<I> {
        TreeView {
            items: self.items + other.items,
            parents: self.parents + other.parents.map_values(
                |p: Option<int>|
                    match p {
                        Some(q) => Some(q + self.items.len()),
                        None => None,
                    },
            ),
            names: self.names + other.names,
        }
    }

    /// A push keeps the forest well formed.
    pub proof fn lemma_pushed_wf(self, name: Option<Name>, item: I)
        requires
            self.wf(),
        ensures
            self.pushed(name, item).wf(),
    {
    }

    /// A splice keeps the forest well formed.
    pub proof fn lemma_appended_wf(self, other: TreeView<I>)
        requires
            self.wf(),
            other.wf(),
        ensures
            self.appended(other).wf(),
    {
        let joined = self.appended(other);
        assert forall|i: int| 0 <= i < joined.parents.len() implies (
        #[trigger] joined.parents[i] matches Some(p) ==> i < p < joined.parents.len()) by {
            if i >= self.parents.len() {
                let j = i - self.parents.len();
                assert(other.parents[j] matches Some(q) ==> j < q < other.parents.len());
            }
        }
    }

    /// After a push the chain of every earlier node is what it was, with the
    /// new node at its end; the chain of the new node is that node alone.
    pub proof fn lemma_pushed_chain(self, name: Option<Name>, item: I, i: int)
        requires
            self.wf(),
            0 <= i <= self.len(),
        ensures
            chain(self.pushed(name, item).parents, i) == if i < self.len() {
                chain(self.parents, i).push(self.len() as int)
            } else {
                seq![i]
            },
        decreases self.len() - i,
    {
        let after = self.pushed(name, item).parents;
        let n = self.len() as int;
        assert(after.len() == n + 1);
        assert(after[n] is None);
        assert(chain(after, n) =~= seq![n]);
        if i < n {
            match self.parents[i] {
                Some(p) => {
                    assert(after[i] == Some(p));
                    self.lemma_pushed_chain(name, item, p);
                    assert(chain(after, i) =~= chain(self.parents, i).push(n));
                },
                None => {
                    assert(after[i] == Some(n));
                    assert(chain(after, i) =~= chain(self.parents, i).push(n));
                },
            }
        }
    }

    /// After a splice the chain of a node of `self` is what it was.
    pub proof fn lemma_appended_chain_left(self, other: TreeView<I>, i: int)
        requires
            self.wf(),
            other.wf(),
            0 <= i < self.len(),
        ensures
            chain(self.appended(other).parents, i) == chain(self.parents, i),
        decreases self.len() - i,
    {
        let after = self.appended(other).parents;
        assert(after[i] == self.parents[i]);
        match self.parents[i] {
            Some(p) => {
                self.lemma_appended_chain_left(other, p);
            },
            None => {},
        }
    }

    /// After a splice the chain of a node of `other` is what it was,
    /// renumbered.
    pub proof fn lemma_appended_chain_right(self, other: TreeView<I>, j: int)
        requires
            self.wf(),
            other.wf(),
            0 <= j < other.len(),
        ensures
            chain(self.appended(other).parents, self.len() + j) == chain(
                other.parents,
                j,
            ).map_values(|k: int| k + self.len()),
        decreases other.len() - j,
    {
        let after = self.appended(other).parents;
        let n = self.len() as int;
        let shift = |k: int| k + n;
        match other.parents[j] {
            Some(q) => {
                assert(after[n + j] == Some(q + n));
                self.lemma_appended_chain_right(other, q);
                assert(chain(after, n + j) =~= chain(other.parents, j).map_values(shift));
            },
            None => {
                assert(after[n + j] is None);
                assert(chain(after, n + j) =~= chain(other.parents, j).map_values(shift));
            },
        }
    }

    /// Every index on a chain is a node of the forest.
    pub proof fn lemma_chain_in_range(self, i: int)
        requires
            self.wf(),
        ensures
            forall|k: int|
                0 <= k < chain(self.parents, i).len() ==> 0 <= #[trigger] chain(
                    self.parents,
                    i,
                )[k] < self.len(),
            0 <= i < self.len() ==> chain(self.parents, i).len() > 0 && chain(self.parents, i)[0]
                == i,
            chain(self.parents, i).len() <= self.len(),
        decreases self.len() - i,
    {
        if 0 <= i < self.len() {
            match self.parents[i] {
                Some(p) => {
                    self.lemma_chain_in_range(p);
                    self.lemma_chain_bound(p);
                },
                None => {},
            }
        }
    }

    /// A chain from node `i` has no more nodes than the forest has from `i`
    /// on.
    pub proof fn lemma_chain_bound(self, i: int)
        requires
            self.wf(),
            0 <= i,
        ensures
            chain(self.parents, i).len() <= if i < self.len() {
                self.len() - i
            } else {
                0
            },
        decreases self.len() - i,
    {
        if 0 <= i < self.len() {
            match self.parents[i] {
                Some(p) => {
                    self.lemma_chain_bound(p);
                },
                None => {},
            }
        }
    }

    /// Of a widget pushed under `name` and a container pushed
    /// right after it under another name, an event for `name` reaches the
    /// widget's item first and the container's second, and nothing else.
    pub proof fn lemma_inner_before_outer(
        self,
        name: Name,
        inner: I,
        container: Option<Name>,
        outer: I,
    )
        requires
            self.wf(),
            container != Some(name),
        ensures
            self.pushed(Some(name), inner).pushed(container, outer).handlers(name) == seq![
                inner,
                outer,
            ],
    {
        let one = self.pushed(Some(name), inner);
        let two = one.pushed(container, outer);
        let n = self.len() as int;
        self.lemma_pushed_wf(Some(name), inner);
        assert(one.names.drop_last() =~= self.names);
        assert(two.names.drop_last() =~= one.names);
        assert(last_named(one.names, name) == Some(n));
        assert(two.lookup(name) == Some(n));
        self.lemma_pushed_chain(Some(name), inner, n);
        one.lemma_pushed_chain(container, outer, n);
        assert(chain(two.parents, n) =~= seq![n, n + 1]);
        assert(two.handlers(name) =~= seq![inner, outer]);
    }
}

/// A parent as the forest's view holds it.
pub open spec fn parent_view(parent: Option<usize>) -> Option<int> {
    match parent {
        Some(p) => Some(p as int),
        None => None,
    }
}

/// The parents of a forest as its view holds them.
pub open spec fn parents_view(parents: Seq<Option<usize>>) -> Seq<Option<int>> {
    parents.map_values(|p: Option<usize>| parent_view(p))
}

/// The iterator of the standard library over the items of a slice that
/// lets each be changed.
#[verifier::external_type_specification]
#[verifier::external_body]
#[verifier::reject_recursive_types(I)]
pub struct ExIterMut<'a, I: 'a>(std::slice::IterMut<'a, I>);

/// An append-only forest of items, some of them reachable by a name.
pub struct IndexTree<I> {
    named: HashMap<Name, usize>,
    roots: HashSet<usize>,
    items: Vec<I>,
    parents: Vec<Option<usize>>,
    names: Vec<Option<Name>>,
}

impl<I> View for IndexTree<I> {
    type V = TreeView<I>;

    closed spec fn view(&self) -> TreeView<I> {
        TreeView { items: self.items@, parents: parents_view(self.parents@), names: self.names@ }
    }
}

impl<I> IndexTree<I> {
    /// The forest is well formed, the map from names to nodes agrees with the
    /// names of the nodes, and the open roots are the nodes without a parent.
    pub closed spec fn wf(&self) -> bool {
        &&& self@.wf()
        &&& forall|name: Name| #[trigger]
            self.named@.contains_key(name) <==> last_named(self.names@, name) is Some
        &&& forall|name: Name| #[trigger]
            self.named@.contains_key(name) ==> last_named(self.names@, name) == Some(
                self.named@[name] as int,
            )
        &&& forall|root: usize| #[trigger]
            self.roots@.contains(root) ==> root < self.parents@.len()
                && self.parents@[root as int] is None
        &&& forall|i: int|
            0 <= i < self.parents@.len() && (#[trigger] self.parents@[i]) is None
                ==> self.roots@.contains(i as usize)
    }

    /// A well-formed tree has a well-formed forest.
    pub proof fn lemma_wf_view(&self)
        requires
            self.wf(),
        ensures
            self@.wf(),
    {
    }

    pub fn new() -> (tree: Self)
        ensures
            tree.wf(),
            tree@ == TreeView::<I>::empty(),
    {
        let named = HashMap::new();
        let roots = HashSet::new();
        let items = Vec::new();
        let parents = Vec::new();
        let names = Vec::new();
        let tree = IndexTree { named, roots, items, parents, names };
        proof {
            assert(tree@.parents =~= Seq::<Option<int>>::empty());
            assert(tree@ == TreeView::<I>::empty());
        }
        tree
    }

    /// Every item, in the order in which they were pushed, to change
    /// them in place.
    ///
    /// This hands out `iter_mut` of the items of the standard vector, and
    /// nothing of it is proved. What is claimed: whatever is done through
    /// the iterator, the tree keeps its nodes, their links and their names.
    #[verifier::external_body]
    pub fn iter_all_mut(&mut self) -> (items: std::slice::IterMut<'_, I>)
        ensures
            final(self)@.items.len() == old(self)@.items.len(),
            final(self)@.parents == old(self)@.parents,
            final(self)@.names == old(self)@.names,
            old(self).wf() ==> final(self).wf(),
    {
        self.items.iter_mut()
    }

    /// The number of nodes.
    pub fn len(&self) -> (len: usize)
        ensures
            len == self@.len(),
    {
        self.items.len()
    }

    /// Adds a node above every open root and returns its index. Where `name`
    /// is given, the name stands for the new node from now on, also if it
    /// stood for another before.
    #[verifier::rlimit(40)]
    pub fn push(&mut self, name: Option<Name>, item: I) -> (idx: usize)
        requires
            old(self).wf(),
        ensures
            final(self).wf(),
            final(self)@ == old(self)@.pushed(name, item),
            idx == old(self)@.len(),
    {
        broadcast use vstd::std_specs::hash::group_hash_axioms;

        let ghost before = *self;
        let idx = self.items.len();
        self.items.push(item);
        self.parents.push(None);
        self.names.push(name);
        proof {
            assert(self.names@.drop_last() =~= before.names@);
        }
        if let Some(name) = name {
            self.named.insert(name, idx);
        }
        let open = self.roots.iter();
        let ghost order = open.remaining().unref();
        proof {
            vstd::std_specs::hash::axiom_spec_hash_keys_iter(&self.roots);
            assert forall|j: int| 0 <= j < order.len() implies before.roots@.contains(
                #[trigger] order[j],
            ) by {
                assert(order.to_set().contains(order[j]));
            }
        }
        for root in it: open
            invariant
                it.seq().unref() == order,
                order.to_set() == before.roots@,
                forall|j: int| 0 <= j < order.len() ==> before.roots@.contains(#[trigger] order[j]),
                self.roots@ == before.roots@,
                self.items@ == before.items@.push(item),
                self.names@ == before.names@.push(name),
                self.named@ == (match name {
                    Some(name) => before.named@.insert(name, idx),
                    None => before.named@,
                }),
                idx == before.parents@.len(),
                before.wf(),
                self.parents@.len() == idx + 1,
                self.parents@[idx as int] is None,
                forall|i: int|
                    0 <= i < idx ==> #[trigger] self.parents@[i] == (if before.parents@[i] is None
                        && exists|j: int| 0 <= j < it.index() && order[j] == i {
                        Some(idx)
                    } else {
                        before.parents@[i]
                    }),
        {
            let ghost k = it.index() as int;
            let root = *root;
            let ghost was = self.parents@;
            proof {
                assert(order[k] == root);
                assert(before.roots@.contains(order[k]));
            }
            self.parents[root] = Some(idx);
            proof {
                assert forall|i: int| 0 <= i < idx implies #[trigger] self.parents@[i] == (
                if before.parents@[i] is None && exists|j: int| 0 <= j < k + 1 && order[j] == i {
                    Some(idx)
                } else {
                    before.parents@[i]
                }) by {
                    if i == root {
                        assert(order[k] == i);
                    } else {
                        assert(self.parents@[i] == was[i]);
                        if before.parents@[i] is None && exists|j: int|
                            0 <= j < k + 1 && order[j] == i {
                            let j = choose|j: int| 0 <= j < k + 1 && order[j] == i;
                            assert(j < k);
                        }
                    }
                }
            }
        }
        self.roots.clear();
        self.roots.insert(idx);
        proof {
            let goal = before@.pushed(name, item);
            assert(self@.parents =~= goal.parents) by {
                assert forall|i: int| 0 <= i < idx + 1 implies self@.parents[i]
                    == goal.parents[i] by {
                    if i < idx {
                        if before.parents@[i] is None {
                            assert(before.roots@.contains(i as usize));
                            assert(order.to_set().contains(i as usize));
                            let j = choose|j: int| 0 <= j < order.len() && order[j] == i as usize;
                            assert(0 <= j < order.len() && order[j] == i);
                        }
                    }
                }
            }
            assert(self@ == goal);
            before@.lemma_pushed_wf(name, item);
            assert forall|i: int|
                0 <= i < self.parents@.len() && (#[trigger] self.parents@[i]) is None
                    implies self.roots@.contains(i as usize) by {
                assert(self@.parents[i] is None);
                assert(i == idx);
                assert(self.roots@.contains(idx));
            }
            assert forall|other: Name| #[trigger]
                self.named@.contains_key(other) <==> last_named(self.names@, other) is Some by {
                assert(before.named@.contains_key(other) <==> last_named(before.names@, other)
                    is Some);
            }
            assert forall|other: Name| #[trigger]
                self.named@.contains_key(other) implies last_named(self.names@, other) == Some(
                self.named@[other] as int,
            ) by {
                if name != Some(other) {
                    assert(before.named@.contains_key(other));
                }
            }
        }
        idx
    }

    /// Moves the nodes of `other` behind those of `self`, keeping their order
    /// and their links, and returns the number by which they were
    /// renumbered. A name that both trees know stands for the node of
    /// `other` afterwards. `other` is left empty.
    #[verifier::rlimit(40)]
    pub fn append(&mut self, other: &mut Self) -> (offset: usize)
        requires
            old(self).wf(),
            old(other).wf(),
            old(self)@.len() + old(other)@.len() <= usize::MAX,
        ensures
            final(self).wf(),
            final(self)@ == old(self)@.appended(old(other)@),
            offset == old(self)@.len(),
            final(other).wf(),
            final(other)@ == TreeView::<I>::empty(),
    {
        broadcast use vstd::std_specs::hash::group_hash_axioms;

        let ghost left = *self;
        let ghost right = *other;
        let offset = self.items.len();
        let count = other.items.len();
        self.items.append(&mut other.items);
        let mut j: usize = 0;
        while j < count
            invariant
                j <= count,
                count == right.items@.len(),
                offset == left.items@.len(),
                offset + count <= usize::MAX,
                left.wf(),
                right.wf(),
                other.parents@ == right.parents@,
                other.names@ == right.names@,
                self.roots@ == left.roots@,
                other.roots@ == right.roots@,
                self.items@ == left.items@ + right.items@,
                other.items@.len() == 0,
                self.parents@ == left.parents@ + right.parents@.take(j as int).map_values(
                    |p: Option<usize>|
                        match p {
                            Some(q) => Some((q + offset) as usize),
                            None => None,
                        },
                ),
                self.names@ == left.names@ + right.names@.take(j as int),
                forall|name: Name| #[trigger]
                    self.named@.contains_key(name) <==> last_named(self.names@, name) is Some,
                forall|name: Name| #[trigger]
                    self.named@.contains_key(name) ==> last_named(self.names@, name) == Some(
                        self.named@[name] as int,
                    ),
            decreases count - j,
        {
            let ghost names_before = self.names@;
            let ghost named_before = self.named@;
            let ghost parents_before = self.parents@;
            let parent = match other.parents[j] {
                Some(q) => {
                    assert(right@.parents[j as int] == Some(q as int));
                    Some(q + offset)
                },
                None => None,
            };
            self.parents.push(parent);
            let name = other.names[j];
            self.names.push(name);
            if let Some(name) = name {
                self.named.insert(name, offset + j);
            }
            proof {
                let shift = |p: Option<usize>|
                    match p {
                        Some(q) => Some((q + offset) as usize),
                        None => None,
                    };
                assert(right.parents@.take(j + 1) =~= right.parents@.take(j as int).push(
                    right.parents@[j as int],
                ));
                assert(right.parents@.take(j + 1).map_values(shift) =~= right.parents@.take(
                    j as int,
                ).map_values(shift).push(parent));
                assert(self.parents@ =~= left.parents@ + right.parents@.take(j + 1).map_values(
                    shift,
                ));
                assert(right.names@.take(j + 1) =~= right.names@.take(j as int).push(name));
                assert(self.names@ =~= left.names@ + right.names@.take(j + 1));
                assert(self.names@.drop_last() =~= names_before);
                assert(self.names@.len() == offset + j + 1);
                assert forall|other_name: Name| #[trigger]
                    self.named@.contains_key(other_name) <==> last_named(self.names@, other_name)
                        is Some by {
                    assert(named_before.contains_key(other_name) <==> last_named(
                        names_before,
                        other_name,
                    ) is Some);
                }
                assert forall|other_name: Name| #[trigger]
                    self.named@.contains_key(other_name) implies last_named(
                    self.names@,
                    other_name,
                ) == Some(self.named@[other_name] as int) by {
                    if name != Some(other_name) {
                        assert(named_before.contains_key(other_name));
                    }
                }
            }
            j = j + 1;
        }
        proof {
            assert(right.parents@.take(count as int) =~= right.parents@);
            assert(right.names@.take(count as int) =~= right.names@);
        }
        let open = other.roots.iter();
        let ghost order = open.remaining().unref();
        proof {
            vstd::std_specs::hash::axiom_spec_hash_keys_iter(&other.roots);
            assert forall|j: int| 0 <= j < order.len() implies right.roots@.contains(
                #[trigger] order[j],
            ) by {
                assert(order.to_set().contains(order[j]));
            }
        }
        for root in it: open
            invariant
                it.seq().unref() == order,
                order.to_set() == right.roots@,
                forall|j: int| 0 <= j < order.len() ==> right.roots@.contains(#[trigger] order[j]),
                other.roots@ == right.roots@,
                right.wf(),
                left.wf(),
                offset == left.items@.len(),
                offset + right.items@.len() <= usize::MAX,
                forall|r: usize| #[trigger]
                    self.roots@.contains(r) <==> left.roots@.contains(r) || exists|j: int|
                        0 <= j < it.index() && order[j] + offset == r,
                self.items@ == left.items@ + right.items@,
                other.items@.len() == 0,
                self.parents@ == left.parents@ + right.parents@.map_values(
                    |p: Option<usize>|
                        match p {
                            Some(q) => Some((q + offset) as usize),
                            None => None,
                        },
                ),
                self.names@ == left.names@ + right.names@,
                forall|name: Name| #[trigger]
                    self.named@.contains_key(name) <==> last_named(self.names@, name) is Some,
                forall|name: Name| #[trigger]
                    self.named@.contains_key(name) ==> last_named(self.names@, name) == Some(
                        self.named@[name] as int,
                    ),
        {
            let ghost k = it.index() as int;
            let ghost had = self.roots@;
            proof {
                assert(order[k] == *root);
                assert(right.roots@.contains(order[k]));
                right.lemma_wf_view();
            }
            self.roots.insert(*root + offset);
            proof {
                assert forall|r: usize| #[trigger]
                    self.roots@.contains(r) <==> left.roots@.contains(r) || exists|j: int|
                        0 <= j < k + 1 && order[j] + offset == r by {
                    if had.contains(r) && !left.roots@.contains(r) {
                        let j = choose|j: int| 0 <= j < k && order[j] + offset == r;
                        assert(0 <= j < k + 1 && order[j] + offset == r);
                    }
                    if r == *root + offset {
                        assert(order[k] + offset == r);
                    }
                    if exists|j: int| 0 <= j < k + 1 && order[j] + offset == r {
                        let j = choose|j: int| 0 <= j < k + 1 && order[j] + offset == r;
                        if j < k {
                            assert(had.contains(r));
                        }
                    }
                }
            }
        }
        other.parents.clear();
        other.names.clear();
        other.roots.clear();
        other.named.clear();
        proof {
            let shift = |p: Option<usize>|
                match p {
                    Some(q) => Some((q + offset) as usize),
                    None => None,
                };
            let goal = left@.appended(right@);
            assert(right.parents@.take(count as int) =~= right.parents@);
            assert(right.names@.take(count as int) =~= right.names@);
            assert(self@.parents =~= goal.parents) by {
                assert forall|i: int| 0 <= i < offset + count implies self@.parents[i]
                    == goal.parents[i] by {
                    if i >= offset {
                        let q = right.parents@[i - offset];
                        assert(right@.parents[i - offset] == parents_view(right.parents@)[i
                            - offset]);
                        assert(self.parents@[i] == shift(q));
                        if q is Some {
                            assert(right@.parents[i - offset] == Some(q->0 as int));
                        }
                    } else {
                        assert(self.parents@[i] == left.parents@[i]);
                    }
                }
            }
            assert(self@.names =~= goal.names);
            assert(self@ == goal);
            left@.lemma_appended_wf(right@);
            assert forall|r: usize| #[trigger] self.roots@.contains(r) implies r
                < self.parents@.len() && self.parents@[r as int] is None by {
                if left.roots@.contains(r) {
                    assert(self.parents@[r as int] == left.parents@[r as int]);
                } else {
                    let j = choose|j: int| 0 <= j < order.len() && order[j] + offset == r;
                    assert(right.roots@.contains(order[j]));
                    assert(right.parents@[order[j] as int] is None);
                    assert(self.parents@[r as int] == shift(right.parents@[order[j] as int]));
                }
            }
            assert forall|i: int|
                0 <= i < self.parents@.len() && (#[trigger] self.parents@[i]) is None
                    implies self.roots@.contains(i as usize) by {
                if i >= offset {
                    assert(self.parents@[i] == shift(right.parents@[i - offset]));
                    assert(right.parents@[i - offset] is None);
                    assert(right.roots@.contains((i - offset) as usize));
                    assert(order.to_set().contains((i - offset) as usize));
                    let s = choose|s: int| 0 <= s < order.len() && order[s] == (i - offset) as usize;
                    assert(0 <= s < order.len() && order[s] + offset == i as usize);
                } else {
                    assert(self.parents@[i] == left.parents@[i]);
                    assert(left.roots@.contains(i as usize));
                }
            }
            assert(other@.parents =~= Seq::<Option<int>>::empty());
            assert(other@ == TreeView::<I>::empty());
        }
        offset
    }

    /// Replaces every item by what `f` makes of it; the links and the names
    /// stay.
    pub fn map<X, F: Fn(I) -> X>(self, f: F) -> (mapped: IndexTree<X>)
        requires
            self.wf(),
            forall|i: int| 0 <= i < self@.len() ==> call_requires(f, (#[trigger] self@.items[i],)),
        ensures
            mapped.wf(),
            mapped@.parents == self@.parents,
            mapped@.names == self@.names,
            mapped@.items.len() == self@.items.len(),
            forall|i: int|
                0 <= i < self@.len() ==> call_ensures(
                    f,
                    (self@.items[i],),
                    #[trigger] mapped@.items[i],
                ),
    {
        let named = self.named;
        let roots = self.roots;
        let items = self.items;
        let parents = self.parents;
        let names = self.names;
        let ghost given = items@;
        let mut mapped_items: Vec<X> = Vec::new();
        for item in it: items
            invariant
                it.seq() == given,
                mapped_items@.len() == it.index(),
                forall|i: int| 0 <= i < given.len() ==> call_requires(f, (#[trigger] given[i],)),
                forall|i: int|
                    0 <= i < mapped_items@.len() ==> call_ensures(
                        f,
                        (given[i],),
                        #[trigger] mapped_items@[i],
                    ),
        {
            mapped_items.push(f(item));
        }
        IndexTree { named, roots, items: mapped_items, parents, names }
    }

    /// The parent and the item of the node that `name` stands for.
    pub fn _get(&self, name: &Name) -> (found: Option<(Option<usize>, &I)>)
        requires
            self.wf(),
        ensures
            match self@.lookup(*name) {
                Some(i) => (found matches Some((parent, item)) && *item == self@.items[i]
                    && parent_view(parent) == self@.parents[i]),
                None => found is None,
            },
    {
        broadcast use vstd::std_specs::hash::group_hash_axioms;

        match self.named.get(name) {
            Some(idx) => {
                let idx = *idx;
                proof {
                    assert(self.named@.contains_key(*name));
                    lemma_last_named_in_range(self.names@, *name);
                }
                Some((self.parents[idx], &self.items[idx]))
            },
            None => {
                assert(!self.named@.contains_key(*name));
                None
            },
        }
    }

    /// The parent and the item of node `idx`.
    pub fn _get_idx(&self, idx: usize) -> (found: Option<(Option<usize>, &I)>)
        requires
            self.wf(),
        ensures
            idx < self@.len() ==> (found matches Some((parent, item)) && *item
                == self@.items[idx as int] && parent_view(parent) == self@.parents[idx as int]),
            idx >= self@.len() ==> found is None,
    {
        if idx >= self.items.len() {
            return None;
        }
        Some((self.parents[idx], &self.items[idx]))
    }

    /// The items that an event for `name` is offered to, innermost first.
    /// A name that the tree does not know gives nothing.
    pub fn get_iter(&self, name: &Name) -> (iter: TreeIter<'_, I>)
        requires
            self.wf(),
        ensures
            iter.wf(),
            iter.remaining() == self@.handlers(*name),
    {
        broadcast use vstd::std_specs::hash::group_hash_axioms;

        let idx = match self.named.get(name) {
            Some(idx) => {
                proof {
                    assert(self.named@.contains_key(*name));
                    lemma_last_named_in_range(self.names@, *name);
                }
                Some(*idx)
            },
            None => {
                assert(!self.named@.contains_key(*name));
                None
            },
        };
        TreeIter { items: &self.items, parents: &self.parents, idx }
    }

    /// The items from node `idx` up to its root. An index past the last node
    /// gives nothing.
    pub fn get_iter_idx(&self, idx: usize) -> (iter: TreeIter<'_, I>)
        requires
            self.wf(),
        ensures
            iter.wf(),
            iter.remaining() == self@.ancestry(idx as int),
    {
        let idx = if idx >= self.items.len() {
            None
        } else {
            Some(idx)
        };
        TreeIter { items: &self.items, parents: &self.parents, idx }
    }
}

impl<I> Default for IndexTree<I> {
    fn default() -> (tree: Self)
        ensures
            tree.wf(),
            tree@ == TreeView::<I>::empty(),
    {
        Self::new()
    }
}

/// A name that is found is found at an index of the sequence.
pub proof fn lemma_last_named_in_range(names: Seq<Option<Name>>, name: Name)
    ensures
        last_named(names, name) matches Some(i) ==> 0 <= i < names.len() && names[i] == Some(name),
    decreases names.len(),
{
    if names.len() > 0 && names.last() != Some(name) {
        lemma_last_named_in_range(names.drop_last(), name);
    }
}

/// A walk from a node of an [`IndexTree`] up to its root.
pub struct TreeIter<'a, I> {
    items: &'a Vec<I>,
    parents: &'a Vec<Option<usize>>,
    idx: Option<usize>,
}

impl<'a, I> TreeIter<'a, I> {
    /// The walk runs over a well-formed forest and stands at one of its
    /// nodes, or at its end.
    pub closed spec fn wf(self) -> bool {
        &&& (TreeView::<I> {
            items: self.items@,
            parents: parents_view(self.parents@),
            names: Seq::new(self.items@.len(), |i: int| None),
        }).wf()
        &&& self.idx matches Some(i) ==> i < self.items@.len()
    }

    /// The items still to come, in the order in which they come.
    pub closed spec fn remaining(self) -> Seq<I> {
        match self.idx {
            Some(i) => chain(parents_view(self.parents@), i as int).map_values(
                |k: int| self.items@[k],
            ),
            None => Seq::empty(),
        }
    }

    /// The next item on the way to the root.
    pub fn next(&mut self) -> (item: Option<&'a I>)
        requires
            old(self).wf(),
        ensures
            final(self).wf(),
            old(self).remaining().len() == 0 ==> item is None && final(self).remaining().len()
                == 0,
            old(self).remaining().len() > 0 ==> (item matches Some(first) && *first == old(self).remaining()[0]) && final(self).remaining() == old(self).remaining().drop_first(),
    {
        let idx = match self.idx {
            Some(i) => i,
            None => {
                return None;
            },
        };
        let item = &self.items[idx];
        let ghost parents = parents_view(self.parents@);
        let ghost before = self.remaining();
        self.idx = self.parents[idx];
        proof {
            let pick = |k: int| self.items@[k];
            assert(parents[idx as int] matches Some(p) ==> idx < p < parents.len());
            match self.parents@[idx as int] {
                Some(p) => {
                    assert(parents[idx as int] == Some(p as int));
                    assert(chain(parents, idx as int) =~= seq![idx as int] + chain(
                        parents,
                        p as int,
                    ));
                    assert(before.drop_first() =~= chain(parents, p as int).map_values(pick));
                },
                None => {
                    assert(parents[idx as int] is None);
                    assert(chain(parents, idx as int) =~= seq![idx as int]);
                    assert(before.drop_first() =~= Seq::<I>::empty());
                },
            }
        }
        Some(item)
    }
}

} // verus!
