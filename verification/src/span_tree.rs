//! Reconstruction of the causal tree of a trace from its flat list of spans.

use nonempty::NonEmpty;
use crate::grouping::Keyed;
use crate::grouping::group_by_parent;
use crate::grouping::group_first;
use crate::grouping::group_into_vec;
use crate::grouping::group_items;
use crate::grouping::group_len;
use crate::grouping::in_given_order;
use crate::grouping::is_group_of;
use crate::grouping::stands_for_span;
use crate::span::Span;
use crate::span::SpanView;
use crate::span::spans_view;
use vstd::prelude::*;
use vstd::set_lib::axiom_is_empty;
use vstd::set_lib::lemma_int_range;
use vstd::set_lib::lemma_len_subset;
use vstd::set_lib::lemma_subset_equality;
use vstd::set_lib::set_int_range;

verus! {

/// Why a list of spans is not a tree.
#[derive(Debug, Clone, Copy, PartialEq, Eq, Structural)]
pub enum TreeError {
    /// The list is empty.
    Empty,
    /// No span is without parent.
    NoRoot,
    /// More than one span is without parent.
    MultipleRoots,
    /// Some span cannot be reached from the root along parent links.
    MissingParents,
}

/// Some span of the list has no parent.
pub open spec fn has_root(spans: Seq<SpanView>) -> bool {
    exists|i: int| 0 <= i < spans.len() && (#[trigger] spans[i]).parent_span_id == 0
}

/// Two different spans of the list have no parent.
pub open spec fn has_two_roots(spans: Seq<SpanView>) -> bool {
    exists|i: int, j: int|
        0 <= i < j < spans.len() && (#[trigger] spans[i]).parent_span_id == 0 && (
        #[trigger] spans[j]).parent_span_id == 0
}

/// `chain` walks down from a span without parent: each further span names
/// the identifier of the one before it as its parent.
pub open spec fn is_chain(spans: Seq<SpanView>, chain: Seq<int>) -> bool {
    &&& chain.len() >= 1
    &&& forall|k: int| 0 <= k < chain.len() ==> 0 <= #[trigger] chain[k] < spans.len()
    &&& spans[chain[0]].parent_span_id == 0
    &&& forall|k: int|
        0 < k < chain.len() ==> spans[#[trigger] chain[k]].parent_span_id == spans[chain[k
            - 1]].span_id
}

/// The span at `index` can be reached from a span without parent.
pub open spec fn reachable(spans: Seq<SpanView>, index: int) -> bool {
    exists|chain: Seq<int>| #[trigger] is_chain(spans, chain) && chain.last() == index
}

/// Some span of the list is cut off from every span without parent.
pub open spec fn has_orphan(spans: Seq<SpanView>) -> bool {
    exists|i: int| 0 <= i < spans.len() && !#[trigger] reachable(spans, i)
}

/// Whether a list of spans forms a tree, and if not, the first reason in the
/// order: empty, no root, several roots, orphans.
pub open spec fn tree_outcome(spans: Seq<SpanView>) -> Result<(), TreeError> {
    if spans.len() == 0 {
        Err(TreeError::Empty)
    } else if !has_root(spans) {
        Err(TreeError::NoRoot)
    } else if has_two_roots(spans) {
        Err(TreeError::MultipleRoots)
    } else if has_orphan(spans) {
        Err(TreeError::MissingParents)
    } else {
        Ok(())
    }
}

/// The causal tree of a trace. Its nodes are numbered breadth first from the
/// root, which is node `0`; every node owns one span of the list the tree was
/// built from and lists its children.
pub struct SpanTree {
    spans: Vec<Span>,
    order: Vec<usize>,
    parents: Vec<usize>,
    children: Vec<Vec<usize>>,
}

/// The mathematical content of a [`SpanTree`]: the spans as they were given,
/// for each node the place of its span in that list, the node of its parent
/// (`0` for the root itself), and its children.
pub struct SpanTreeView {
    pub spans: Seq<Span>,
    pub order: Seq<usize>,
    pub parents: Seq<usize>,
    pub children: Seq<Seq<usize>>,
}

impl SpanTreeView {
    /// The number of nodes.
    pub open spec fn len(self) -> nat {
        self.order.len()
    }

    /// The span that `node` owns.
    pub open spec fn span(self, node: int) -> Span {
        self.spans[self.order[node] as int]
    }
}

/// `list` is strictly ascending.
pub open spec fn ascending(list: Seq<usize>) -> bool {
    forall|a: int, b: int| 0 <= a < b < list.len() ==> list[a] < list[b]
}

/// The edge above `node` mirrors the span's parent identifier: the parent
/// comes earlier in breadth-first order and is the first node that carries
/// that identifier.
pub open spec fn mirrors_parent(
    spans: Seq<Span>,
    order: Seq<usize>,
    parents: Seq<usize>,
    node: int,
) -> bool {
    &&& parents[node] < node
    &&& spans[order[node] as int].parent_span_id != 0
    &&& spans[order[node] as int].parent_span_id == spans[order[parents[node] as int] as int].span_id
    &&& forall|q: int|
        0 <= q < parents[node] ==> spans[(#[trigger] order[q]) as int].span_id
            != spans[order[node] as int].parent_span_id
}

/// The nodes are numbered level by level: a later node never hangs below an
/// earlier parent than the node before it.
pub open spec fn breadth_first(parents: Seq<usize>) -> bool {
    forall|p: int, q: int|
        0 < p <= q < parents.len() ==> (#[trigger] parents[p]) <= (#[trigger] parents[q])
}

/// `kids` lists, in ascending order, exactly the nodes below `count` whose
/// parent is `node`.
pub open spec fn lists_children(parents: Seq<usize>, count: int, node: int, kids: Seq<usize>) -> bool {
    &&& ascending(kids)
    &&& forall|k: int| 0 <= k < kids.len() ==> node < (#[trigger] kids[k]) < count
    &&& forall|c: usize| 0 < c < count && parents[c as int] == node ==> #[trigger] kids.contains(c)
    &&& forall|k: int| 0 <= k < kids.len() ==> parents[(#[trigger] kids[k]) as int] == node
}

/// The nodes in `kids` come in the order in which their spans were given.
pub open spec fn children_in_given_order(order: Seq<usize>, kids: Seq<usize>) -> bool {
    forall|a: int, b: int|
        0 <= a < b < kids.len() ==> order[(#[trigger] kids[a]) as int] < order[(
        #[trigger] kids[b]) as int]
}

/// What makes a [`SpanTreeView`] a tree over its spans: every span is owned
/// by exactly one node, node `0` owns the only span without parent, every
/// other node hangs below the first node whose span identifier is its parent
/// identifier, the nodes are numbered breadth first, and the child lists say
/// the same as the parent links, with the children of a node in the order in
/// which their spans were given.
pub open spec fn is_span_tree(tree: SpanTreeView) -> bool {
    let n = tree.order.len() as int;
    &&& 1 <= n <= usize::MAX
    &&& tree.spans.len() == n
    &&& tree.parents.len() == n
    &&& tree.children.len() == n
    &&& tree.order.no_duplicates()
    &&& forall|p: int| 0 <= p < n ==> (#[trigger] tree.order[p]) < n
    &&& tree.spans[tree.order[0] as int].parent_span_id == 0
    &&& tree.parents[0] == 0
    &&& forall|p: int|
        0 < p < n ==> #[trigger] mirrors_parent(tree.spans, tree.order, tree.parents, p)
    &&& breadth_first(tree.parents)
    &&& forall|p: int|
        0 <= p < n ==> lists_children(tree.parents, n, p, #[trigger] tree.children[p])
            && children_in_given_order(tree.order, tree.children[p])
}

spec fn kids_view(children: Seq<Vec<usize>>) -> Seq<Seq<usize>> {
    Seq::new(children.len(), |i: int| children[i]@)
}

impl View for SpanTree {
    type V = SpanTreeView;

    closed spec fn view(&self) -> SpanTreeView {
        SpanTreeView {
            spans: self.spans@,
            order: self.order@,
            parents: self.parents@,
            children: kids_view(self.children@),
        }
    }
}

impl SpanTree {
    #[verifier::type_invariant]
    spec fn well_formed(&self) -> bool {
        is_span_tree(self@)
    }

    /// The number of nodes, which is the number of spans the tree was built
    /// from.
    pub fn len(&self) -> (n: usize)
        ensures
            is_span_tree(self@),
            n == self@.len(),
            n == self@.spans.len(),
            n >= 1,
    {
        proof {
            use_type_invariant(self);
        }
        self.order.len()
    }

    /// The spans of the tree, in the order in which they were given.
    pub fn spans(&self) -> (spans: &Vec<Span>)
        ensures
            spans@ == self@.spans,
    {
        &self.spans
    }

    /// The span that `node` owns; `None` where there is no such node.
    pub fn span(&self, node: usize) -> (span: Option<&Span>)
        ensures
            is_span_tree(self@),
            match span {
                Some(s) => node < self@.len() && *s == self@.span(node as int),
                None => node >= self@.len(),
            },
    {
        proof {
            use_type_invariant(self);
        }
        if node < self.order.len() {
            Some(&self.spans[self.order[node]])
        } else {
            None
        }
    }

    /// The span of the root, the only one without parent.
    pub fn root(&self) -> (span: &Span)
        ensures
            is_span_tree(self@),
            *span == self@.span(0),
            span.parent_span_id == 0,
    {
        proof {
            use_type_invariant(self);
        }
        &self.spans[self.order[0]]
    }

    /// The node above `node`; `None` for the root and where there is no such
    /// node.
    pub fn parent(&self, node: usize) -> (parent: Option<usize>)
        ensures
            is_span_tree(self@),
            parent == (if 0 < node < self@.len() {
                Some(self@.parents[node as int])
            } else {
                None
            }),
    {
        proof {
            use_type_invariant(self);
        }
        if 0 < node && node < self.parents.len() {
            Some(self.parents[node])
        } else {
            None
        }
    }

    /// The nodes below `node`, in ascending order; `None` where there is no
    /// such node.
    pub fn children(&self, node: usize) -> (kids: Option<&Vec<usize>>)
        ensures
            is_span_tree(self@),
            match kids {
                Some(list) => node < self@.len() && list@ == self@.children[node as int],
                None => node >= self@.len(),
            },
    {
        proof {
            use_type_invariant(self);
        }
        if node < self.children.len() {
            Some(&self.children[node])
        } else {
            None
        }
    }
}

impl TreeError {
    /// A sentence that says what is wrong with the list of spans.
    pub fn message(&self) -> (text: &'static str)
        ensures
            text@ == match *self {
                TreeError::Empty => "Traces must include at least one span."@,
                TreeError::NoRoot => "No root span found"@,
                TreeError::MultipleRoots => "Multiple root spans found"@,
                TreeError::MissingParents => "Spans found with missing parents"@,
            },
    {
        match self {
            TreeError::Empty => "Traces must include at least one span.",
            TreeError::NoRoot => "No root span found",
            TreeError::MultipleRoots => "Multiple root spans found",
            TreeError::MissingParents => "Spans found with missing parents",
        }
    }
}

/// The span at `index` is attached, waits in the group of its parent
/// identifier, or waits among `extra`.
spec fn accounted(
    spans: Seq<Span>,
    order: Seq<usize>,
    groups: Map<i64, NonEmpty<Keyed>>,
    extra: Seq<Keyed>,
    index: int,
) -> bool {
    let key = spans[index].parent_span_id;
    let item = (key, index as usize);
    ||| order.contains(index as usize)
    ||| groups.contains_key(key) && group_items(groups[key]).contains(item)
    ||| extra.contains(item)
}

/// None of `items` is attached yet.
spec fn all_waiting(order: Seq<usize>, items: Seq<Keyed>) -> bool {
    forall|j: int| 0 <= j < items.len() ==> !order.contains((#[trigger] items[j]).1)
}

/// The nodes attached so far form the top of a tree.
spec fn attached_ok(spans: Seq<Span>, order: Seq<usize>, parents: Seq<usize>) -> bool {
    &&& order.len() >= 1
    &&& parents.len() == order.len()
    &&& order.no_duplicates()
    &&& forall|p: int| 0 <= p < order.len() ==> (#[trigger] order[p]) < spans.len()
    &&& spans[order[0] as int].parent_span_id == 0
    &&& parents[0] == 0
    &&& forall|i: int|
        0 <= i < spans.len() && (#[trigger] spans[i]).parent_span_id == 0 ==> i == order[0]
    &&& forall|p: int| 0 < p < order.len() ==> #[trigger] mirrors_parent(spans, order, parents, p)
    &&& breadth_first(parents)
    &&& forall|p: int|
        0 <= p < order.len() ==> reachable(spans_view(spans), (#[trigger] order[p]) as int)
}

/// Every span that is not attached waits in a group or among `extra`, and
/// nothing that waits is attached.
spec fn waiting_ok(
    spans: Seq<Span>,
    order: Seq<usize>,
    groups: Map<i64, NonEmpty<Keyed>>,
    extra_key: i64,
    extra: Seq<Keyed>,
) -> bool {
    &&& forall|key: i64| #[trigger]
        groups.contains_key(key) ==> is_group_of(spans, key, group_items(groups[key]))
            && all_waiting(order, group_items(groups[key]))
    &&& extra.no_duplicates()
    &&& all_waiting(order, extra)
    &&& forall|j: int|
        0 <= j < extra.len() ==> stands_for_span(spans, #[trigger] extra[j]) && extra[j].0
            == extra_key
    &&& forall|i: int| 0 <= i < spans.len() ==> #[trigger] accounted(spans, order, groups, extra, i)
}

/// No group is left under the span identifier of a node before `head`.
spec fn expanded_ok(
    spans: Seq<Span>,
    order: Seq<usize>,
    groups: Map<i64, NonEmpty<Keyed>>,
    head: int,
) -> bool {
    forall|q: int|
        0 <= q < head ==> !groups.contains_key(spans[(#[trigger] order[q]) as int].span_id)
}

proof fn lemma_root_reachable(spans: Seq<SpanView>, root: int)
    requires
        0 <= root < spans.len(),
        spans[root].parent_span_id == 0,
    ensures
        reachable(spans, root),
{
    let chain = seq![root];
    assert(is_chain(spans, chain));
}

proof fn lemma_child_reachable(spans: Seq<SpanView>, parent: int, child: int)
    requires
        reachable(spans, parent),
        0 <= parent < spans.len(),
        0 <= child < spans.len(),
        spans[child].parent_span_id == spans[parent].span_id,
    ensures
        reachable(spans, child),
{
    let chain = choose|chain: Seq<int>| #[trigger] is_chain(spans, chain) && chain.last() == parent;
    let longer = chain.push(child);
    assert(is_chain(spans, longer));
}

/// Once every attached node has been expanded, a chain never leaves the
/// attached nodes.
proof fn lemma_chain_stays_attached(
    spans: Seq<Span>,
    order: Seq<usize>,
    groups: Map<i64, NonEmpty<Keyed>>,
    chain: Seq<int>,
)
    requires
        spans.len() <= usize::MAX,
        order.len() >= 1,
        forall|i: int|
            0 <= i < spans.len() && (#[trigger] spans[i]).parent_span_id == 0 ==> i == order[0],
        forall|i: int|
            0 <= i < spans.len() ==> #[trigger] accounted(spans, order, groups, Seq::empty(), i),
        expanded_ok(spans, order, groups, order.len() as int),
        is_chain(spans_view(spans), chain),
    ensures
        order.contains(chain.last() as usize),
    decreases chain.len(),
{
    if chain.len() > 1 {
        lemma_chain_stays_attached(spans, order, groups, chain.drop_last());
        assert(accounted(spans, order, groups, Seq::empty(), chain.last()));
    }
}

proof fn lemma_all_attached(order: Seq<usize>, n: nat)
    requires
        n <= usize::MAX,
        order.no_duplicates(),
        forall|p: int| 0 <= p < order.len() ==> (#[trigger] order[p]) < n,
        forall|i: usize| i < n ==> #[trigger] order.contains(i),
    ensures
        order.len() == n,
{
    let ints = Seq::new(order.len(), |p: int| order[p] as int);
    assert forall|x: int| ints.to_set().contains(x) <==> set_int_range(0, n as int).contains(
        x,
    ) by {
        if 0 <= x < n {
            assert(order.contains(x as usize));
            let p = choose|p: int| 0 <= p < order.len() && order[p] == x as usize;
            assert(ints[p] == x);
        }
    }
    assert(ints.to_set() =~= set_int_range(0, n as int));
    lemma_int_range(0, n as int);
    ints.unique_seq_to_set();
}

proof fn lemma_attached_bounded(order: Seq<usize>, n: nat)
    requires
        order.no_duplicates(),
        forall|p: int| 0 <= p < order.len() ==> (#[trigger] order[p]) < n,
    ensures
        order.len() <= n,
{
    let ints = Seq::new(order.len(), |p: int| order[p] as int);
    lemma_int_range(0, n as int);
    lemma_len_subset(ints.to_set(), set_int_range(0, n as int));
    ints.unique_seq_to_set();
}

/// Attaching a waiting child below `head` keeps the attached nodes the top
/// of a tree.
proof fn lemma_attach_node(
    spans: Seq<Span>,
    order: Seq<usize>,
    parents: Seq<usize>,
    head: usize,
    item: Keyed,
)
    requires
        0 <= head < order.len(),
        attached_ok(spans, order, parents),
        stands_for_span(spans, item),
        item.0 == spans[order[head as int] as int].span_id,
        !order.contains(item.1),
        forall|c: int| 0 < c < parents.len() ==> (#[trigger] parents[c]) <= head,
        forall|q: int|
            0 <= q < head ==> spans[(#[trigger] order[q]) as int].span_id != item.0,
    ensures
        attached_ok(spans, order.push(item.1), parents.push(head)),
{
    let order2 = order.push(item.1);
    let parents2 = parents.push(head);
    let sv = spans_view(spans);
    let child = order.len() as int;
    assert forall|p: int| 0 < p < order2.len() implies #[trigger] mirrors_parent(
        spans,
        order2,
        parents2,
        p,
    ) by {
        if p < child {
            assert(mirrors_parent(spans, order, parents, p));
        }
    }
    assert forall|p: int| 0 <= p < order2.len() implies reachable(
        sv,
        (#[trigger] order2[p]) as int,
    ) by {
        if p == child {
            lemma_child_reachable(sv, order[head as int] as int, item.1 as int);
        }
    }
}

/// Attaching the first waiting child of a node leaves every other span
/// accounted for, and nothing that still waits attached.
proof fn lemma_attach_waiting(
    spans: Seq<Span>,
    order: Seq<usize>,
    groups: Map<i64, NonEmpty<Keyed>>,
    span_id: i64,
    extra: Seq<Keyed>,
)
    requires
        extra.len() >= 1,
        waiting_ok(spans, order, groups, span_id, extra),
        !groups.contains_key(span_id),
    ensures
        waiting_ok(spans, order.push(extra[0].1), groups, span_id, extra.skip(1)),
{
    let item = extra[0];
    let order2 = order.push(item.1);
    let rest = extra.skip(1);
    let child = order.len() as int;
    assert forall|i: int| 0 <= i < spans.len() implies #[trigger] accounted(
        spans,
        order2,
        groups,
        rest,
        i,
    ) by {
        assert(accounted(spans, order, groups, extra, i));
        let key = spans[i].parent_span_id;
        let it = (key, i as usize);
        if order.contains(i as usize) {
            let p = choose|p: int| 0 <= p < order.len() && order[p] == i as usize;
            assert(order2[p] == i as usize);
        } else if extra.contains(it) {
            let j = choose|j: int| 0 <= j < extra.len() && extra[j] == it;
            if j == 0 {
                assert(order2[child] == i as usize);
            } else {
                assert(rest[j - 1] == it);
            }
        }
    }
}

/// Builds the causal tree of a trace from its spans.
///
/// The spans are partitioned by parent identifier. The group under `0` must
/// hold exactly one span, the root. Then, breadth first, every node takes the
/// group under its own span identifier as its children. Groups that remain
/// hold spans that no chain of parent links ties to the root.
pub fn build_span_tree(spans: Vec<Span>) -> (result: Result<SpanTree, TreeError>)
    ensures
        match result {
            Ok(tree) => tree_outcome(spans_view(spans@)) is Ok && tree@.spans == spans@
                && is_span_tree(tree@),
            Err(e) => tree_outcome(spans_view(spans@)) == Err::<(), TreeError>(e),
        },
{
    broadcast use vstd::std_specs::hash::group_hash_axioms;

    let ghost sv = spans_view(spans@);
    let mut groups = group_by_parent(&spans);
    if groups.is_empty() {
        proof {
            if spans.len() > 0 {
                assert(groups@.contains_key(spans@[0].parent_span_id));
            }
        }
        return Err(TreeError::Empty);
    }
    proof {
        axiom_is_empty(groups@.dom());
        let key = choose|key: i64| groups@.dom().contains(key);
        assert(stands_for_span(spans@, group_items(groups@[key])[0]));
    }
    let roots = match groups.remove(&0) {
        Some(roots) => roots,
        None => {
            return Err(TreeError::NoRoot);
        },
    };
    let ghost root_items = group_items(roots);
    if group_len(&roots) > 1 {
        proof {
            let a = root_items[0].1 as int;
            let b = root_items[1].1 as int;
            assert(sv[a].parent_span_id == 0 && sv[b].parent_span_id == 0);
        }
        return Err(TreeError::MultipleRoots);
    }
    let root = group_first(&roots);
    let mut order: Vec<usize> = Vec::new();
    order.push(root.1);
    let mut parents: Vec<usize> = Vec::new();
    parents.push(0);
    let mut children: Vec<Vec<usize>> = Vec::new();
    let mut head: usize = 0;
    proof {
        assert forall|i: int| 0 <= i < spans.len() && (#[trigger] spans@[i]).parent_span_id
            == 0 implies i == root.1 by {
        }
        assert(!has_two_roots(sv)) by {
            if has_two_roots(sv) {
                let (i, j) = choose|i: int, j: int|
                    0 <= i < j < sv.len() && (#[trigger] sv[i]).parent_span_id == 0 && (
                    #[trigger] sv[j]).parent_span_id == 0;
            }
        }
        lemma_root_reachable(sv, root.1 as int);
    }
    while head < order.len()
        invariant
            spans.len() > 0,
            sv == spans_view(spans@),
            has_root(sv),
            !has_two_roots(sv),
            head <= order.len(),
            children.len() == head,
            attached_ok(spans@, order@, parents@),
            waiting_ok(spans@, order@, groups@, 0, Seq::empty()),
            expanded_ok(spans@, order@, groups@, head as int),
            forall|c: int| 0 < c < parents.len() ==> (#[trigger] parents[c]) < head,
            forall|q: int|
                0 <= q < head ==> lists_children(
                    parents@,
                    order.len() as int,
                    q,
                    (#[trigger] children[q])@,
                ) && children_in_given_order(order@, children[q]@),
        decreases spans.len() - head,
    {
        proof {
            lemma_attached_bounded(order@, spans.len() as nat);
        }
        let node_index = order[head];
        let span_id = spans[node_index].span_id;
        let ghost stored = groups@;
        let mut kids: Vec<usize> = Vec::new();
        match groups.remove(&span_id) {
            Some(group) => {
                let items = group_into_vec(group);
                let mut j: usize = 0;
                proof {
                    assert(items@.skip(0) =~= items@);
                    assert forall|i: int| 0 <= i < spans.len() implies #[trigger] accounted(
                        spans@,
                        order@,
                        groups@,
                        items@,
                        i,
                    ) by {
                        assert(accounted(spans@, order@, stored, Seq::empty(), i));
                    }
                }
                while j < items.len()
                    invariant
                        spans.len() > 0,
                        j <= items.len(),
                        head < order.len(),
                        children.len() == head,
                        span_id == spans@[order@[head as int] as int].span_id,
                        attached_ok(spans@, order@, parents@),
                        waiting_ok(spans@, order@, groups@, span_id, items@.skip(j as int)),
                        expanded_ok(spans@, order@, groups@, head as int),
                        !groups@.contains_key(span_id),
                        forall|q: int|
                            0 <= q < head ==> spans@[(#[trigger] order@[q]) as int].span_id
                                != span_id,
                        forall|c: int| 0 < c < parents.len() ==> (#[trigger] parents[c]) <= head,
                        forall|q: int|
                            0 <= q < head ==> lists_children(
                                parents@,
                                order.len() as int,
                                q,
                                (#[trigger] children[q])@,
                            ) && children_in_given_order(order@, children[q]@),
                        lists_children(parents@, order.len() as int, head as int, kids@),
                        in_given_order(items@),
                        kids.len() == j,
                        forall|k: int|
                            0 <= k < j ==> (#[trigger] kids[k]) < order.len() && order@[kids[k] as int]
                                == items[k].1,
                    decreases items.len() - j,
                {
                    let child = order.len();
                    let item = items[j];
                    let ghost order1 = order@;
                    let ghost parents1 = parents@;
                    let ghost kids1 = kids@;
                    proof {
                        let extra = items@.skip(j as int);
                        assert(extra[0] == item);
                        assert(extra.skip(1) =~= items@.skip(j as int + 1));
                        lemma_attach_node(spans@, order1, parents1, head, item);
                        lemma_attach_waiting(spans@, order1, groups@, span_id, extra);
                    }
                    order.push(item.1);
                    parents.push(head);
                    kids.push(child);
                    j += 1;
                    proof {
                        assert(lists_children(parents@, order.len() as int, head as int, kids@))
                            by {
                            assert forall|c: usize|
                                0 < c < order.len() && parents@[c as int]
                                    == head implies #[trigger] kids@.contains(c) by {
                                if c < child {
                                    assert(kids1.contains(c));
                                    let k = choose|k: int| 0 <= k < kids1.len() && kids1[k] == c;
                                    assert(kids@[k] == c);
                                } else {
                                    assert(kids@[kids1.len() as int] == c);
                                }
                            }
                        }
                    }
                }
                proof {
                    assert(items@.skip(items.len() as int) =~= Seq::<Keyed>::empty());
                }
            },
            None => {
                proof {
                    assert(groups@ =~= stored);
                }
            },
        }
        children.push(kids);
        head += 1;
        proof {
            lemma_attached_bounded(order@, spans.len() as nat);
        }
    }
    if !groups.is_empty() {
        proof {
            axiom_is_empty(groups@.dom());
            let key = choose|key: i64| groups@.dom().contains(key);
            let item = group_items(groups@[key])[0];
            let i = item.1 as int;
            if reachable(sv, i) {
                let chain = choose|chain: Seq<int>| #[trigger]
                    is_chain(sv, chain) && chain.last() == i;
                lemma_chain_stays_attached(spans@, order@, groups@, chain);
            }
        }
        return Err(TreeError::MissingParents);
    }
    proof {
        assert forall|i: usize| i < spans.len() implies #[trigger] order@.contains(i) by {
            assert(accounted(spans@, order@, groups@, Seq::empty(), i as int));
        }
        lemma_all_attached(order@, spans.len() as nat);
        assert(!has_orphan(sv)) by {
            assert forall|i: int| 0 <= i < sv.len() implies #[trigger] reachable(sv, i) by {
                assert(order@.contains(i as usize));
            }
        }
    }
    let tree = SpanTree { spans, order, parents, children };
    Ok(tree)
}

/// A list of spans in which no span is without parent is refused for want of
/// a root.
pub proof fn lemma_no_root_is_refused(spans: Seq<SpanView>)
    requires
        spans.len() > 0,
        forall|i: int| 0 <= i < spans.len() ==> (#[trigger] spans[i]).parent_span_id != 0,
    ensures
        tree_outcome(spans) == Err::<(), TreeError>(TreeError::NoRoot),
{
}

/// A list of spans in which two spans are without parent is refused for
/// having several roots.
pub proof fn lemma_two_roots_are_refused(spans: Seq<SpanView>, first: int, second: int)
    requires
        0 <= first < spans.len(),
        0 <= second < spans.len(),
        first != second,
        spans[first].parent_span_id == 0,
        spans[second].parent_span_id == 0,
    ensures
        tree_outcome(spans) == Err::<(), TreeError>(TreeError::MultipleRoots),
{
}

/// A span that names a parent, while no span of the list carries that
/// identifier, cannot be reached from a root.
pub proof fn lemma_absent_parent_is_unreachable(spans: Seq<SpanView>, index: int)
    requires
        0 <= index < spans.len(),
        spans[index].parent_span_id != 0,
        forall|j: int|
            0 <= j < spans.len() ==> (#[trigger] spans[j]).span_id != spans[index].parent_span_id,
    ensures
        !reachable(spans, index),
{
    if reachable(spans, index) {
        let chain = choose|chain: Seq<int>| #[trigger]
            is_chain(spans, chain) && chain.last() == index;
    }
}

/// A list of spans with exactly one root, in which some span names a parent
/// that no span of the list carries as its identifier, is refused for its
/// orphans.
pub proof fn lemma_absent_parent_is_refused(spans: Seq<SpanView>, index: int)
    requires
        has_root(spans),
        !has_two_roots(spans),
        0 <= index < spans.len(),
        spans[index].parent_span_id != 0,
        forall|j: int|
            0 <= j < spans.len() ==> (#[trigger] spans[j]).span_id != spans[index].parent_span_id,
    ensures
        tree_outcome(spans) == Err::<(), TreeError>(TreeError::MissingParents),
{
    lemma_absent_parent_is_unreachable(spans, index);
}

/// A list of spans that is not empty, has exactly one span without parent
/// and ties every span to it by a chain of parent links forms a tree; and
/// every span of such a list but the root names the identifier of another
/// span of the list as its parent.
pub proof fn lemma_linked_spans_form_a_tree(spans: Seq<SpanView>)
    requires
        spans.len() > 0,
        has_root(spans),
        !has_two_roots(spans),
        forall|i: int| 0 <= i < spans.len() ==> reachable(spans, i),
    ensures
        tree_outcome(spans) is Ok,
        forall|i: int|
            0 <= i < spans.len() && (#[trigger] spans[i]).parent_span_id != 0 ==> exists|j: int|
                0 <= j < spans.len() && (#[trigger] spans[j]).span_id == spans[i].parent_span_id,
{
    assert forall|i: int|
        0 <= i < spans.len() && (#[trigger] spans[i]).parent_span_id != 0 implies exists|j: int|
        0 <= j < spans.len() && (#[trigger] spans[j]).span_id == spans[i].parent_span_id by {
        if forall|j: int|
            0 <= j < spans.len() ==> (#[trigger] spans[j]).span_id != spans[i].parent_span_id {
            lemma_absent_parent_is_unreachable(spans, i);
        }
    }
}

/// A tree is never empty: it has a root, and its spans are as many as its
/// nodes.
pub proof fn lemma_tree_is_never_empty(tree: SpanTreeView)
    requires
        is_span_tree(tree),
    ensures
        tree.len() >= 1,
        tree.spans.len() == tree.len(),
        tree.span(0).parent_span_id == 0,
{
}

/// In a tree every span is owned by a node, and by one only.
pub proof fn lemma_every_span_is_a_node(tree: SpanTreeView, index: int)
    requires
        is_span_tree(tree),
        0 <= index < tree.spans.len(),
    ensures
        exists|p: int| 0 <= p < tree.len() && #[trigger] tree.order[p] == index,
        forall|p: int, q: int|
            0 <= p < tree.len() && 0 <= q < tree.len() && tree.order[p] == index && tree.order[q]
                == index ==> p == q,
{
    let n = tree.order.len() as int;
    let ints = Seq::new(tree.order.len(), |p: int| tree.order[p] as int);
    lemma_int_range(0, n);
    ints.unique_seq_to_set();
    lemma_len_subset(ints.to_set(), set_int_range(0, n));
    lemma_subset_equality(ints.to_set(), set_int_range(0, n));
    assert(set_int_range(0, n).contains(index));
}

/// In a tree, nodes whose spans name the same parent identifier hang below
/// the same node.
pub proof fn lemma_siblings_share_parent(tree: SpanTreeView, first: int, second: int)
    requires
        is_span_tree(tree),
        0 < first < tree.len(),
        0 < second < tree.len(),
        tree.span(first).parent_span_id == tree.span(second).parent_span_id,
    ensures
        tree.parents[first] == tree.parents[second],
{
    assert(mirrors_parent(tree.spans, tree.order, tree.parents, first));
    assert(mirrors_parent(tree.spans, tree.order, tree.parents, second));
}

/// Only a list of spans that forms a tree has one: the spans of any tree
/// are not empty, hold exactly one span without parent, and tie every span
/// to it.
pub proof fn lemma_tree_spans_form_a_tree(tree: SpanTreeView)
    requires
        is_span_tree(tree),
    ensures
        tree_outcome(spans_view(tree.spans)) is Ok,
{
    let sv = spans_view(tree.spans);
    let n = tree.order.len() as int;
    let root = tree.order[0] as int;
    assert(sv[root].parent_span_id == 0);
    assert forall|i: int| 0 <= i < n && (#[trigger] sv[i]).parent_span_id == 0 implies i
        == root by {
        lemma_every_span_is_a_node(tree, i);
        let p = choose|p: int| 0 <= p < tree.len() && #[trigger] tree.order[p] == i;
        if p > 0 {
            assert(mirrors_parent(tree.spans, tree.order, tree.parents, p));
        }
    }
    assert forall|i: int| 0 <= i < n implies #[trigger] reachable(sv, i) by {
        lemma_every_span_is_a_node(tree, i);
        let p = choose|p: int| 0 <= p < tree.len() && #[trigger] tree.order[p] == i;
        lemma_node_is_reachable(tree, p);
    }
}

proof fn lemma_node_is_reachable(tree: SpanTreeView, node: int)
    requires
        is_span_tree(tree),
        0 <= node < tree.len(),
    ensures
        reachable(spans_view(tree.spans), tree.order[node] as int),
    decreases node,
{
    let sv = spans_view(tree.spans);
    if node == 0 {
        lemma_root_reachable(sv, tree.order[0] as int);
    } else {
        assert(mirrors_parent(tree.spans, tree.order, tree.parents, node));
        let above = tree.parents[node] as int;
        lemma_node_is_reachable(tree, above);
        lemma_child_reachable(sv, tree.order[above] as int, tree.order[node] as int);
    }
}

/// The two trees own the same spans at their nodes below `count`, under
/// the same parents.
pub open spec fn agree_below(first: SpanTreeView, second: SpanTreeView, count: int) -> bool {
    forall|q: int|
        0 <= q < count ==> (#[trigger] first.order[q]) == second.order[q] && first.parents[q]
            == second.parents[q]
}

/// In a tree, a later node hangs below a later parent than an earlier node,
/// or below the same parent and then owns a span that was given later.
proof fn lemma_nodes_ascend(tree: SpanTreeView, earlier: int, later: int)
    requires
        is_span_tree(tree),
        0 < earlier < later < tree.len(),
    ensures
        tree.parents[earlier] < tree.parents[later] || (tree.parents[earlier]
            == tree.parents[later] && tree.order[earlier] < tree.order[later]),
{
    if tree.parents[earlier] == tree.parents[later] {
        let above = tree.parents[earlier] as int;
        assert(mirrors_parent(tree.spans, tree.order, tree.parents, earlier));
        let kids = tree.children[above];
        assert(kids.contains(earlier as usize));
        assert(kids.contains(later as usize));
        let a = choose|a: int| 0 <= a < kids.len() && kids[a] == earlier as usize;
        let b = choose|b: int| 0 <= b < kids.len() && kids[b] == later as usize;
    }
}

/// A span that two trees over the same spans both own below the root hangs
/// below the same node in both, if the trees agree up to the node at which
/// the first of them owns it.
proof fn lemma_same_parent(first: SpanTreeView, second: SpanTreeView, node: int, other: int)
    requires
        is_span_tree(first),
        is_span_tree(second),
        first.spans == second.spans,
        agree_below(first, second, node),
        0 < node < first.len(),
        0 <= other < second.len(),
        first.order[node] == second.order[other],
    ensures
        other > 0,
        first.parents[node] == second.parents[other],
{
    assert(mirrors_parent(first.spans, first.order, first.parents, node));
    if other > 0 {
        assert(mirrors_parent(second.spans, second.order, second.parents, other));
        let a = first.parents[node] as int;
        let b = second.parents[other] as int;
        if b < a {
            assert(first.order[b] == second.order[b]);
        }
    }
}

proof fn lemma_trees_agree(first: SpanTreeView, second: SpanTreeView, count: int)
    requires
        is_span_tree(first),
        is_span_tree(second),
        first.spans == second.spans,
        0 <= count <= first.len(),
    ensures
        agree_below(first, second, count),
    decreases count,
{
    if count > 0 {
        let p = count - 1;
        lemma_trees_agree(first, second, p);
        let x1 = first.order[p];
        let x2 = second.order[p];
        lemma_every_span_is_a_node(second, x1 as int);
        lemma_every_span_is_a_node(first, x2 as int);
        let q2 = choose|q: int| 0 <= q < second.len() && #[trigger] second.order[q] == x1 as int;
        let q1 = choose|q: int| 0 <= q < first.len() && #[trigger] first.order[q] == x2 as int;
        if p == 0 {
            if q2 > 0 {
                assert(mirrors_parent(second.spans, second.order, second.parents, q2));
            }
        } else {
            if q2 < p {
                assert(first.order[q2] == second.order[q2]);
            }
            if q1 < p {
                assert(first.order[q1] == second.order[q1]);
            }
            lemma_same_parent(first, second, p, q2);
            lemma_same_parent(second, first, p, q1);
            if p < q2 {
                lemma_nodes_ascend(second, p, q2);
            }
            if p < q1 {
                lemma_nodes_ascend(first, p, q1);
            }
        }
        assert(first.order[p] == second.order[p] && first.parents[p] == second.parents[p]);
    }
}

/// Two ascending lists that hold the same numbers are the same list.
proof fn lemma_ascending_lists_equal(first: Seq<usize>, second: Seq<usize>)
    requires
        ascending(first),
        ascending(second),
        forall|x: usize| first.contains(x) <==> second.contains(x),
    ensures
        first == second,
    decreases first.len(),
{
    if first.len() == 0 {
        if second.len() > 0 {
            assert(second.contains(second[0]));
        }
    } else {
        let top = first.last();
        assert(first.contains(top));
        let at = choose|at: int| 0 <= at < second.len() && second[at] == top;
        if at < second.len() - 1 {
            let above = second.last();
            assert(second.contains(above));
            let k = choose|k: int| 0 <= k < first.len() && first[k] == above;
        }
        let rest1 = first.drop_last();
        let rest2 = second.drop_last();
        assert forall|x: usize| rest1.contains(x) <==> rest2.contains(x) by {
            if rest1.contains(x) {
                assert(first.contains(x));
                let j = choose|j: int| 0 <= j < second.len() && second[j] == x;
                assert(rest2[j] == x);
            }
            if rest2.contains(x) {
                assert(second.contains(x));
                let j = choose|j: int| 0 <= j < first.len() && first[j] == x;
                assert(rest1[j] == x);
            }
        }
        lemma_ascending_lists_equal(rest1, rest2);
        assert(first =~= rest1.push(top));
    }
}

/// A list of spans has one tree at most: two trees over the same spans are
/// the same tree.
pub proof fn lemma_tree_is_unique(first: SpanTreeView, second: SpanTreeView)
    requires
        is_span_tree(first),
        is_span_tree(second),
        first.spans == second.spans,
    ensures
        first == second,
{
    let n = first.len() as int;
    lemma_trees_agree(first, second, n);
    assert(first.order =~= second.order);
    assert(first.parents =~= second.parents) by {
        assert forall|q: int| 0 <= q < n implies first.parents[q] == second.parents[q] by {
            assert(first.order[q] == second.order[q]);
        }
    }
    assert forall|p: int| 0 <= p < n implies first.children[p] == second.children[p] by {
        let kids1 = first.children[p];
        let kids2 = second.children[p];
        lemma_ascending_lists_equal(kids1, kids2);
    }
    assert(first.children =~= second.children);
}

/// In a tree every node but the root hangs below an earlier node, so
/// following the parent links from a node leads to the root within as many
/// steps as the node's number.
pub proof fn lemma_parent_links_end_at_root(tree: SpanTreeView, node: int)
    requires
        is_span_tree(tree),
        0 <= node < tree.len(),
    ensures
        ancestor_after(tree, node, node as nat) == 0,
{
    lemma_ancestors_descend(tree, node, node as nat);
}

/// The node reached from `node` after `steps` parent links; the root is its
/// own parent here.
pub open spec fn ancestor_after(tree: SpanTreeView, node: int, steps: nat) -> int
    decreases steps,
{
    if steps == 0 {
        node
    } else {
        ancestor_after(tree, tree.parents[node] as int, (steps - 1) as nat)
    }
}

proof fn lemma_ancestors_descend(tree: SpanTreeView, node: int, steps: nat)
    requires
        is_span_tree(tree),
        0 <= node < tree.len(),
        node <= steps,
    ensures
        ancestor_after(tree, node, steps) == 0,
    decreases steps,
{
    if steps > 0 {
        if node > 0 {
            assert(mirrors_parent(tree.spans, tree.order, tree.parents, node));
        }
        lemma_ancestors_descend(tree, tree.parents[node] as int, (steps - 1) as nat);
    }
}

} // verus!
