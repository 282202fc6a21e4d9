//! The shape of the swarm projection: every node id is stored once and
//! says what the node stands for, every thread link leads to a stored
//! agent node, and every child list names stored nodes that have the
//! list's owner as their parent. Each step of the projection keeps this
//! shape, and on it the agent tree shows no node twice.
use vstd::prelude::*;

use crate::runtime::{opt_text, ChatStreamEvent, ChatTurnSettings, CollabAgentStateInfo};
use crate::swarm::{
    agent_ensured, agent_parent, initial_projection, interrupted, item_ensured, item_finished,
    key_pos, lemma_key_pos_found, lemma_key_pos_none, lemma_node_pos_found,
    lemma_node_pos_props, lemma_without_push, node_at, node_pos, push_child, put_link, put_node,
    remove_child, reparented, replace_node, root_id, started, states_applied, turn_id_for,
    children_of, done_or_running, ensure_children, event_applied, link_of, receivers_linked, without,
    SwarmAgentTreeNode, SwarmNodeKind,
    SwarmNodeView, SwarmProjectionView,
};

verus! {

/// `k` has an entry in `s`.
pub open spec fn has_key<V>(s: Seq<(Seq<char>, V)>, k: Seq<char>) -> bool {
    exists|i: int| 0 <= i < s.len() && s[i].0 == k
}

/// `id` is `pre` followed by something.
pub open spec fn begins(id: Seq<char>, pre: Seq<char>) -> bool {
    id.len() >= pre.len() && id.take(pre.len() as int) == pre
}

/// What a node id says: "node-" and a linked item id for an item node,
/// "agent-" and a linked thread id for an agent node, "turn-" for a turn
/// node; agent nodes, and only they, are agents.
pub open spec fn node_shaped(p: SwarmProjectionView, n: SwarmNodeView) -> bool {
    ||| begins(n.id, "node-"@) && has_key(p.item_nodes, n.id.skip(5)) && n.kind != SwarmNodeKind::Agent
    ||| begins(n.id, "agent-"@) && has_key(p.thread_nodes, n.id.skip(6)) && n.kind == SwarmNodeKind::Agent
    ||| begins(n.id, "turn-"@) && n.kind != SwarmNodeKind::Agent
}

/// No two stored nodes share an id.
pub open spec fn ids_unique(s: Seq<SwarmNodeView>) -> bool {
    forall|i: int, j: int| 0 <= i < j < s.len() ==> #[trigger] s[i].id != #[trigger] s[j].id
}

/// No two child lists share an owner.
pub open spec fn owners_unique(co: Seq<(Seq<char>, Seq<Seq<char>>)>) -> bool {
    forall|i: int, j: int| 0 <= i < j < co.len() ==> #[trigger] co[i].0 != #[trigger] co[j].0
}

/// `c` is a stored node other than a turn, and its parent is `parent`.
pub open spec fn child_fits(p: SwarmProjectionView, parent: Seq<char>, c: Seq<char>) -> bool {
    &&& !begins(c, "turn-"@)
    &&& node_at(p.nodes, c) matches Some(n) && n.parent_id == Some(parent)
}

/// The list `kids` of `parent` names no node twice, and each fits.
pub open spec fn children_fit(p: SwarmProjectionView, parent: Seq<char>, kids: Seq<Seq<char>>) -> bool {
    &&& kids.no_duplicates()
    &&& forall|k: int| 0 <= k < kids.len() ==> child_fits(p, parent, #[trigger] kids[k])
}

/// `id` is a stored agent node.
pub open spec fn agent_stored(p: SwarmProjectionView, id: Seq<char>) -> bool {
    begins(id, "agent-"@) && node_pos(p.nodes, id) >= 0
}

/// The shape that every reachable projection has: the brain is the brain,
/// node ids are unique and say what the node is, the thread `t` is linked
/// to the stored agent node "agent-" and `t`, and child lists have unique
/// owners and fit.
pub open spec fn well_formed(p: SwarmProjectionView) -> bool {
    &&& p.root.kind == SwarmNodeKind::Brain
    &&& ids_unique(p.nodes)
    &&& forall|i: int| 0 <= i < p.nodes.len() ==> node_shaped(p, #[trigger] p.nodes[i])
    &&& forall|j: int| 0 <= j < p.thread_nodes.len() ==> agent_stored(p, #[trigger] p.thread_nodes[j].1)
    &&& forall|j: int| 0 <= j < p.thread_nodes.len() ==> (#[trigger] p.thread_nodes[j]).1 == "agent-"@ + p.thread_nodes[j].0
    &&& lists_fit(p, p.child_order)
    &&& forall|i: int| 0 <= i < p.nodes.len() ==> node_listed(p, #[trigger] p.nodes[i])
}

/// A node other than a turn is named in the child list of its parent.
pub open spec fn node_listed(p: SwarmProjectionView, n: SwarmNodeView) -> bool {
    ||| begins(n.id, "turn-"@)
    ||| n.parent_id matches Some(q) && children_of(p.child_order, q).contains(n.id)
}

/// The child lists `co` have unique owners and fit the nodes of `p`.
pub open spec fn lists_fit(p: SwarmProjectionView, co: Seq<(Seq<char>, Seq<Seq<char>>)>) -> bool {
    &&& owners_unique(co)
    &&& forall|j: int| 0 <= j < co.len() ==> children_fit(p, #[trigger] co[j].0, co[j].1)
}

/// As `lists_fit`, except that `c` may be listed anywhere, once per list.
pub open spec fn lists_fit_except(
    p: SwarmProjectionView,
    co: Seq<(Seq<char>, Seq<Seq<char>>)>,
    c: Seq<char>,
) -> bool {
    &&& owners_unique(co)
    &&& forall|j: int| 0 <= j < co.len() ==> (#[trigger] co[j].1).no_duplicates()
    &&& forall|j: int, k: int|
        0 <= j < co.len() && 0 <= k < co[j].1.len() && co[j].1[k] != c ==> child_fits(
            p,
            co[j].0,
            #[trigger] co[j].1[k],
        )
}

/// `c` is in none of the lists `co`.
pub open spec fn unlisted(co: Seq<(Seq<char>, Seq<Seq<char>>)>, c: Seq<char>) -> bool {
    forall|j: int| 0 <= j < co.len() ==> !(#[trigger] co[j].1).contains(c)
}

pub(crate) proof fn lemma_first_key<V>(s: Seq<(Seq<char>, V)>, k: Seq<char>, i: int)
    requires
        0 <= i < s.len(),
        s[i].0 == k,
    ensures
        exists|m: int| 0 <= m <= i && s[m].0 == k && (forall|j: int| 0 <= j < m ==> s[j].0 != k),
    decreases i,
{
    if exists|j: int| 0 <= j < i && s[j].0 == k {
        let j = choose|j: int| 0 <= j < i && s[j].0 == k;
        lemma_first_key(s, k, j);
    }
}

/// Where `key_pos` points, and that it is -1 exactly when the key is absent.
pub(crate) proof fn lemma_key_pos_props<V>(s: Seq<(Seq<char>, V)>, k: Seq<char>)
    ensures
        key_pos(s, k) >= 0 <==> has_key(s, k),
        key_pos(s, k) >= 0 ==> key_pos(s, k) < s.len() && s[key_pos(s, k)].0 == k,
        key_pos(s, k) >= 0 ==> forall|j: int| 0 <= j < key_pos(s, k) ==> s[j].0 != k,
        key_pos(s, k) < 0 ==> key_pos(s, k) == -1,
{
    reveal(key_pos);
    if has_key(s, k) {
        let i = choose|i: int| 0 <= i < s.len() && s[i].0 == k;
        lemma_first_key(s, k, i);
    }
}

/// In a list of unique ids, `node_at` finds each stored node by its id.
pub(crate) proof fn lemma_node_at_stored(s: Seq<SwarmNodeView>, i: int)
    requires
        ids_unique(s),
        0 <= i < s.len(),
    ensures
        node_at(s, s[i].id) == Some(s[i]),
        node_pos(s, s[i].id) == i,
{
    assert forall|j: int| 0 <= j < i implies s[j].id != s[i].id by {
        assert(s[j].id != s[i].id);
    }
    lemma_node_pos_found(s, s[i].id, i);
}

/// A node is found by `node_at` exactly when some stored node has its id.
pub(crate) proof fn lemma_node_at_some(s: Seq<SwarmNodeView>, c: Seq<char>)
    ensures
        node_pos(s, c) >= 0 <==> exists|i: int| 0 <= i < s.len() && s[i].id == c,
        node_at(s, c) matches Some(n) ==> n.id == c && s.contains(n),
{
    lemma_node_pos_props(s, c);
    if exists|i: int| 0 <= i < s.len() && s[i].id == c {
        if node_pos(s, c) < 0 {
            let i = choose|i: int| 0 <= i < s.len() && s[i].id == c;
            crate::swarm::lemma_first_with_id(s, c, i);
            reveal(node_pos);
        }
    }
    if node_pos(s, c) >= 0 {
        assert(s[node_pos(s, c)] == s[node_pos(s, c)]);
    }
}

/// Replacing a stored node by one with the same id changes `node_at` only there.
pub(crate) proof fn lemma_node_at_update(s: Seq<SwarmNodeView>, i: int, x: SwarmNodeView, c: Seq<char>)
    requires
        ids_unique(s),
        0 <= i < s.len(),
        x.id == s[i].id,
    ensures
        ids_unique(s.update(i, x)),
        node_at(s.update(i, x), c) == if c == x.id {
            Some(x)
        } else {
            node_at(s, c)
        },
        node_pos(s.update(i, x), c) >= 0 <==> node_pos(s, c) >= 0,
{
    let t = s.update(i, x);
    assert forall|a: int, b: int| 0 <= a < b < t.len() implies #[trigger] t[a].id != #[trigger] t[b].id by {
        assert(s[a].id != s[b].id);
    }
    lemma_node_at_some(s, c);
    lemma_node_at_some(t, c);
    if exists|j: int| 0 <= j < s.len() && s[j].id == c {
        let j = choose|j: int| 0 <= j < s.len() && s[j].id == c;
        lemma_node_at_stored(s, j);
        lemma_node_at_stored(t, j);
        assert(t[j].id == c);
    } else {
        assert forall|j: int| 0 <= j < t.len() implies t[j].id != c by {
            if j != i {
                assert(t[j] == s[j]);
            }
        }
    }
}

/// Adding a node whose id is not stored changes `node_at` only at its id.
pub(crate) proof fn lemma_node_at_push(s: Seq<SwarmNodeView>, x: SwarmNodeView, c: Seq<char>)
    requires
        ids_unique(s),
        node_pos(s, x.id) < 0,
    ensures
        ids_unique(s.push(x)),
        node_at(s.push(x), c) == if c == x.id {
            Some(x)
        } else {
            node_at(s, c)
        },
        node_pos(s.push(x), c) >= 0 <==> (node_pos(s, c) >= 0 || c == x.id),
{
    let t = s.push(x);
    lemma_node_at_some(s, x.id);
    assert forall|a: int, b: int| 0 <= a < b < t.len() implies #[trigger] t[a].id != #[trigger] t[b].id by {
        if b == s.len() {
            assert(t[a] == s[a]);
        } else {
            assert(s[a].id != s[b].id);
        }
    }
    lemma_node_at_some(s, c);
    lemma_node_at_some(t, c);
    if exists|j: int| 0 <= j < s.len() && s[j].id == c {
        let j = choose|j: int| 0 <= j < s.len() && s[j].id == c;
        lemma_node_at_stored(s, j);
        lemma_node_at_stored(t, j);
        assert(t[j] == s[j]);
    } else if c == x.id {
        lemma_node_at_stored(t, s.len() as int);
    } else {
        assert forall|j: int| 0 <= j < t.len() implies t[j].id != c by {
            if j < s.len() {
                assert(t[j] == s[j]);
            }
        }
    }
}

/// Storing a node under its id changes `node_at` only at its id.
pub(crate) proof fn lemma_node_at_put(s: Seq<SwarmNodeView>, x: SwarmNodeView, c: Seq<char>)
    requires
        ids_unique(s),
    ensures
        ids_unique(put_node(s, x)),
        node_at(put_node(s, x), c) == if c == x.id {
            Some(x)
        } else {
            node_at(s, c)
        },
        node_pos(put_node(s, x), c) >= 0 <==> (node_pos(s, c) >= 0 || c == x.id),
{
    lemma_node_pos_props(s, x.id);
    lemma_node_at_some(s, c);
    lemma_node_at_some(s, x.id);
    if node_pos(s, x.id) >= 0 {
        lemma_node_at_update(s, node_pos(s, x.id), x, c);
    } else {
        lemma_node_at_push(s, x, c);
    }
}

/// Two projections that differ at most in the stored nodes and the brain's
/// fields other than its kind.
pub open spec fn same_links(p: SwarmProjectionView, q: SwarmProjectionView) -> bool {
    &&& q.root.kind == p.root.kind
    &&& q.child_order == p.child_order
    &&& q.item_nodes == p.item_nodes
    &&& q.thread_nodes == p.thread_nodes
}

/// The projection before any event has the shape.
pub proof fn lemma_initial_well_formed()
    ensures
        well_formed(initial_projection()),
{
}

/// Editing a stored node without changing its id, parent or kind keeps the shape.
pub proof fn lemma_edit_keeps_shape(
    p: SwarmProjectionView,
    q: SwarmProjectionView,
    id: Seq<char>,
    x: SwarmNodeView,
)
    requires
        well_formed(p),
        node_at(p.nodes, id) matches Some(n) && x.id == n.id && x.parent_id == n.parent_id
            && x.kind == n.kind,
        q.nodes == replace_node(p.nodes, id, x),
        same_links(p, q),
    ensures
        well_formed(q),
{
    let s = p.nodes;
    lemma_node_pos_props(s, id);
    let i = node_pos(s, id);
    let n = s[i];
    assert(q.nodes == s.update(i, x));
    lemma_node_at_update(s, i, x, id);
    assert forall|k: int| 0 <= k < q.nodes.len() implies node_shaped(q, #[trigger] q.nodes[k]) by {
        assert(node_shaped(p, s[k]));
    }
    assert forall|j: int| 0 <= j < q.thread_nodes.len() implies agent_stored(q, #[trigger] q.thread_nodes[j].1) by {
        assert(agent_stored(p, p.thread_nodes[j].1));
        lemma_node_at_update(s, i, x, p.thread_nodes[j].1);
    }
    assert forall|j: int| 0 <= j < q.child_order.len() implies children_fit(
        q,
        #[trigger] q.child_order[j].0,
        q.child_order[j].1,
    ) by {
        assert(children_fit(p, p.child_order[j].0, p.child_order[j].1));
        let owner = p.child_order[j].0;
        let kids = p.child_order[j].1;
        assert(children_fit(p, owner, kids));
        assert forall|k: int| 0 <= k < kids.len() implies child_fits(q, owner, #[trigger] kids[k]) by {
            assert(child_fits(p, owner, kids[k]));
            lemma_node_at_update(s, i, x, kids[k]);
        }
    }
}

/// Starting a turn keeps the shape.
pub proof fn lemma_started_keeps_shape(
    p: SwarmProjectionView,
    prompt: Seq<char>,
    n_att: nat,
    settings: ChatTurnSettings,
)
    requires
        well_formed(p),
    ensures
        well_formed(started(p, prompt, n_att, settings)),
{
    let q = started(p, prompt, n_att, settings);
    let tid = turn_id_for(p.next_turn_index);
    let s = p.nodes;
    let x = q.nodes[if node_pos(s, tid) >= 0 { node_pos(s, tid) } else { s.len() as int }];
    reveal_strlit("turn-local-");
    reveal_strlit("turn-");
    reveal_strlit("node-");
    reveal_strlit("agent-");
    assert(tid.take(5) =~= "turn-"@);
    lemma_node_pos_props(s, tid);
    lemma_node_at_put(s, x, tid);
    assert(q.nodes == put_node(s, x));
    assert(node_shaped(q, x));
    assert forall|k: int| 0 <= k < q.nodes.len() implies node_shaped(q, #[trigger] q.nodes[k]) by {
        if k < s.len() && q.nodes[k] == s[k] {
            assert(node_shaped(p, s[k]));
        }
    }
    assert forall|j: int| 0 <= j < q.thread_nodes.len() implies agent_stored(q, #[trigger] q.thread_nodes[j].1) by {
        assert(agent_stored(p, p.thread_nodes[j].1));
        lemma_node_at_put(s, x, p.thread_nodes[j].1);
    }
    let co = p.child_order;
    lemma_key_pos_props(co, tid);
    assert(owners_unique(q.child_order));
    assert forall|j: int| 0 <= j < q.child_order.len() implies children_fit(
        q,
        #[trigger] q.child_order[j].0,
        q.child_order[j].1,
    ) by {
        if j < co.len() {
            assert(children_fit(p, co[j].0, co[j].1));
            let owner = co[j].0;
            let kids = co[j].1;
            assert(q.child_order[j] == co[j]);
            assert(children_fit(p, owner, kids));
            assert forall|k: int| 0 <= k < kids.len() implies child_fits(q, owner, #[trigger] kids[k]) by {
                assert(child_fits(p, owner, kids[k]));
                lemma_node_at_put(s, x, kids[k]);
                if kids[k] == tid {
                    assert(kids[k].take(5) == tid.take(5));
                }
            }
        } else {
            assert(q.child_order[j].1 =~= Seq::<Seq<char>>::empty());
        }
    }
    assert forall|k: int| 0 <= k < q.nodes.len() implies node_listed(q, #[trigger] q.nodes[k]) by {
        if k < s.len() && q.nodes[k] == s[k] {
            assert(node_listed(p, s[k]));
            if let Some(par) = s[k].parent_id {
                lemma_children_of_ensure(co, tid, par);
            }
        } else {
            assert(q.nodes[k] == x);
            assert(x.id.take(5) == tid.take(5));
        }
    }
}

/// `without(s, x)` keeps the entries other than `x`, each once if they were.
pub proof fn lemma_without(s: Seq<Seq<char>>, x: Seq<char>)
    ensures
        forall|c: Seq<char>| #[trigger] without(s, x).contains(c) <==> (s.contains(c) && c != x),
        s.no_duplicates() ==> without(s, x).no_duplicates(),
    decreases s.len(),
{
    if s.len() > 0 {
        let d = s.drop_last();
        lemma_without(d, x);
        assert(s == d.push(s.last()));
        lemma_without_push(d, x, s.last());
        assert forall|c: Seq<char>| #[trigger] without(s, x).contains(c) <==> (s.contains(c) && c != x) by {
            let w = without(d, x);
            assert(s.contains(c) <==> (d.contains(c) || c == s.last())) by {
                if s.contains(c) && c != s.last() {
                    let k = choose|k: int| 0 <= k < s.len() && s[k] == c;
                    assert(d[k] == c);
                }
                if d.contains(c) {
                    let k = choose|k: int| 0 <= k < d.len() && d[k] == c;
                    assert(s[k] == c);
                }
                assert(s[s.len() - 1] == s.last());
            }
            assert(w.contains(c) <==> (d.contains(c) && c != x));
            if s.last() != x {
                assert(w.push(s.last()).contains(c) <==> (w.contains(c) || c == s.last())) by {
                    let v = w.push(s.last());
                    if v.contains(c) && c != s.last() {
                        let k = choose|k: int| 0 <= k < v.len() && v[k] == c;
                        assert(w[k] == c);
                    }
                    if w.contains(c) {
                        let k = choose|k: int| 0 <= k < w.len() && w[k] == c;
                        assert(v[k] == c);
                    }
                    assert(v[w.len() as int] == s.last());
                }
            }
        }
        if s.no_duplicates() {
            assert(d.no_duplicates()) by {
                assert forall|a: int, b: int| 0 <= a < d.len() && 0 <= b < d.len() && a != b implies d[a] != d[b] by {
                    assert(s[a] == d[a] && s[b] == d[b]);
                }
            }
            if s.last() != x {
                let w = without(d, x);
                assert(!w.contains(s.last())) by {
                    if d.contains(s.last()) {
                        let k = choose|k: int| 0 <= k < d.len() && d[k] == s.last();
                        assert(s[k] == s[s.len() - 1]);
                    }
                }
                assert forall|a: int, b: int|
                    0 <= a < w.push(s.last()).len() && 0 <= b < w.push(s.last()).len() && a != b implies
                    w.push(s.last())[a] != w.push(s.last())[b] by {
                    if a == w.len() {
                        assert(w.contains(w[b]));
                    } else if b == w.len() {
                        assert(w.contains(w[a]));
                    }
                }
            }
        }
    }
}

/// Two entry lists with the same keys find each key at the same place.
pub proof fn lemma_key_pos_same_keys<V>(s: Seq<(Seq<char>, V)>, t: Seq<(Seq<char>, V)>, k: Seq<char>)
    requires
        s.len() == t.len(),
        forall|i: int| 0 <= i < s.len() ==> #[trigger] s[i].0 == t[i].0,
    ensures
        key_pos(s, k) == key_pos(t, k),
{
    lemma_key_pos_props(s, k);
    if key_pos(s, k) >= 0 {
        assert(t[key_pos(s, k)].0 == s[key_pos(s, k)].0);
        assert forall|j: int| 0 <= j < key_pos(s, k) implies t[j].0 != k by {
            assert(s[j].0 == t[j].0);
        }
        lemma_key_pos_found(t, k, key_pos(s, k));
    } else {
        assert forall|j: int| 0 <= j < t.len() implies t[j].0 != k by {
            assert(s[j].0 == t[j].0);
        }
        lemma_key_pos_none(t, k);
    }
}

/// An entry added for a new key is found only for that key.
pub proof fn lemma_key_pos_push<V>(s: Seq<(Seq<char>, V)>, e: (Seq<char>, V), k: Seq<char>)
    requires
        !has_key(s, e.0),
    ensures
        key_pos(s.push(e), k) == if k == e.0 {
            s.len() as int
        } else {
            key_pos(s, k)
        },
{
    let t = s.push(e);
    lemma_key_pos_props(s, k);
    if k == e.0 {
        assert forall|j: int| 0 <= j < s.len() implies t[j].0 != k by {
            assert(t[j] == s[j]);
        }
        lemma_key_pos_found(t, k, s.len() as int);
    } else if key_pos(s, k) >= 0 {
        assert forall|j: int| 0 <= j < key_pos(s, k) implies t[j].0 != k by {
            assert(t[j] == s[j]);
        }
        lemma_key_pos_found(t, k, key_pos(s, k));
    } else {
        assert forall|j: int| 0 <= j < t.len() implies t[j].0 != k by {
            if j < s.len() {
                assert(t[j] == s[j]);
            }
        }
        lemma_key_pos_none(t, k);
    }
}

/// The children of each node after `c` was added under `parent`.
pub proof fn lemma_children_of_push_child(
    co: Seq<(Seq<char>, Seq<Seq<char>>)>,
    parent: Seq<char>,
    c: Seq<char>,
    q: Seq<char>,
)
    ensures
        children_of(push_child(co, parent, c), q) == if q == parent {
            children_of(co, q).push(c)
        } else {
            children_of(co, q)
        },
{
    lemma_key_pos_props(co, parent);
    lemma_key_pos_props(co, q);
    let i = key_pos(co, parent);
    let co2 = push_child(co, parent, c);
    if i >= 0 {
        assert forall|j: int| 0 <= j < co.len() implies #[trigger] co[j].0 == co2[j].0 by {}
        lemma_key_pos_same_keys(co, co2, q);
        if key_pos(co, q) >= 0 && q != parent {
            assert(co2[key_pos(co, q)] == co[key_pos(co, q)]);
        }
    } else {
        lemma_key_pos_push(co, (parent, seq![c]), q);
        assert(seq![c] =~= Seq::<Seq<char>>::empty().push(c));
    }
}

/// The children of each node after `c` was taken off the list of `owner`.
pub proof fn lemma_children_of_remove_child(
    co: Seq<(Seq<char>, Seq<Seq<char>>)>,
    owner: Seq<char>,
    c: Seq<char>,
    q: Seq<char>,
)
    ensures
        children_of(remove_child(co, owner, c), q) == if q == owner {
            without(children_of(co, q), c)
        } else {
            children_of(co, q)
        },
{
    lemma_key_pos_props(co, owner);
    lemma_key_pos_props(co, q);
    let i = key_pos(co, owner);
    let co2 = remove_child(co, owner, c);
    if i >= 0 {
        assert forall|j: int| 0 <= j < co.len() implies #[trigger] co[j].0 == co2[j].0 by {}
        lemma_key_pos_same_keys(co, co2, q);
        if key_pos(co, q) >= 0 && q != owner {
            assert(co2[key_pos(co, q)] == co[key_pos(co, q)]);
        }
    } else {
        assert(without(Seq::<Seq<char>>::empty(), c) == Seq::<Seq<char>>::empty());
    }
}

/// Making sure `k` has a list changes no node's children.
pub proof fn lemma_children_of_ensure(co: Seq<(Seq<char>, Seq<Seq<char>>)>, k: Seq<char>, q: Seq<char>)
    ensures
        children_of(ensure_children(co, k), q) == children_of(co, q),
{
    lemma_key_pos_props(co, k);
    lemma_key_pos_props(co, q);
    if key_pos(co, k) < 0 {
        lemma_key_pos_push(co, (k, Seq::<Seq<char>>::empty()), q);
        let co2 = ensure_children(co, k);
        if key_pos(co, q) >= 0 {
            assert(co2[key_pos(co, q)] == co[key_pos(co, q)]);
        }
    }
}

/// Adding a fitting child that no list names keeps the lists fitting.
pub proof fn lemma_push_child_fits(
    q: SwarmProjectionView,
    co: Seq<(Seq<char>, Seq<Seq<char>>)>,
    parent: Seq<char>,
    c: Seq<char>,
)
    requires
        lists_fit(q, co),
        unlisted(co, c),
        child_fits(q, parent, c),
    ensures
        lists_fit(q, push_child(co, parent, c)),
{
    lemma_key_pos_props(co, parent);
    let i = key_pos(co, parent);
    let co2 = push_child(co, parent, c);
    if i >= 0 {
        assert(children_fit(q, co[i].0, co[i].1));
        let kids = co[i].1;
        let k2 = kids.push(c);
        assert(!kids.contains(c));
        assert(k2.no_duplicates()) by {
            assert forall|a: int, b: int| 0 <= a < k2.len() && 0 <= b < k2.len() && a != b implies k2[a] != k2[b] by {
                if a == kids.len() {
                    assert(kids.contains(kids[b]));
                } else if b == kids.len() {
                    assert(kids.contains(kids[a]));
                }
            }
        }
        assert forall|k: int| 0 <= k < k2.len() implies child_fits(q, parent, #[trigger] k2[k]) by {
            if k < kids.len() {
                assert(child_fits(q, parent, kids[k]));
            }
        }
        assert forall|j: int| 0 <= j < co2.len() implies children_fit(q, #[trigger] co2[j].0, co2[j].1) by {
            if j != i {
                assert(children_fit(q, co[j].0, co[j].1));
            }
        }
    } else {
        assert forall|a: int, b: int| 0 <= a < b < co2.len() implies #[trigger] co2[a].0 != #[trigger] co2[b].0 by {
            if b == co.len() {
                assert(co[a].0 != parent);
            }
        }
        assert forall|j: int| 0 <= j < co2.len() implies children_fit(q, #[trigger] co2[j].0, co2[j].1) by {
            if j < co.len() {
                assert(children_fit(q, co[j].0, co[j].1));
            } else {
                assert(co2[j].1 == seq![c]);
                assert(seq![c][0] == c);
            }
        }
    }
}

/// Removing `c` from the list of `owner`, the only list that names it,
/// leaves lists that fit and name `c` nowhere.
pub proof fn lemma_remove_child_fits(
    q: SwarmProjectionView,
    co: Seq<(Seq<char>, Seq<Seq<char>>)>,
    owner: Seq<char>,
    c: Seq<char>,
)
    requires
        lists_fit_except(q, co, c),
        forall|j: int| 0 <= j < co.len() && (#[trigger] co[j].1).contains(c) ==> co[j].0 == owner,
    ensures
        lists_fit(q, remove_child(co, owner, c)),
        unlisted(remove_child(co, owner, c), c),
{
    lemma_key_pos_props(co, owner);
    let i = key_pos(co, owner);
    let co2 = remove_child(co, owner, c);
    if i >= 0 {
        lemma_without(co[i].1, c);
    }
    assert forall|j: int| 0 <= j < co2.len() implies children_fit(q, #[trigger] co2[j].0, co2[j].1) by {
        if j == i {
            let w = without(co[i].1, c);
            assert forall|k: int| 0 <= k < w.len() implies child_fits(q, owner, #[trigger] w[k]) by {
                assert(w.contains(w[k]));
                assert(co[i].1.contains(w[k]));
                let m = choose|m: int| 0 <= m < co[i].1.len() && co[i].1[m] == w[k];
                assert(child_fits(q, co[i].0, co[i].1[m]));
            }
        } else {
            assert(co2[j] == co[j]);
            assert forall|k: int| 0 <= k < co[j].1.len() implies child_fits(q, co[j].0, #[trigger] co[j].1[k]) by {
                if co[j].1[k] == c {
                    assert(co[j].1.contains(c));
                }
            }
        }
    }
    assert forall|j: int| 0 <= j < co2.len() implies !(#[trigger] co2[j].1).contains(c) by {
        if j != i {
            assert(co2[j] == co[j]);
        }
    }
}

/// The three kinds of node ids exclude one another, and the ids made for
/// items and agents have the shape of their kind.
pub proof fn lemma_prefixes(id: Seq<char>, x: Seq<char>)
    ensures
        begins(id, "node-"@) ==> !begins(id, "agent-"@) && !begins(id, "turn-"@),
        begins(id, "agent-"@) ==> !begins(id, "turn-"@),
        begins("node-"@ + x, "node-"@) && ("node-"@ + x).skip(5) == x,
        begins("agent-"@ + x, "agent-"@) && ("agent-"@ + x).skip(6) == x,
{
    reveal_strlit("node-");
    reveal_strlit("agent-");
    reveal_strlit("turn-");
    if begins(id, "node-"@) {
        assert(id[0] == id.take(5)[0]);
        if begins(id, "agent-"@) {
            assert(id[0] == id.take(6)[0]);
        }
        if begins(id, "turn-"@) {
            assert(id[0] == id.take(5)[0]);
        }
    }
    if begins(id, "agent-"@) && begins(id, "turn-"@) {
        assert(id[0] == id.take(6)[0]);
        assert(id[0] == id.take(5)[0]);
    }
    assert(("node-"@ + x).take(5) =~= "node-"@);
    assert(("node-"@ + x).skip(5) =~= x);
    assert(("agent-"@ + x).take(6) =~= "agent-"@);
    assert(("agent-"@ + x).skip(6) =~= x);
}

/// Linking `k` adds `k` to the linked keys and keeps the others.
pub proof fn lemma_put_link_keys(s: Seq<(Seq<char>, Seq<char>)>, k: Seq<char>, v: Seq<char>, k2: Seq<char>)
    ensures
        has_key(put_link(s, k, v), k2) <==> (has_key(s, k2) || k2 == k),
        put_link(s, k, v).len() >= s.len(),
        forall|j: int| 0 <= j < put_link(s, k, v).len() ==> (#[trigger] put_link(s, k, v)[j]).1 == v
            || (j < s.len() && put_link(s, k, v)[j] == s[j]),
{
    lemma_key_pos_props(s, k);
    let t = put_link(s, k, v);
    let i = key_pos(s, k);
    if has_key(s, k2) {
        let j = choose|j: int| 0 <= j < s.len() && s[j].0 == k2;
        assert(t[j].0 == k2);
    }
    if has_key(t, k2) {
        let j = choose|j: int| 0 <= j < t.len() && t[j].0 == k2;
        if j < s.len() && j != i {
            assert(s[j].0 == k2);
        }
    }
    if k2 == k {
        if i >= 0 {
            assert(t[i].0 == k);
        } else {
            assert(t[s.len() as int].0 == k);
        }
    }
}

/// After a new node `x` was stored and listed under its parent, every node
/// other than a turn is listed under its parent.
pub proof fn lemma_new_node_listed(p: SwarmProjectionView, q: SwarmProjectionView, x: SwarmNodeView, parent: Seq<char>)
    requires
        forall|i: int| 0 <= i < p.nodes.len() ==> node_listed(p, #[trigger] p.nodes[i]),
        q.nodes == p.nodes.push(x),
        x.parent_id == Some(parent),
        q.child_order == push_child(p.child_order, parent, x.id),
    ensures
        forall|i: int| 0 <= i < q.nodes.len() ==> node_listed(q, #[trigger] q.nodes[i]),
{
    assert forall|i: int| 0 <= i < q.nodes.len() implies node_listed(q, #[trigger] q.nodes[i]) by {
        if i < p.nodes.len() {
            let n = p.nodes[i];
            assert(q.nodes[i] == n);
            assert(node_listed(p, n));
            if let Some(par) = n.parent_id {
                lemma_children_of_push_child(p.child_order, parent, x.id, par);
                if children_of(p.child_order, par).contains(n.id) {
                    let k = choose|k: int| 0 <= k < children_of(p.child_order, par).len() && children_of(p.child_order, par)[k] == n.id;
                    assert(children_of(q.child_order, par)[k] == n.id);
                }
            }
        } else {
            lemma_children_of_push_child(p.child_order, parent, x.id, parent);
            let l = children_of(p.child_order, parent);
            assert(children_of(q.child_order, parent)[l.len() as int] == x.id);
        }
    }
}

/// Adding a node with a new id, with links only added, keeps the old nodes'
/// shape, the old thread links and the old child lists fitting, and no old
/// list names the new node.
pub proof fn lemma_extend_keeps(p: SwarmProjectionView, q: SwarmProjectionView, x: SwarmNodeView)
    requires
        well_formed(p),
        node_pos(p.nodes, x.id) < 0,
        q.nodes == p.nodes.push(x),
        forall|k: Seq<char>| has_key(p.item_nodes, k) ==> #[trigger] has_key(q.item_nodes, k),
        forall|k: Seq<char>| has_key(p.thread_nodes, k) ==> #[trigger] has_key(q.thread_nodes, k),
        node_shaped(q, x),
    ensures
        ids_unique(q.nodes),
        forall|i: int| 0 <= i < q.nodes.len() ==> node_shaped(q, #[trigger] q.nodes[i]),
        forall|j: int| 0 <= j < p.thread_nodes.len() ==> agent_stored(q, #[trigger] p.thread_nodes[j].1),
        lists_fit(q, p.child_order),
        unlisted(p.child_order, x.id),
        node_at(q.nodes, x.id) == Some(x),
{
    let s = p.nodes;
    lemma_node_at_push(s, x, x.id);
    assert forall|i: int| 0 <= i < q.nodes.len() implies node_shaped(q, #[trigger] q.nodes[i]) by {
        if i < s.len() {
            assert(q.nodes[i] == s[i]);
            assert(node_shaped(p, s[i]));
            assert(has_key(p.item_nodes, s[i].id.skip(5)) ==> has_key(q.item_nodes, s[i].id.skip(5)));
            assert(has_key(p.thread_nodes, s[i].id.skip(6)) ==> has_key(q.thread_nodes, s[i].id.skip(6)));
        }
    }
    assert forall|j: int| 0 <= j < p.thread_nodes.len() implies agent_stored(q, #[trigger] p.thread_nodes[j].1) by {
        assert(agent_stored(p, p.thread_nodes[j].1));
        lemma_node_at_push(s, x, p.thread_nodes[j].1);
    }
    let co = p.child_order;
    assert forall|j: int| 0 <= j < co.len() implies children_fit(q, #[trigger] co[j].0, co[j].1) by {
        assert(children_fit(p, co[j].0, co[j].1));
        assert forall|k: int| 0 <= k < co[j].1.len() implies child_fits(q, co[j].0, #[trigger] co[j].1[k]) by {
            assert(child_fits(p, co[j].0, co[j].1[k]));
            lemma_node_at_push(s, x, co[j].1[k]);
            lemma_node_pos_props(s, co[j].1[k]);
        }
    }
    assert forall|j: int| 0 <= j < co.len() implies !(#[trigger] co[j].1).contains(x.id) by {
        assert(children_fit(p, co[j].0, co[j].1));
        if co[j].1.contains(x.id) {
            let k = choose|k: int| 0 <= k < co[j].1.len() && co[j].1[k] == x.id;
            assert(child_fits(p, co[j].0, co[j].1[k]));
            lemma_node_pos_props(s, x.id);
        }
    }
}

/// Ensuring the node of an item keeps the shape.
pub proof fn lemma_item_ensured_keeps_shape(
    p: SwarmProjectionView,
    item_id: Seq<char>,
    title: Seq<char>,
    detail: Seq<char>,
    kind: SwarmNodeKind,
    complete: bool,
)
    requires
        well_formed(p),
        kind != SwarmNodeKind::Agent,
    ensures
        well_formed(item_ensured(p, item_id, title, detail, kind, complete).0),
{
    let r = item_ensured(p, item_id, title, detail, kind, complete);
    lemma_key_pos_props(p.item_nodes, item_id);
    if link_of(p.item_nodes, item_id) is None {
        if let Some(parent) = p.active_turn_node_id {
            let q = r.0;
            let nid = "node-"@ + item_id;
            let s = p.nodes;
            lemma_prefixes(nid, item_id);
            lemma_node_pos_props(s, nid);
            lemma_node_at_some(s, nid);
            if node_pos(s, nid) >= 0 {
                let i = node_pos(s, nid);
                assert(node_shaped(p, s[i]));
                lemma_prefixes(s[i].id, item_id);
            }
            let x = q.nodes[s.len() as int];
            assert(q.nodes == s.push(x));
            assert forall|k: Seq<char>| has_key(p.item_nodes, k) implies #[trigger] has_key(q.item_nodes, k) by {
                lemma_put_link_keys(p.item_nodes, item_id, nid, k);
            }
            lemma_put_link_keys(p.item_nodes, item_id, nid, item_id);
            assert(node_shaped(q, x));
            lemma_extend_keeps(p, q, x);
            lemma_push_child_fits(q, p.child_order, parent, nid);
            lemma_new_node_listed(p, q, x, parent);
        }
    }
}

/// Moving an agent node under a new parent keeps the shape, and the moved
/// node keeps its id and kind and has the new parent.
pub proof fn lemma_reparented_keeps_shape(p: SwarmProjectionView, existing: Seq<char>, parent: Seq<char>)
    requires
        well_formed(p),
        agent_stored(p, existing),
    ensures
        well_formed(reparented(p, existing, parent)),
        node_at(reparented(p, existing, parent).nodes, existing) matches Some(m) && node_at(
            p.nodes,
            existing,
        ) matches Some(n) && m.id == n.id && m.kind == n.kind && m.parent_id == Some(parent),
{
    let q = reparented(p, existing, parent);
    let s = p.nodes;
    let co = p.child_order;
    lemma_node_pos_props(s, existing);
    let i = node_pos(s, existing);
    let n = s[i];
    let n2 = q.nodes[i];
    assert(q.nodes == s.update(i, n2));
    lemma_node_at_update(s, i, n2, existing);
    lemma_prefixes(existing, existing);
    assert forall|k: int| 0 <= k < q.nodes.len() implies node_shaped(q, #[trigger] q.nodes[k]) by {
        assert(node_shaped(p, s[k]));
    }
    assert forall|j: int| 0 <= j < q.thread_nodes.len() implies agent_stored(q, #[trigger] q.thread_nodes[j].1) by {
        assert(agent_stored(p, p.thread_nodes[j].1));
        lemma_node_at_update(s, i, n2, p.thread_nodes[j].1);
    }
    assert(lists_fit_except(q, co, existing)) by {
        assert forall|j: int| 0 <= j < co.len() implies (#[trigger] co[j].1).no_duplicates() by {
            assert(children_fit(p, co[j].0, co[j].1));
        }
        assert forall|j: int, k: int|
            0 <= j < co.len() && 0 <= k < co[j].1.len() && co[j].1[k] != existing implies child_fits(
            q,
            co[j].0,
            #[trigger] co[j].1[k],
        ) by {
            assert(children_fit(p, co[j].0, co[j].1));
            assert(child_fits(p, co[j].0, co[j].1[k]));
            lemma_node_at_update(s, i, n2, co[j].1[k]);
        }
    }
    assert forall|j: int| 0 <= j < co.len() && (#[trigger] co[j].1).contains(existing) implies n.parent_id
        == Some(co[j].0) by {
        assert(children_fit(p, co[j].0, co[j].1));
        let k = choose|k: int| 0 <= k < co[j].1.len() && co[j].1[k] == existing;
        assert(child_fits(p, co[j].0, co[j].1[k]));
    }
    let co1 = match n.parent_id {
        Some(cur) => remove_child(co, cur, existing),
        None => co,
    };
    match n.parent_id {
        Some(cur) => {
            lemma_remove_child_fits(q, co, cur, existing);
        },
        None => {
            assert forall|j: int| 0 <= j < co.len() implies children_fit(q, #[trigger] co[j].0, co[j].1) by {
                assert(children_fit(p, co[j].0, co[j].1));
                assert forall|k: int| 0 <= k < co[j].1.len() implies child_fits(q, co[j].0, #[trigger] co[j].1[k]) by {
                    if co[j].1[k] == existing {
                        assert(co[j].1.contains(existing));
                    }
                }
            }
        },
    }
    assert(q.child_order == push_child(co1, parent, existing));
    lemma_push_child_fits(q, co1, parent, existing);
    assert forall|k: int| 0 <= k < q.nodes.len() implies node_listed(q, #[trigger] q.nodes[k]) by {
        if k == i {
            lemma_children_of_push_child(co1, parent, existing, parent);
            let l = children_of(co1, parent);
            assert(children_of(q.child_order, parent)[l.len() as int] == existing);
        } else {
            let m = s[k];
            assert(q.nodes[k] == m);
            assert(node_listed(p, m));
            assert(m.id != existing) by {
                assert(s[k].id != s[i].id);
            }
            if let Some(par) = m.parent_id {
                if children_of(co, par).contains(m.id) {
                    match n.parent_id {
                        Some(cur) => {
                            lemma_children_of_remove_child(co, cur, existing, par);
                            lemma_without(children_of(co, par), existing);
                        },
                        None => {},
                    }
                    assert(children_of(co1, par).contains(m.id));
                    lemma_children_of_push_child(co1, parent, existing, par);
                    let j = choose|j: int| 0 <= j < children_of(co1, par).len() && children_of(co1, par)[j] == m.id;
                    assert(children_of(q.child_order, par)[j] == m.id);
                }
            }
        }
    }
}

/// Ensuring the node of an agent thread keeps the shape.
pub proof fn lemma_agent_ensured_keeps_shape(
    p: SwarmProjectionView,
    thread_id: Seq<char>,
    label: Seq<char>,
    model: Option<Seq<char>>,
    reasoning: Option<Seq<char>>,
    states: Seq<CollabAgentStateInfo>,
    sender: Option<Seq<char>>,
)
    requires
        well_formed(p),
    ensures
        well_formed(agent_ensured(p, thread_id, label, model, reasoning, states, sender).0),
{
    let r = agent_ensured(p, thread_id, label, model, reasoning, states, sender).0;
    let parent = agent_parent(p, sender);
    let s = p.nodes;
    lemma_key_pos_props(p.thread_nodes, thread_id);
    match link_of(p.thread_nodes, thread_id) {
        Some(existing) => {
            assert(agent_stored(p, p.thread_nodes[key_pos(p.thread_nodes, thread_id)].1));
            lemma_node_pos_props(s, existing);
            let n = s[node_pos(s, existing)];
            if n.parent_id != Some(parent) {
                let q = reparented(p, existing, parent);
                lemma_reparented_keeps_shape(p, existing, parent);
                let m = q.nodes[node_pos(q.nodes, existing)];
                lemma_node_pos_props(q.nodes, existing);
                let m2 = r.nodes[node_pos(q.nodes, existing)];
                lemma_edit_keeps_shape(q, r, existing, m2);
            } else {
                let m2 = r.nodes[node_pos(s, existing)];
                lemma_edit_keeps_shape(p, r, existing, m2);
            }
        },
        None => {
            let nid = "agent-"@ + thread_id;
            lemma_prefixes(nid, thread_id);
            lemma_node_pos_props(s, nid);
            if node_pos(s, nid) >= 0 {
                let i = node_pos(s, nid);
                assert(node_shaped(p, s[i]));
                lemma_prefixes(s[i].id, thread_id);
            }
            let x = r.nodes[s.len() as int];
            lemma_node_at_put(s, x, nid);
            assert(r.nodes == s.push(x));
            assert forall|k: Seq<char>| has_key(p.thread_nodes, k) implies #[trigger] has_key(r.thread_nodes, k) by {
                lemma_put_link_keys(p.thread_nodes, thread_id, nid, k);
            }
            lemma_put_link_keys(p.thread_nodes, thread_id, nid, thread_id);
            assert(node_shaped(r, x));
            lemma_extend_keeps(p, r, x);
            assert forall|j: int| 0 <= j < r.thread_nodes.len() implies agent_stored(r, #[trigger] r.thread_nodes[j].1) by {
                lemma_node_at_push(s, x, nid);
                if r.thread_nodes[j].1 != nid {
                    assert(agent_stored(r, p.thread_nodes[j].1));
                }
            }
            lemma_push_child_fits(r, p.child_order, parent, nid);
            lemma_new_node_listed(p, r, x, parent);
        },
    }
}

/// A step that edits at most the stored node `id`, keeping its id, parent
/// and kind, keeps the shape.
pub proof fn lemma_step_edit(p: SwarmProjectionView, q: SwarmProjectionView, id: Seq<char>)
    requires
        well_formed(p),
        same_links(p, q),
        q.nodes == p.nodes || (node_pos(p.nodes, id) >= 0 && q.nodes == p.nodes.update(
            node_pos(p.nodes, id),
            q.nodes[node_pos(p.nodes, id)],
        ) && q.nodes[node_pos(p.nodes, id)].id == p.nodes[node_pos(p.nodes, id)].id
            && q.nodes[node_pos(p.nodes, id)].parent_id == p.nodes[node_pos(p.nodes, id)].parent_id
            && q.nodes[node_pos(p.nodes, id)].kind == p.nodes[node_pos(p.nodes, id)].kind),
    ensures
        well_formed(q),
{
    if q.nodes != p.nodes {
        lemma_node_pos_props(p.nodes, id);
        let x = q.nodes[node_pos(p.nodes, id)];
        lemma_edit_keeps_shape(p, q, id, x);
    } else {
        assert forall|k: int| 0 <= k < q.nodes.len() implies node_shaped(q, #[trigger] q.nodes[k]) by {
            assert(node_shaped(p, p.nodes[k]));
        }
        assert forall|j: int| 0 <= j < q.child_order.len() implies children_fit(
            q,
            #[trigger] q.child_order[j].0,
            q.child_order[j].1,
        ) by {
            assert(children_fit(p, p.child_order[j].0, p.child_order[j].1));
        }
    }
}

/// Applying reported agent states keeps the shape.
pub proof fn lemma_states_keep_shape(p: SwarmProjectionView, states: Seq<CollabAgentStateInfo>)
    requires
        well_formed(p),
    ensures
        well_formed(states_applied(p, states)),
    decreases states.len(),
{
    if states.len() > 0 {
        lemma_states_keep_shape(p, states.drop_last());
        let q = states_applied(p, states.drop_last());
        let st = states.last();
        if let Some(nid) = link_of(q.thread_nodes, st.thread_id@) {
            lemma_node_pos_props(q.nodes, nid);
            lemma_step_edit(q, states_applied(p, states), nid);
        }
    }
}

/// Linking the agents of the receiving threads keeps the shape.
pub proof fn lemma_receivers_keep_shape(
    p: SwarmProjectionView,
    receivers: Seq<String>,
    model: Option<Seq<char>>,
    reasoning: Option<Seq<char>>,
    states: Seq<CollabAgentStateInfo>,
    sender: Seq<char>,
)
    requires
        well_formed(p),
    ensures
        well_formed(receivers_linked(p, receivers, model, reasoning, states, sender)),
    decreases receivers.len(),
{
    if receivers.len() > 0 {
        lemma_receivers_keep_shape(p, receivers.drop_last(), model, reasoning, states, sender);
        let q = receivers_linked(p, receivers.drop_last(), model, reasoning, states, sender);
        let r = receivers.last()@;
        lemma_agent_ensured_keeps_shape(
            q,
            r,
            crate::swarm::agent_label_of(q, r),
            model,
            reasoning,
            states,
            Some(sender),
        );
    }
}

/// Finishing an item node keeps the shape.
pub proof fn lemma_item_finished_keeps_shape(
    q: SwarmProjectionView,
    nid: Seq<char>,
    title: Seq<char>,
    detail: Seq<char>,
    status: crate::swarm::SwarmNodeStatus,
    subtitle: Option<Seq<char>>,
)
    requires
        well_formed(q),
    ensures
        well_formed(item_finished(q, nid, title, detail, status, subtitle)),
{
    lemma_node_pos_props(q.nodes, nid);
    lemma_step_edit(q, item_finished(q, nid, title, detail, status, subtitle), nid);
}

/// Every event of the chat stream keeps the shape.
pub proof fn lemma_event_keeps_shape(p: SwarmProjectionView, e: ChatStreamEvent)
    requires
        well_formed(p),
    ensures
        well_formed(event_applied(p, e)),
{
    let q = event_applied(p, e);
    let t = match p.active_turn_node_id {
        Some(t) => t,
        None => root_id(),
    };
    lemma_node_pos_props(p.nodes, t);
    match e {
        ChatStreamEvent::Activity { item_id, title, detail, agent_label: _, complete } => {
            lemma_item_ensured_keeps_shape(p, item_id@, title@, detail@, SwarmNodeKind::Activity, complete);
            let (q1, nid) = item_ensured(p, item_id@, title@, detail@, SwarmNodeKind::Activity, complete);
            lemma_item_finished_keeps_shape(q1, nid, title@, detail@, done_or_running(complete), None);
        },
        ChatStreamEvent::AgentThread { thread_id, label } => {
            lemma_agent_ensured_keeps_shape(p, thread_id@, label@, None, None, Seq::empty(), None);
        },
        ChatStreamEvent::CollabTool {
            item_id,
            title,
            detail,
            agent_label: _,
            tool,
            sender_thread_id,
            receiver_thread_ids,
            model,
            reasoning_effort,
            agent_states,
            complete,
        } => {
            lemma_item_ensured_keeps_shape(p, item_id@, title@, detail@, SwarmNodeKind::Activity, complete);
            let (q1, nid) = item_ensured(p, item_id@, title@, detail@, SwarmNodeKind::Activity, complete);
            lemma_item_finished_keeps_shape(q1, nid, title@, detail@, done_or_running(complete), Some(tool@));
            let q2 = item_finished(q1, nid, title@, detail@, done_or_running(complete), Some(tool@));
            lemma_receivers_keep_shape(
                q2,
                receiver_thread_ids@,
                opt_text(model),
                opt_text(reasoning_effort),
                agent_states@,
                sender_thread_id@,
            );
            let q3 = receivers_linked(
                q2,
                receiver_thread_ids@,
                opt_text(model),
                opt_text(reasoning_effort),
                agent_states@,
                sender_thread_id@,
            );
            lemma_states_keep_shape(q3, agent_states@);
        },
        ChatStreamEvent::CommandStarted { item_id, title: _, command } => {
            lemma_item_ensured_keeps_shape(p, item_id@, "Command"@, command@, SwarmNodeKind::Command, false);
            let (q1, nid) = item_ensured(p, item_id@, "Command"@, command@, SwarmNodeKind::Command, false);
            lemma_item_finished_keeps_shape(q1, nid, "$ Command"@, command@, crate::swarm::SwarmNodeStatus::Running, None);
        },
        ChatStreamEvent::CommandDelta { item_id, delta: _ } => {
            let nid = match link_of(p.item_nodes, item_id@) {
                Some(nid) => nid,
                None => root_id(),
            };
            lemma_node_pos_props(p.nodes, nid);
            lemma_step_edit(p, q, nid);
        },
        ChatStreamEvent::ItemDone { item_id } => {
            let nid = match link_of(p.item_nodes, item_id@) {
                Some(nid) => nid,
                None => root_id(),
            };
            lemma_node_pos_props(p.nodes, nid);
            lemma_step_edit(p, q, nid);
        },
        _ => {
            lemma_step_edit(p, q, t);
        },
    }
}

/// The shape holds of every projection reached from the empty one: the
/// empty projection has it, and starting a turn, interrupting it and every
/// event of the chat stream keep it. So node ids are never stored twice,
/// only agent nodes are agents, thread links lead to stored agent nodes,
/// and every child list names stored nodes, once each, whose parent is the
/// list's owner.
pub proof fn law_reachable_shape(
    p: SwarmProjectionView,
    e: ChatStreamEvent,
    prompt: Seq<char>,
    n_att: nat,
    settings: ChatTurnSettings,
)
    ensures
        well_formed(initial_projection()),
        well_formed(p) ==> well_formed(started(p, prompt, n_att, settings)),
        well_formed(p) ==> well_formed(interrupted(p)),
        well_formed(p) ==> well_formed(event_applied(p, e)),
{
    if well_formed(p) {
        lemma_started_keeps_shape(p, prompt, n_att, settings);
        lemma_event_keeps_shape(p, e);
        lemma_interrupted_keeps_shape(p);
    }
}

/// Some node of `s` has the id `c`.
pub open spec fn has_id(s: Seq<SwarmNodeView>, c: Seq<char>) -> bool {
    exists|i: int| 0 <= i < s.len() && s[i].id == c
}

pub proof fn lemma_ids_unique_push(s: Seq<SwarmNodeView>, x: SwarmNodeView)
    requires
        ids_unique(s),
        !has_id(s, x.id),
    ensures
        ids_unique(s.push(x)),
{
    let t = s.push(x);
    assert forall|a: int, b: int| 0 <= a < b < t.len() implies #[trigger] t[a].id != #[trigger] t[b].id by {
        if b == s.len() {
            assert(t[a] == s[a]);
        } else {
            assert(s[a].id != s[b].id);
        }
    }
}

pub proof fn lemma_has_id_contains(s: Seq<SwarmNodeView>, c: Seq<char>)
    ensures
        has_id(s, c) <==> exists|y: SwarmNodeView| s.contains(y) && y.id == c,
{
    if has_id(s, c) {
        let i = choose|i: int| 0 <= i < s.len() && s[i].id == c;
        assert(s.contains(s[i]));
    }
    if exists|y: SwarmNodeView| s.contains(y) && y.id == c {
        let y = choose|y: SwarmNodeView| s.contains(y) && y.id == c;
        let i = choose|i: int| 0 <= i < s.len() && s[i] == y;
        assert(s[i].id == c);
    }
}

/// Keeping some nodes keeps the ids unique.
pub proof fn lemma_kept_ids_unique(s: Seq<SwarmNodeView>, f: spec_fn(SwarmNodeView) -> bool)
    requires
        ids_unique(s),
    ensures
        ids_unique(crate::swarm::kept(s, f)),
    decreases s.len(),
{
    if s.len() > 0 {
        let d = s.drop_last();
        assert forall|a: int, b: int| 0 <= a < b < d.len() implies #[trigger] d[a].id != #[trigger] d[b].id by {
            assert(s[a].id != s[b].id);
        }
        lemma_kept_ids_unique(d, f);
        let u = crate::swarm::kept(d, f);
        if f(s.last()) {
            assert(!has_id(u, s.last().id)) by {
                lemma_has_id_contains(u, s.last().id);
                if has_id(u, s.last().id) {
                    let y = choose|y: SwarmNodeView| u.contains(y) && y.id == s.last().id;
                    crate::swarm::lemma_kept_contains(d, f, y);
                    let i = choose|i: int| 0 <= i < d.len() && d[i] == y;
                    assert(s[i].id != s[s.len() - 1].id);
                }
            }
            lemma_ids_unique_push(u, s.last());
        }
    }
}

/// Inserting a node with a new id into a listing keeps the ids unique.
pub proof fn lemma_insert_listed_ids_unique(t: Seq<SwarmNodeView>, x: SwarmNodeView)
    requires
        ids_unique(t),
        !has_id(t, x.id),
    ensures
        ids_unique(crate::swarm::insert_listed(t, x)),
    decreases t.len(),
{
    if t.len() == 0 {
        assert(crate::swarm::insert_listed(t, x) == seq![x]);
    } else if crate::swarm::node_before(x, t.last()) {
        let d = t.drop_last();
        assert forall|a: int, b: int| 0 <= a < b < d.len() implies #[trigger] d[a].id != #[trigger] d[b].id by {
            assert(t[a].id != t[b].id);
        }
        assert(!has_id(d, x.id)) by {
            if has_id(d, x.id) {
                let i = choose|i: int| 0 <= i < d.len() && d[i].id == x.id;
                assert(t[i].id == x.id);
            }
        }
        lemma_insert_listed_ids_unique(d, x);
        let u = crate::swarm::insert_listed(d, x);
        assert(!has_id(u, t.last().id)) by {
            lemma_has_id_contains(u, t.last().id);
            if has_id(u, t.last().id) {
                let y = choose|y: SwarmNodeView| u.contains(y) && y.id == t.last().id;
                crate::swarm::lemma_insert_listed_contains(d, x, y);
                if y == x {
                    assert(t[t.len() - 1].id == x.id);
                } else {
                    let i = choose|i: int| 0 <= i < d.len() && d[i] == y;
                    assert(t[i].id != t[t.len() - 1].id);
                }
            }
        }
        lemma_ids_unique_push(u, t.last());
    } else {
        lemma_ids_unique_push(t, x);
    }
}

/// Listing nodes keeps the ids unique.
pub proof fn lemma_listed_ids_unique(s: Seq<SwarmNodeView>)
    requires
        ids_unique(s),
    ensures
        ids_unique(crate::swarm::listed(s)),
    decreases s.len(),
{
    if s.len() > 0 {
        let d = s.drop_last();
        assert forall|a: int, b: int| 0 <= a < b < d.len() implies #[trigger] d[a].id != #[trigger] d[b].id by {
            assert(s[a].id != s[b].id);
        }
        lemma_listed_ids_unique(d);
        let u = crate::swarm::listed(d);
        assert(!has_id(u, s.last().id)) by {
            lemma_has_id_contains(u, s.last().id);
            if has_id(u, s.last().id) {
                let y = choose|y: SwarmNodeView| u.contains(y) && y.id == s.last().id;
                crate::swarm::lemma_listed_contains(d, y);
                let i = choose|i: int| 0 <= i < d.len() && d[i] == y;
                assert(s[i].id != s[s.len() - 1].id);
            }
        }
        lemma_insert_listed_ids_unique(u, s.last());
    }
}

/// The nodes of a list of distinct ids have distinct ids.
pub proof fn lemma_nodes_of_ids_unique(p: SwarmProjectionView, ids: Seq<Seq<char>>)
    requires
        ids.no_duplicates(),
    ensures
        ids_unique(crate::swarm::nodes_of(p, ids)),
    decreases ids.len(),
{
    if ids.len() > 0 {
        let d = ids.drop_last();
        assert(d.no_duplicates()) by {
            assert forall|a: int, b: int| 0 <= a < d.len() && 0 <= b < d.len() && a != b implies d[a] != d[b] by {
                assert(ids[a] == d[a] && ids[b] == d[b]);
            }
        }
        lemma_nodes_of_ids_unique(p, d);
        let u = crate::swarm::nodes_of(p, d);
        if let Some(n) = node_at(p.nodes, ids.last()) {
            lemma_node_at_some(p.nodes, ids.last());
            assert(!has_id(u, n.id)) by {
                lemma_has_id_contains(u, n.id);
                if has_id(u, n.id) {
                    let y = choose|y: SwarmNodeView| u.contains(y) && y.id == n.id;
                    crate::swarm::lemma_nodes_of_contains(p, d, y);
                    let i = choose|i: int| 0 <= i < d.len() && d[i] == y.id;
                    assert(ids[i] == ids[ids.len() - 1]);
                }
            }
            lemma_ids_unique_push(u, n);
        }
    }
}

/// The node `y` hangs under: its parent, or the brain when it has none or
/// is not stored.
pub open spec fn parent_of(p: SwarmProjectionView, y: Seq<char>) -> Seq<char> {
    match node_at(p.nodes, y) {
        Some(n) => match n.parent_id {
            Some(q) => q,
            None => root_id(),
        },
        None => root_id(),
    }
}

/// The node reached from `y` by `k` steps to the parent.
pub open spec fn up(p: SwarmProjectionView, y: Seq<char>, k: nat) -> Seq<char>
    decreases k,
{
    if k == 0 {
        y
    } else {
        up(p, parent_of(p, y), (k - 1) as nat)
    }
}

/// `y` and the `k` nodes above it are active agents.
pub open spec fn active_chain(p: SwarmProjectionView, y: Seq<char>, k: nat) -> bool
    decreases k,
{
    &&& crate::swarm::active_agent_node(p, y)
    &&& k > 0 ==> active_chain(p, parent_of(p, y), (k - 1) as nat)
}

/// `x` is reached again from itself through active agents only.
pub open spec fn on_active_cycle(p: SwarmProjectionView, x: Seq<char>) -> bool {
    exists|k: nat| k >= 1 && #[trigger] up(p, x, k) == x && active_chain(p, x, k)
}

/// `x` is reached from `y` by at most `d` steps through active agents.
pub open spec fn below(p: SwarmProjectionView, y: Seq<char>, x: Seq<char>, d: nat) -> bool {
    exists|k: nat| k <= d && #[trigger] up(p, y, k) == x && active_chain(p, y, k)
}

pub proof fn lemma_up_add(p: SwarmProjectionView, y: Seq<char>, a: nat, b: nat)
    ensures
        up(p, y, a + b) == up(p, up(p, y, a), b),
    decreases a,
{
    if a > 0 {
        lemma_up_add(p, parent_of(p, y), (a - 1) as nat, b);
        assert((a + b - 1) as nat == (a - 1) as nat + b);
    }
}

pub proof fn lemma_chain_split(p: SwarmProjectionView, y: Seq<char>, a: nat, b: nat)
    ensures
        active_chain(p, y, a + b) <==> (active_chain(p, y, a) && active_chain(p, up(p, y, a), b)),
    decreases a,
{
    if a > 0 {
        lemma_chain_split(p, parent_of(p, y), (a - 1) as nat, b);
        assert((a + b - 1) as nat == (a - 1) as nat + b);
    }
}

/// The ids of a tree, followed `depth` levels down, root first.
pub open spec fn tree_ids(t: SwarmAgentTreeNode, depth: nat) -> Seq<Seq<char>>
    decreases depth, 0nat, 0nat,
{
    seq![t.id@] + if depth == 0 {
        Seq::empty()
    } else {
        forest_ids(t.children@, (depth - 1) as nat)
    }
}

/// The ids of the trees `ts`, each followed `depth` levels down, in order.
pub open spec fn forest_ids(ts: Seq<SwarmAgentTreeNode>, depth: nat) -> Seq<Seq<char>>
    decreases depth, 1nat, ts.len(),
{
    if ts.len() == 0 {
        Seq::empty()
    } else {
        forest_ids(ts.drop_last(), depth) + tree_ids(ts.last(), depth)
    }
}

/// Each child shown in `t`, `depth` levels down, is a stored node whose
/// parent is the node it is shown under.
pub open spec fn tree_links(t: SwarmAgentTreeNode, p: SwarmProjectionView, depth: nat) -> bool
    decreases depth,
{
    depth > 0 ==> forall|i: int|
        0 <= i < t.children@.len() ==> {
            &&& node_at(p.nodes, (#[trigger] t.children@[i]).id@) matches Some(c) && c.parent_id == Some(
                t.id@,
            )
            &&& tree_links(t.children@[i], p, (depth - 1) as nat)
        }
}

pub proof fn lemma_concat_nodup(a: Seq<Seq<char>>, b: Seq<Seq<char>>)
    requires
        a.no_duplicates(),
        b.no_duplicates(),
        forall|y: Seq<char>| a.contains(y) ==> !b.contains(y),
    ensures
        (a + b).no_duplicates(),
        forall|y: Seq<char>| #[trigger] (a + b).contains(y) <==> (a.contains(y) || b.contains(y)),
{
    let c = a + b;
    assert forall|i: int, j: int| 0 <= i < c.len() && 0 <= j < c.len() && i != j implies c[i] != c[j] by {
        if i < a.len() && j >= a.len() {
            assert(a.contains(c[i]));
            assert(b[j - a.len()] == c[j]);
        } else if j < a.len() && i >= a.len() {
            assert(a.contains(c[j]));
            assert(b[i - a.len()] == c[i]);
        } else if i >= a.len() {
            assert(b[i - a.len()] == c[i] && b[j - a.len()] == c[j]);
        }
    }
    assert forall|y: Seq<char>| #[trigger] c.contains(y) <==> (a.contains(y) || b.contains(y)) by {
        if c.contains(y) {
            let k = choose|k: int| 0 <= k < c.len() && c[k] == y;
            if k >= a.len() {
                assert(b[k - a.len()] == y);
            }
        }
        if a.contains(y) {
            let k = choose|k: int| 0 <= k < a.len() && a[k] == y;
            assert(c[k] == y);
        }
        if b.contains(y) {
            let k = choose|k: int| 0 <= k < b.len() && b[k] == y;
            assert(c[k + a.len()] == y);
        }
    }
}

/// The ids of trees that share no id form a list without repeats, made of
/// the ids of the trees.
pub proof fn lemma_forest_ids(ts: Seq<SwarmAgentTreeNode>, d: nat)
    requires
        forall|i: int| 0 <= i < ts.len() ==> (#[trigger] tree_ids(ts[i], d)).no_duplicates(),
        forall|i: int, j: int, y: Seq<char>|
            0 <= i < ts.len() && 0 <= j < ts.len() && i != j && #[trigger] tree_ids(ts[i], d).contains(y)
                ==> !#[trigger] tree_ids(ts[j], d).contains(y),
    ensures
        forest_ids(ts, d).no_duplicates(),
        forall|y: Seq<char>|
            #[trigger] forest_ids(ts, d).contains(y) <==> exists|i: int|
                0 <= i < ts.len() && #[trigger] tree_ids(ts[i], d).contains(y),
    decreases ts.len(),
{
    if ts.len() == 0 {
    } else {
        let l = ts.len() - 1;
        let u = ts.drop_last();
        assert forall|i: int| 0 <= i < u.len() implies (#[trigger] tree_ids(u[i], d)).no_duplicates() by {
            assert(u[i] == ts[i]);
            assert(tree_ids(ts[i], d).no_duplicates());
        }
        assert forall|i: int, j: int, y: Seq<char>|
            0 <= i < u.len() && 0 <= j < u.len() && i != j && #[trigger] tree_ids(u[i], d).contains(y)
                implies !#[trigger] tree_ids(u[j], d).contains(y) by {
            assert(u[i] == ts[i] && u[j] == ts[j]);
            assert(tree_ids(ts[i], d).contains(y));
        }
        lemma_forest_ids(u, d);
        let a = forest_ids(u, d);
        let b = tree_ids(ts[l], d);
        assert(b.no_duplicates());
        assert forall|y: Seq<char>| a.contains(y) implies !b.contains(y) by {
            assert(a.contains(y));
            let i = choose|i: int| 0 <= i < u.len() && #[trigger] tree_ids(u[i], d).contains(y);
            assert(u[i] == ts[i]);
            assert(tree_ids(ts[i], d).contains(y));
        }
        lemma_concat_nodup(a, b);
        assert forall|y: Seq<char>|
            #[trigger] forest_ids(ts, d).contains(y) <==> exists|i: int|
                0 <= i < ts.len() && #[trigger] tree_ids(ts[i], d).contains(y) by {
            assert(forest_ids(ts, d) == a + b);
            if a.contains(y) {
                let i = choose|i: int| 0 <= i < u.len() && #[trigger] tree_ids(u[i], d).contains(y);
                assert(u[i] == ts[i]);
            }
            if exists|i: int| 0 <= i < ts.len() && #[trigger] tree_ids(ts[i], d).contains(y) {
                let i = choose|i: int| 0 <= i < ts.len() && #[trigger] tree_ids(ts[i], d).contains(y);
                if i < l {
                    assert(u[i] == ts[i]);
                    assert(tree_ids(u[i], d).contains(y));
                }
            }
        }
    }
}

/// Under the shape, a child shown under `x` is a stored active agent whose
/// parent is `x`, and the children shown under `x` have distinct ids.
pub proof fn lemma_kid_facts(p: SwarmProjectionView, x: Seq<char>, y: SwarmNodeView)
    requires
        well_formed(p),
    ensures
        ids_unique(crate::swarm::child_agents(p, x)),
        crate::swarm::child_agents(p, x).contains(y) ==> {
            &&& node_at(p.nodes, y.id) == Some(y)
            &&& y.parent_id == Some(x)
            &&& crate::swarm::active_agent_node(p, y.id)
            &&& parent_of(p, y.id) == x
        },
{
    let co = p.child_order;
    lemma_key_pos_props(co, x);
    let ids = children_of(co, x);
    if key_pos(co, x) >= 0 {
        assert(children_fit(p, co[key_pos(co, x)].0, co[key_pos(co, x)].1));
    }
    assert(ids.no_duplicates());
    lemma_nodes_of_ids_unique(p, ids);
    let f = |n: SwarmNodeView| crate::swarm::is_active_agent(n);
    lemma_kept_ids_unique(crate::swarm::nodes_of(p, ids), f);
    lemma_listed_ids_unique(crate::swarm::kept(crate::swarm::nodes_of(p, ids), f));
    crate::swarm::law_agent_tree_levels(p, x, y);
    if crate::swarm::child_agents(p, x).contains(y) {
        let k = choose|k: int| 0 <= k < ids.len() && ids[k] == y.id;
        assert(child_fits(p, x, ids[k]));
    }
}

/// A chain from `y` to the child `c` of `x` goes on to `x`.
pub proof fn lemma_chain_step(p: SwarmProjectionView, y: Seq<char>, c: Seq<char>, x: Seq<char>, a: nat)
    requires
        up(p, y, a) == c,
        active_chain(p, y, a),
        parent_of(p, c) == x,
        crate::swarm::active_agent_node(p, x),
    ensures
        up(p, y, a + 1) == x,
        active_chain(p, y, a + 1),
{
    lemma_up_add(p, y, a, 1);
    lemma_chain_split(p, y, a, 1);
    lemma_chain_split(p, y, a, 0);
    assert(up(p, c, 1) == up(p, parent_of(p, c), 0));
    assert(active_chain(p, x, 0));
    assert(active_chain(p, c, 1));
}

/// Two chains from `y` that both reach `x` at different lengths put `x`
/// on an active cycle.
pub proof fn lemma_two_chains(p: SwarmProjectionView, y: Seq<char>, x: Seq<char>, a: nat, b: nat)
    requires
        a < b,
        up(p, y, a) == x,
        up(p, y, b) == x,
        active_chain(p, y, b),
    ensures
        on_active_cycle(p, x),
{
    let k = (b - a) as nat;
    lemma_up_add(p, y, a, k);
    lemma_chain_split(p, y, a, k);
    assert(a + k == b);
    assert(up(p, x, k) == x && active_chain(p, x, k));
}

/// The tree of an active agent `x` that is on no active cycle shows no id
/// twice, shows only nodes below `x`, and shows each child under its parent.
pub proof fn lemma_tree_shape(p: SwarmProjectionView, t: SwarmAgentTreeNode, x: Seq<char>, d: nat)
    requires
        well_formed(p),
        crate::swarm::tree_matches(t, p, x, d),
        crate::swarm::active_agent_node(p, x),
        !on_active_cycle(p, x),
    ensures
        tree_ids(t, d).no_duplicates(),
        forall|y: Seq<char>| #[trigger] tree_ids(t, d).contains(y) ==> below(p, y, x, d),
        tree_links(t, p, d),
    decreases d,
{
    lemma_node_pos_props(p.nodes, x);
    assert(t.id@ == x);
    assert(up(p, x, 0) == x);
    if d == 0 {
        assert(tree_ids(t, d) == seq![x]);
        assert forall|y: Seq<char>| #[trigger] tree_ids(t, d).contains(y) implies below(p, y, x, d) by {
            assert(tree_ids(t, d)[0] == x);
            assert(up(p, y, 0) == x);
        }
    } else {
        let kids = crate::swarm::child_agents(p, x);
        let ts = t.children@;
        let e = (d - 1) as nat;
        lemma_kid_facts(p, x, p.root);
        assert forall|i: int| 0 <= i < ts.len() implies {
            &&& (#[trigger] tree_ids(ts[i], e)).no_duplicates()
            &&& forall|y: Seq<char>| #[trigger] tree_ids(ts[i], e).contains(y) ==> below(p, y, kids[i].id, e)
            &&& tree_links(ts[i], p, e)
            &&& parent_of(p, kids[i].id) == x
            &&& node_at(p.nodes, ts[i].id@) == Some(kids[i])
            &&& kids[i].parent_id == Some(x)
        } by {
            assert(kids.contains(kids[i]));
            lemma_kid_facts(p, x, kids[i]);
            let c = kids[i].id;
            assert(crate::swarm::tree_matches(ts[i], p, c, e));
            assert(!on_active_cycle(p, c)) by {
                if on_active_cycle(p, c) {
                    let k = choose|k: nat| k >= 1 && #[trigger] up(p, c, k) == c && active_chain(p, c, k);
                    let j = (k - 1) as nat;
                    assert(up(p, x, j) == c);
                    lemma_chain_step(p, x, c, x, j);
                    assert(j + 1 == k);
                    assert(up(p, x, k) == x && active_chain(p, x, k));
                }
            }
            lemma_tree_shape(p, ts[i], c, e);
        }
        assert forall|i: int, j: int, y: Seq<char>|
            0 <= i < ts.len() && 0 <= j < ts.len() && i != j && #[trigger] tree_ids(ts[i], e).contains(y)
                implies !#[trigger] tree_ids(ts[j], e).contains(y) by {
            if tree_ids(ts[j], e).contains(y) {
                assert(below(p, y, kids[i].id, e));
                assert(below(p, y, kids[j].id, e));
                let a = choose|a: nat| a <= e && #[trigger] up(p, y, a) == kids[i].id && active_chain(p, y, a);
                let b = choose|b: nat| b <= e && #[trigger] up(p, y, b) == kids[j].id && active_chain(p, y, b);
                lemma_chain_step(p, y, kids[i].id, x, a);
                lemma_chain_step(p, y, kids[j].id, x, b);
                if a == b {
                    assert(kids[i].id != kids[j].id);
                } else if a < b {
                    lemma_two_chains(p, y, x, a + 1, b + 1);
                } else {
                    lemma_two_chains(p, y, x, b + 1, a + 1);
                }
            }
        }
        lemma_forest_ids(ts, e);
        let f = forest_ids(ts, e);
        assert(!f.contains(x)) by {
            if f.contains(x) {
                let i = choose|i: int| 0 <= i < ts.len() && #[trigger] tree_ids(ts[i], e).contains(x);
                assert(below(p, x, kids[i].id, e));
                let a = choose|a: nat| a <= e && #[trigger] up(p, x, a) == kids[i].id && active_chain(p, x, a);
                lemma_chain_step(p, x, kids[i].id, x, a);
                assert(up(p, x, a + 1) == x);
            }
        }
        assert forall|i: int| 0 <= i < t.children@.len() implies {
            &&& node_at(p.nodes, (#[trigger] t.children@[i]).id@) matches Some(c) && c.parent_id == Some(
                t.id@,
            )
            &&& tree_links(t.children@[i], p, e)
        } by {
            assert(ts[i] == t.children@[i]);
            assert(tree_ids(ts[i], e).no_duplicates());
        }
        assert(tree_links(t, p, d));
        assert(tree_ids(t, d) == seq![x] + f);
        assert(seq![x].no_duplicates());
        lemma_concat_nodup(seq![x], f);
        assert forall|y: Seq<char>| #[trigger] tree_ids(t, d).contains(y) implies below(p, y, x, d) by {
            if y == x {
            } else {
                assert(seq![x].contains(y) || f.contains(y));
                if seq![x].contains(y) {
                    assert(seq![x][0] == x);
                }
                let i = choose|i: int| 0 <= i < ts.len() && #[trigger] tree_ids(ts[i], e).contains(y);
                let a = choose|a: nat| a <= e && #[trigger] up(p, y, a) == kids[i].id && active_chain(p, y, a);
                lemma_chain_step(p, y, kids[i].id, x, a);
                assert(up(p, y, a + 1) == x);
            }
        }
    }
}

/// No stored node has the brain's id.
pub proof fn lemma_brain_not_stored(p: SwarmProjectionView)
    requires
        well_formed(p),
    ensures
        node_pos(p.nodes, root_id()) < 0,
        !crate::swarm::active_agent_node(p, root_id()),
{
    lemma_node_at_some(p.nodes, root_id());
    reveal_strlit("swarm-root");
    reveal_strlit("node-");
    reveal_strlit("agent-");
    reveal_strlit("turn-");
    if node_pos(p.nodes, root_id()) >= 0 {
        let i = choose|i: int| 0 <= i < p.nodes.len() && p.nodes[i].id == root_id();
        assert(node_shaped(p, p.nodes[i]));
        let id = p.nodes[i].id;
        assert(id[0] == 's');
        if begins(id, "node-"@) {
            assert(id[0] == id.take(5)[0]);
        } else if begins(id, "agent-"@) {
            assert(id[0] == id.take(6)[0]);
        } else {
            assert(id[0] == id.take(5)[0]);
        }
    }
    lemma_node_pos_props(p.nodes, root_id());
}

/// The roots of the agent tree (the active agents that hang under the
/// brain, under nothing or under a node that is not an active agent).
pub open spec fn tree_roots(p: SwarmProjectionView) -> Seq<SwarmNodeView> {
    crate::swarm::listed(crate::swarm::kept(p.nodes, |n: SwarmNodeView| crate::swarm::is_tree_root(p, n)))
}

/// A root of the agent tree is a stored active agent whose parent is not
/// one, so it is on no active cycle; the roots have distinct ids.
pub proof fn lemma_root_facts(p: SwarmProjectionView, y: SwarmNodeView)
    requires
        well_formed(p),
    ensures
        ids_unique(tree_roots(p)),
        tree_roots(p).contains(y) ==> {
            &&& crate::swarm::active_agent_node(p, y.id)
            &&& !crate::swarm::active_agent_node(p, parent_of(p, y.id))
            &&& !on_active_cycle(p, y.id)
        },
{
    let f = |n: SwarmNodeView| crate::swarm::is_tree_root(p, n);
    lemma_kept_ids_unique(p.nodes, f);
    lemma_listed_ids_unique(crate::swarm::kept(p.nodes, f));
    crate::swarm::law_agent_tree_levels(p, root_id(), y);
    lemma_brain_not_stored(p);
    if tree_roots(p).contains(y) {
        let i = choose|i: int| 0 <= i < p.nodes.len() && p.nodes[i] == y;
        lemma_node_at_stored(p.nodes, i);
        if on_active_cycle(p, y.id) {
            let k = choose|k: nat| k >= 1 && #[trigger] up(p, y.id, k) == y.id && active_chain(p, y.id, k);
            assert(active_chain(p, parent_of(p, y.id), (k - 1) as nat));
        }
    }
}

/// The agent forest shows no id twice, shows only stored active agents, and
/// shows every child under the node that is its parent.
pub proof fn lemma_forest_shape(p: SwarmProjectionView, r: Seq<SwarmAgentTreeNode>, d: nat)
    requires
        well_formed(p),
        crate::swarm::forest_matches(r, p, tree_roots(p), d),
    ensures
        forest_ids(r, d).no_duplicates(),
        forall|i: int| 0 <= i < r.len() ==> tree_links(#[trigger] r[i], p, d),
        forall|y: Seq<char>| #[trigger] forest_ids(r, d).contains(y) ==> crate::swarm::active_agent_node(p, y),
{
    let ns = tree_roots(p);
    lemma_root_facts(p, p.root);
    assert forall|i: int| 0 <= i < r.len() implies {
        &&& (#[trigger] tree_ids(r[i], d)).no_duplicates()
        &&& forall|y: Seq<char>| #[trigger] tree_ids(r[i], d).contains(y) ==> below(p, y, ns[i].id, d)
        &&& tree_links(r[i], p, d)
        &&& !crate::swarm::active_agent_node(p, parent_of(p, ns[i].id))
    } by {
        assert(ns.contains(ns[i]));
        lemma_root_facts(p, ns[i]);
        lemma_tree_shape(p, r[i], ns[i].id, d);
    }
    assert forall|i: int, j: int, y: Seq<char>|
        0 <= i < r.len() && 0 <= j < r.len() && i != j && #[trigger] tree_ids(r[i], d).contains(y)
            implies !#[trigger] tree_ids(r[j], d).contains(y) by {
        if tree_ids(r[j], d).contains(y) {
            let a = choose|a: nat| a <= d && #[trigger] up(p, y, a) == ns[i].id && active_chain(p, y, a);
            let b = choose|b: nat| b <= d && #[trigger] up(p, y, b) == ns[j].id && active_chain(p, y, b);
            if a == b {
                assert(ns[i].id != ns[j].id);
            } else if a < b {
                let k = (b - a) as nat;
                lemma_up_add(p, y, a, k);
                lemma_chain_split(p, y, a, k);
                assert(a + k == b);
                assert(active_chain(p, ns[i].id, k));
                assert(active_chain(p, parent_of(p, ns[i].id), (k - 1) as nat));
            } else {
                let k = (a - b) as nat;
                lemma_up_add(p, y, b, k);
                lemma_chain_split(p, y, b, k);
                assert(b + k == a);
                assert(active_chain(p, ns[j].id, k));
                assert(active_chain(p, parent_of(p, ns[j].id), (k - 1) as nat));
            }
        }
    }
    lemma_forest_ids(r, d);
    assert forall|i: int| 0 <= i < r.len() implies tree_links(#[trigger] r[i], p, d) by {
        assert(tree_ids(r[i], d).no_duplicates());
    }
    assert forall|y: Seq<char>| #[trigger] forest_ids(r, d).contains(y) implies crate::swarm::active_agent_node(p, y) by {
        let i = choose|i: int| 0 <= i < r.len() && #[trigger] tree_ids(r[i], d).contains(y);
        assert(tree_ids(r[i], d).no_duplicates());
        assert(below(p, y, ns[i].id, d));
        let a = choose|a: nat| a <= d && #[trigger] up(p, y, a) == ns[i].id && active_chain(p, y, a);
        assert(active_chain(p, y, a));
    }
}

/// Interrupting the active turn keeps the shape.
pub proof fn lemma_interrupted_keeps_shape(p: SwarmProjectionView)
    requires
        well_formed(p),
    ensures
        well_formed(interrupted(p)),
{
    if let Some(t) = p.active_turn_node_id {
        lemma_node_pos_props(p.nodes, t);
        lemma_step_edit(p, interrupted(p), t);
    }
}

/// No agent is stored under the id of the next turn.
pub proof fn lemma_turn_id_not_agent(p: SwarmProjectionView)
    requires
        well_formed(p),
    ensures
        node_at(p.nodes, turn_id_for(p.next_turn_index)) matches Some(n) ==> n.kind != SwarmNodeKind::Agent,
        !crate::swarm::active_agent_node(p, turn_id_for(p.next_turn_index)),
{
    let tid = turn_id_for(p.next_turn_index);
    reveal_strlit("turn-local-");
    reveal_strlit("turn-");
    assert(tid.take(5) =~= "turn-"@);
    lemma_node_pos_props(p.nodes, tid);
    if node_pos(p.nodes, tid) >= 0 {
        let i = node_pos(p.nodes, tid);
        assert(node_shaped(p, p.nodes[i]));
        lemma_prefixes(tid, tid);
    }
}

pub proof fn lemma_kept_update_eq(s: Seq<SwarmNodeView>, i: int, x: SwarmNodeView, f: spec_fn(SwarmNodeView) -> bool)
    requires
        0 <= i < s.len(),
        !f(s[i]),
        !f(x),
    ensures
        crate::swarm::kept(s.update(i, x), f) == crate::swarm::kept(s, f),
    decreases s.len(),
{
    let t = s.update(i, x);
    if i == s.len() - 1 {
        assert(t.drop_last() == s.drop_last());
    } else {
        lemma_kept_update_eq(s.drop_last(), i, x, f);
        assert(t.drop_last() == s.drop_last().update(i, x));
    }
}

/// Looking up ids that are not the next turn's gives the same nodes after
/// the turn started.
pub proof fn lemma_started_nodes_of(
    p: SwarmProjectionView,
    q: SwarmProjectionView,
    ids: Seq<Seq<char>>,
    tid: Seq<char>,
)
    requires
        forall|c: Seq<char>| c != tid ==> #[trigger] node_at(q.nodes, c) == node_at(p.nodes, c),
        forall|k: int| 0 <= k < ids.len() ==> #[trigger] ids[k] != tid,
    ensures
        crate::swarm::nodes_of(q, ids) == crate::swarm::nodes_of(p, ids),
    decreases ids.len(),
{
    if ids.len() > 0 {
        let d = ids.drop_last();
        assert forall|k: int| 0 <= k < d.len() implies #[trigger] d[k] != tid by {
            assert(d[k] == ids[k]);
        }
        lemma_started_nodes_of(p, q, d, tid);
        assert(ids[ids.len() - 1] != tid);
    }
}

/// Starting a turn leaves the agent tree as it was: the same roots, the
/// same children under every node other than the new turn, and the same
/// shown nodes, so that a forest matches the projection after the start
/// exactly when it matches it before, at any depth and at the depth that
/// `active_agent_tree` follows each; and the active agents are as many.
pub proof fn law_start_turn_keeps_tree(
    p: SwarmProjectionView,
    prompt: Seq<char>,
    n_att: nat,
    settings: ChatTurnSettings,
    r: Seq<SwarmAgentTreeNode>,
    d: nat,
)
    requires
        well_formed(p),
    ensures
        ({
            let q = started(p, prompt, n_att, settings);
            &&& tree_roots(q) == tree_roots(p)
            &&& crate::swarm::forest_matches(r, q, tree_roots(q), d) == crate::swarm::forest_matches(
                r,
                p,
                tree_roots(p),
                d,
            )
            &&& crate::swarm::forest_matches(r, q, tree_roots(q), q.nodes.len())
                == crate::swarm::forest_matches(r, p, tree_roots(p), p.nodes.len())
            &&& crate::swarm::kept(q.nodes, |x: SwarmNodeView| crate::swarm::is_active_agent(x)).len()
                == crate::swarm::kept(p.nodes, |x: SwarmNodeView| crate::swarm::is_active_agent(x)).len()
        }),
{
    let q = started(p, prompt, n_att, settings);
    let tid = turn_id_for(p.next_turn_index);
    let s = p.nodes;
    lemma_turn_id_not_agent(p);
    lemma_node_pos_props(s, tid);
    let x = q.nodes[if node_pos(s, tid) >= 0 { node_pos(s, tid) } else { s.len() as int }];
    assert(q.nodes == put_node(s, x));
    assert forall|c: Seq<char>| c != tid implies #[trigger] node_at(q.nodes, c) == node_at(p.nodes, c) by {
        lemma_node_at_put(s, x, c);
    }
    lemma_node_at_put(s, x, tid);
    assert forall|c: Seq<char>| #[trigger] crate::swarm::active_agent_node(q, c) == crate::swarm::active_agent_node(p, c) by {
        if c != tid {
            assert(node_at(q.nodes, c) == node_at(p.nodes, c));
        }
    }
    let fq = |n: SwarmNodeView| crate::swarm::is_tree_root(q, n);
    let fp = |n: SwarmNodeView| crate::swarm::is_tree_root(p, n);
    assert(fq =~= fp) by {
        assert forall|n: SwarmNodeView| #[trigger] fq(n) == fp(n) by {
            if let Some(par) = n.parent_id {
                assert(crate::swarm::active_agent_node(q, par) == crate::swarm::active_agent_node(p, par));
            }
        }
    }
    let g = |n: SwarmNodeView| crate::swarm::is_active_agent(n);
    if node_pos(s, tid) >= 0 {
        lemma_kept_update_eq(s, node_pos(s, tid), x, fp);
        crate::swarm::lemma_kept_update(s, node_pos(s, tid), x, g);
    } else {
        crate::swarm::lemma_kept_push(s, x, fp);
        crate::swarm::lemma_kept_push(s, x, g);
    }
    assert(tree_roots(q) == tree_roots(p));
    assert forall|id: Seq<char>| id != tid implies #[trigger] crate::swarm::child_agents(q, id)
        == crate::swarm::child_agents(p, id) by {
        let co = p.child_order;
        lemma_key_pos_props(co, id);
        lemma_key_pos_props(co, tid);
        lemma_key_pos_props(q.child_order, id);
        if key_pos(co, tid) < 0 {
            if key_pos(co, id) >= 0 {
                assert(forall|j: int| 0 <= j < key_pos(co, id) ==> co[j].0 != id) by {
                    reveal(key_pos);
                }
                lemma_key_pos_found(q.child_order, id, key_pos(co, id));
            } else {
                assert forall|j: int| 0 <= j < q.child_order.len() implies q.child_order[j].0 != id by {
                    if j < co.len() {
                        assert(q.child_order[j] == co[j]);
                    }
                }
                lemma_key_pos_none(q.child_order, id);
            }
        }
        assert(children_of(q.child_order, id) == children_of(co, id));
        let ids = children_of(co, id);
        if key_pos(co, id) >= 0 {
            assert(children_fit(p, co[key_pos(co, id)].0, co[key_pos(co, id)].1));
            assert forall|k: int| 0 <= k < ids.len() implies #[trigger] ids[k] != tid by {
                assert(child_fits(p, id, ids[k]));
                if ids[k] == tid {
                    reveal_strlit("turn-local-");
                    reveal_strlit("turn-");
                    assert(tid.take(5) =~= "turn-"@);
                }
            }
        }
        lemma_started_nodes_of(p, q, ids, tid);
    }
    assert forall|t: SwarmAgentTreeNode, y: Seq<char>, e: nat|
        crate::swarm::active_agent_node(p, y) implies #[trigger] crate::swarm::tree_matches(t, q, y, e)
        == crate::swarm::tree_matches(t, p, y, e) by {
        lemma_started_same_tree(p, q, tid, t, y, e);
    }
    assert forall|e: nat| crate::swarm::forest_matches(r, q, tree_roots(q), e)
        == #[trigger] crate::swarm::forest_matches(r, p, tree_roots(p), e) by {
        assert forall|i: int| 0 <= i < tree_roots(p).len() implies crate::swarm::tree_matches(
            #[trigger] r[i],
            q,
            tree_roots(p)[i].id,
            e,
        ) == crate::swarm::tree_matches(r[i], p, tree_roots(p)[i].id, e) by {
            lemma_root_facts(p, tree_roots(p)[i]);
            assert(tree_roots(p).contains(tree_roots(p)[i]));
            lemma_started_same_tree(p, q, tid, r[i], tree_roots(p)[i].id, e);
        }
    }
    assert(crate::swarm::forest_matches(r, q, tree_roots(q), d) == crate::swarm::forest_matches(r, p, tree_roots(p), d));
    lemma_node_at_put(s, x, tid);
    assert(q.nodes.len() >= p.nodes.len());
    lemma_forest_depth_free(p, r, q.nodes.len());
    assert(crate::swarm::forest_matches(r, q, tree_roots(q), q.nodes.len())
        == crate::swarm::forest_matches(r, p, tree_roots(p), q.nodes.len()));
}

/// The tree of an active agent matches the same forests before and after
/// the next turn started.
proof fn lemma_started_same_tree(
    p: SwarmProjectionView,
    q: SwarmProjectionView,
    tid: Seq<char>,
    t: SwarmAgentTreeNode,
    y: Seq<char>,
    e: nat,
)
    requires
        well_formed(p),
        tid == turn_id_for(p.next_turn_index),
        !crate::swarm::active_agent_node(p, tid),
        forall|c: Seq<char>| c != tid ==> #[trigger] node_at(q.nodes, c) == node_at(p.nodes, c),
        forall|id: Seq<char>| id != tid ==> #[trigger] crate::swarm::child_agents(q, id)
            == crate::swarm::child_agents(p, id),
        crate::swarm::active_agent_node(p, y),
    ensures
        crate::swarm::tree_matches(t, q, y, e) == crate::swarm::tree_matches(t, p, y, e),
    decreases e,
{
    assert(y != tid);
    assert(node_at(q.nodes, y) == node_at(p.nodes, y));
    assert(crate::swarm::tree_node_of(q, y) == crate::swarm::tree_node_of(p, y));
    if e > 0 {
        let kids = crate::swarm::child_agents(p, y);
        assert(crate::swarm::child_agents(q, y) == kids);
        assert forall|i: int| 0 <= i < kids.len() implies crate::swarm::tree_matches(
            #[trigger] t.children@[i],
            q,
            kids[i].id,
            (e - 1) as nat,
        ) == crate::swarm::tree_matches(t.children@[i], p, kids[i].id, (e - 1) as nat) by {
            assert(kids.contains(kids[i]));
            lemma_kid_facts(p, y, kids[i]);
            lemma_started_same_tree(p, q, tid, t.children@[i], kids[i].id, (e - 1) as nat);
        }
    }
}

/// The event `e` names `t` as an agent thread: as the thread of an agent
/// report, or among the receivers of a swarm tool call.
pub open spec fn received(e: ChatStreamEvent, t: Seq<char>) -> bool {
    match e {
        ChatStreamEvent::AgentThread { thread_id, label: _ } => thread_id@ == t,
        ChatStreamEvent::CollabTool { receiver_thread_ids, .. } => exists|k: int|
            0 <= k < receiver_thread_ids@.len() && #[trigger] receiver_thread_ids@[k]@ == t,
        _ => false,
    }
}

proof fn lemma_agent_ensured_threads(
    p: SwarmProjectionView,
    thread_id: Seq<char>,
    label: Seq<char>,
    model: Option<Seq<char>>,
    reasoning: Option<Seq<char>>,
    states: Seq<CollabAgentStateInfo>,
    sender: Option<Seq<char>>,
    k: Seq<char>,
)
    ensures
        has_key(agent_ensured(p, thread_id, label, model, reasoning, states, sender).0.thread_nodes, k)
            <==> (has_key(p.thread_nodes, k) || k == thread_id),
{
    lemma_key_pos_props(p.thread_nodes, thread_id);
    if link_of(p.thread_nodes, thread_id) is None {
        lemma_put_link_keys(p.thread_nodes, thread_id, "agent-"@ + thread_id, k);
    }
}

proof fn lemma_receivers_threads(
    p: SwarmProjectionView,
    receivers: Seq<String>,
    model: Option<Seq<char>>,
    reasoning: Option<Seq<char>>,
    states: Seq<CollabAgentStateInfo>,
    sender: Seq<char>,
    k: Seq<char>,
)
    ensures
        has_key(receivers_linked(p, receivers, model, reasoning, states, sender).thread_nodes, k) <==> (
        has_key(p.thread_nodes, k) || exists|j: int| 0 <= j < receivers.len() && #[trigger] receivers[j]@ == k),
    decreases receivers.len(),
{
    if receivers.len() > 0 {
        let d = receivers.drop_last();
        lemma_receivers_threads(p, d, model, reasoning, states, sender, k);
        let q = receivers_linked(p, d, model, reasoning, states, sender);
        let r = receivers.last()@;
        lemma_agent_ensured_threads(q, r, crate::swarm::agent_label_of(q, r), model, reasoning, states, Some(sender), k);
        if exists|j: int| 0 <= j < receivers.len() && #[trigger] receivers[j]@ == k {
            let j = choose|j: int| 0 <= j < receivers.len() && #[trigger] receivers[j]@ == k;
            if j < d.len() {
                assert(d[j] == receivers[j]);
            }
        }
        if exists|j: int| 0 <= j < d.len() && #[trigger] d[j]@ == k {
            let j = choose|j: int| 0 <= j < d.len() && #[trigger] d[j]@ == k;
            assert(receivers[j] == d[j]);
        }
        assert(receivers[receivers.len() - 1] == receivers.last());
    }
}

proof fn lemma_states_threads(p: SwarmProjectionView, states: Seq<CollabAgentStateInfo>)
    ensures
        states_applied(p, states).thread_nodes == p.thread_nodes,
    decreases states.len(),
{
    if states.len() > 0 {
        lemma_states_threads(p, states.drop_last());
    }
}

/// Agent threads are linked only by the events that name them: after an
/// event, the linked threads are those linked before and those the event
/// names; starting and interrupting a turn link none, and the empty
/// projection links none.
pub proof fn law_threads_follow_events(
    p: SwarmProjectionView,
    e: ChatStreamEvent,
    prompt: Seq<char>,
    n_att: nat,
    settings: ChatTurnSettings,
    t: Seq<char>,
)
    ensures
        !has_key(initial_projection().thread_nodes, t),
        has_key(event_applied(p, e).thread_nodes, t) <==> (has_key(p.thread_nodes, t) || received(e, t)),
        started(p, prompt, n_att, settings).thread_nodes == p.thread_nodes,
        interrupted(p).thread_nodes == p.thread_nodes,
{
    match e {
        ChatStreamEvent::AgentThread { thread_id, label } => {
            lemma_agent_ensured_threads(p, thread_id@, label@, None, None, Seq::empty(), None, t);
        },
        ChatStreamEvent::CollabTool {
            item_id,
            title,
            detail,
            agent_label: _,
            tool,
            sender_thread_id,
            receiver_thread_ids,
            model,
            reasoning_effort,
            agent_states,
            complete,
        } => {
            let (q1, nid) = item_ensured(p, item_id@, title@, detail@, SwarmNodeKind::Activity, complete);
            let q2 = item_finished(q1, nid, title@, detail@, done_or_running(complete), Some(tool@));
            assert(q2.thread_nodes == p.thread_nodes);
            lemma_receivers_threads(
                q2,
                receiver_thread_ids@,
                opt_text(model),
                opt_text(reasoning_effort),
                agent_states@,
                sender_thread_id@,
                t,
            );
            let q3 = receivers_linked(
                q2,
                receiver_thread_ids@,
                opt_text(model),
                opt_text(reasoning_effort),
                agent_states@,
                sender_thread_id@,
            );
            lemma_states_threads(q3, agent_states@);
        },
        ChatStreamEvent::Activity { item_id, title, detail, agent_label: _, complete } => {
            let (q1, nid) = item_ensured(p, item_id@, title@, detail@, SwarmNodeKind::Activity, complete);
            assert(q1.thread_nodes == p.thread_nodes);
        },
        ChatStreamEvent::CommandStarted { item_id, title: _, command } => {
            let (q1, nid) = item_ensured(p, item_id@, "Command"@, command@, SwarmNodeKind::Command, false);
            assert(q1.thread_nodes == p.thread_nodes);
        },
        _ => {},
    }
}

/// Each linked thread has exactly one agent node, and there are no others:
/// on a projection of the shape, the thread `t` is linked exactly when a
/// node "agent-" and `t` is stored, that node is an agent, no id is stored
/// twice, and every agent node is the node "agent-" and a linked thread.
pub proof fn law_one_agent_per_thread(p: SwarmProjectionView, t: Seq<char>)
    requires
        well_formed(p),
    ensures
        has_key(p.thread_nodes, t) <==> exists|i: int|
            0 <= i < p.nodes.len() && #[trigger] p.nodes[i].id == "agent-"@ + t,
        has_key(p.thread_nodes, t) ==> (node_at(p.nodes, "agent-"@ + t) matches Some(n) && n.kind
            == SwarmNodeKind::Agent),
        ids_unique(p.nodes),
        forall|i: int|
            0 <= i < p.nodes.len() && (#[trigger] p.nodes[i]).kind == SwarmNodeKind::Agent ==> {
                &&& p.nodes[i].id == "agent-"@ + p.nodes[i].id.skip(6)
                &&& has_key(p.thread_nodes, p.nodes[i].id.skip(6))
            },
{
    let aid = "agent-"@ + t;
    lemma_prefixes(aid, t);
    assert forall|i: int|
        0 <= i < p.nodes.len() && (#[trigger] p.nodes[i]).kind == SwarmNodeKind::Agent implies {
            &&& p.nodes[i].id == "agent-"@ + p.nodes[i].id.skip(6)
            &&& has_key(p.thread_nodes, p.nodes[i].id.skip(6))
        } by {
        assert(node_shaped(p, p.nodes[i]));
        let id = p.nodes[i].id;
        reveal_strlit("agent-");
        assert(begins(id, "agent-"@));
        assert(id.take(6) == "agent-"@);
        assert(id =~= id.take(6) + id.skip(6));
    }
    if has_key(p.thread_nodes, t) {
        let j = choose|j: int| 0 <= j < p.thread_nodes.len() && p.thread_nodes[j].0 == t;
        assert(agent_stored(p, p.thread_nodes[j].1));
        assert(p.thread_nodes[j].1 == aid);
        lemma_node_at_some(p.nodes, aid);
        lemma_node_pos_props(p.nodes, aid);
        let i = node_pos(p.nodes, aid);
        assert(node_shaped(p, p.nodes[i]));
        lemma_prefixes(aid, t);
    }
    if exists|i: int| 0 <= i < p.nodes.len() && #[trigger] p.nodes[i].id == aid {
        let i = choose|i: int| 0 <= i < p.nodes.len() && #[trigger] p.nodes[i].id == aid;
        assert(node_shaped(p, p.nodes[i]));
        lemma_prefixes(p.nodes[i].id, t);
    }
}

pub proof fn lemma_forest_contains(ts: Seq<SwarmAgentTreeNode>, d: nat, i: int, y: Seq<char>)
    requires
        0 <= i < ts.len(),
        tree_ids(ts[i], d).contains(y),
    ensures
        forest_ids(ts, d).contains(y),
    decreases ts.len(),
{
    let u = ts.drop_last();
    let a = forest_ids(u, d);
    let b = tree_ids(ts.last(), d);
    assert(forest_ids(ts, d) == a + b);
    if i == ts.len() - 1 {
        let k = choose|k: int| 0 <= k < b.len() && b[k] == y;
        assert((a + b)[a.len() + k] == y);
    } else {
        assert(u[i] == ts[i]);
        lemma_forest_contains(u, d, i, y);
        let k = choose|k: int| 0 <= k < a.len() && a[k] == y;
        assert((a + b)[k] == y);
    }
}

pub proof fn lemma_nodes_of_has(p: SwarmProjectionView, ids: Seq<Seq<char>>, c: Seq<char>, n: SwarmNodeView)
    requires
        ids.contains(c),
        node_at(p.nodes, c) == Some(n),
    ensures
        crate::swarm::nodes_of(p, ids).contains(n),
    decreases ids.len(),
{
    let d = ids.drop_last();
    let rest = crate::swarm::nodes_of(p, d);
    if ids.last() == c {
        assert(crate::swarm::nodes_of(p, ids) == rest.push(n));
        assert(rest.push(n)[rest.len() as int] == n);
    } else {
        let k = choose|k: int| 0 <= k < ids.len() && ids[k] == c;
        assert(d[k] == c);
        lemma_nodes_of_has(p, d, c, n);
        let j = choose|j: int| 0 <= j < rest.len() && rest[j] == n;
        match node_at(p.nodes, ids.last()) {
            Some(m) => {
                assert(rest.push(m)[j] == n);
            },
            None => {},
        }
    }
}

/// Following a chain of active agents down from `x`, the tree of `x` shows
/// every node of the chain.
pub proof fn lemma_in_tree(p: SwarmProjectionView, t: SwarmAgentTreeNode, x: Seq<char>, d: nat, y: Seq<char>, m: nat)
    requires
        well_formed(p),
        crate::swarm::tree_matches(t, p, x, d),
        crate::swarm::active_agent_node(p, x),
        up(p, y, m) == x,
        active_chain(p, y, m),
        m <= d,
    ensures
        tree_ids(t, d).contains(y),
    decreases m,
{
    lemma_node_pos_props(p.nodes, x);
    assert(t.id@ == x);
    if m == 0 {
        assert(tree_ids(t, d)[0] == x);
    } else {
        let z = up(p, y, (m - 1) as nat);
        lemma_up_add(p, y, (m - 1) as nat, 1);
        lemma_chain_split(p, y, (m - 1) as nat, 1);
        assert((m - 1) as nat + 1 == m);
        assert(up(p, z, 1) == up(p, parent_of(p, z), 0));
        assert(parent_of(p, z) == x);
        assert(crate::swarm::active_agent_node(p, z));
        lemma_node_pos_props(p.nodes, z);
        let nz = p.nodes[node_pos(p.nodes, z)];
        assert(node_listed(p, nz));
        assert(node_shaped(p, nz));
        lemma_prefixes(z, z);
        lemma_brain_not_stored(p);
        let co = p.child_order;
        assert(children_of(co, x).contains(z));
        lemma_nodes_of_has(p, children_of(co, x), z, nz);
        let f = |n: SwarmNodeView| crate::swarm::is_active_agent(n);
        crate::swarm::lemma_kept_contains(crate::swarm::nodes_of(p, children_of(co, x)), f, nz);
        crate::swarm::lemma_listed_contains(crate::swarm::kept(crate::swarm::nodes_of(p, children_of(co, x)), f), nz);
        let kids = crate::swarm::child_agents(p, x);
        assert(kids.contains(nz));
        let i = choose|i: int| 0 <= i < kids.len() && kids[i] == nz;
        let e = (d - 1) as nat;
        let ts = t.children@;
        assert(crate::swarm::tree_matches(ts[i], p, z, e));
        lemma_in_tree(p, ts[i], z, e, y, (m - 1) as nat);
        lemma_forest_contains(ts, e, i, y);
        let f2 = forest_ids(ts, e);
        assert(tree_ids(t, d) == seq![x] + f2);
        let k = choose|k: int| 0 <= k < f2.len() && f2[k] == y;
        assert((seq![x] + f2)[k + 1] == y);
    }
}

/// A chain of active agents as long as the list of nodes comes back to a
/// node it passed.
pub proof fn lemma_chain_repeats(p: SwarmProjectionView, y: Seq<char>, k: nat) -> (ab: (nat, nat))
    requires
        well_formed(p),
        active_chain(p, y, k),
        k >= p.nodes.len(),
    ensures
        ab.0 < ab.1 <= k,
        up(p, y, ab.0) == up(p, y, ab.1),
{
    let n = p.nodes.len() as int;
    let xs = vstd::set_lib::set_int_range(0, k as int + 1);
    let f = |i: int| node_pos(p.nodes, up(p, y, i as nat));
    assert forall|i: int| xs.contains(i) implies 0 <= #[trigger] f(i) < n && crate::swarm::active_agent_node(p, up(p, y, i as nat)) by {
        let a = i as nat;
        let b = (k - a) as nat;
        lemma_chain_split(p, y, a, b);
        assert(a + b == k);
        lemma_node_pos_props(p.nodes, up(p, y, a));
    }
    vstd::set_lib::lemma_int_range(0, k as int + 1);
    vstd::set_lib::lemma_int_range(0, n);
    let ys = xs.map(f);
    assert(ys.subset_of(vstd::set_lib::set_int_range(0, n))) by {
        assert forall|v: int| ys.contains(v) implies vstd::set_lib::set_int_range(0, n).contains(v) by {
            let i = choose|i: int| xs.contains(i) && f(i) == v;
        }
    }
    vstd::set_lib::lemma_len_subset(ys, vstd::set_lib::set_int_range(0, n));
    if vstd::relations::injective_on(f, xs) {
        vstd::set_lib::lemma_map_size(xs, ys, f);
        assert(false);
    }
    let (i1, i2) = choose|i1: int, i2: int| xs.contains(i1) && xs.contains(i2) && f(i1) == f(i2) && i1 != i2;
    let (a, b) = if i1 < i2 { (i1 as nat, i2 as nat) } else { (i2 as nat, i1 as nat) };
    assert(f(a as int) == f(b as int));
    lemma_node_pos_props(p.nodes, up(p, y, a));
    lemma_node_pos_props(p.nodes, up(p, y, b));
    (a, b)
}

/// Without active cycles, a chain of active agents is shorter than the
/// list of nodes.
pub proof fn lemma_chain_bounded(p: SwarmProjectionView, y: Seq<char>, k: nat)
    requires
        well_formed(p),
        forall|c: Seq<char>| crate::swarm::active_agent_node(p, c) ==> !#[trigger] on_active_cycle(p, c),
        active_chain(p, y, k),
    ensures
        k < p.nodes.len(),
{
    if k >= p.nodes.len() {
        let (a, b) = lemma_chain_repeats(p, y, k);
        let c = up(p, y, a);
        lemma_chain_split(p, y, b, (k - b) as nat);
        assert(b + (k - b) as nat == k);
        lemma_two_chains(p, y, c, a, b);
        lemma_chain_split(p, y, a, (k - a) as nat);
        assert(a + (k - a) as nat == k);
        assert(crate::swarm::active_agent_node(p, c));
        assert(!on_active_cycle(p, c));
    }
}

/// A chain of active agents that ends at a node whose parent is not an
/// active agent is shorter than the list of nodes.
pub proof fn lemma_chain_to_root_bounded(p: SwarmProjectionView, y: Seq<char>, k: nat)
    requires
        well_formed(p),
        active_chain(p, y, k),
        !crate::swarm::active_agent_node(p, parent_of(p, up(p, y, k))),
    ensures
        k < p.nodes.len(),
{
    if k >= p.nodes.len() {
        let (a, b) = lemma_chain_repeats(p, y, k);
        let c = up(p, y, a);
        lemma_chain_split(p, y, b, (k - b) as nat);
        assert(b + (k - b) as nat == k);
        lemma_two_chains(p, y, c, a, b);
        let q = choose|q: nat| q >= 1 && #[trigger] up(p, c, q) == c && active_chain(p, c, q);
        let j = (k - a) as nat;
        lemma_up_add(p, y, a, j);
        assert(a + j == k);
        lemma_cycle_chain(p, c, q, j + 1);
        lemma_chain_split(p, c, j, 1);
        let rt = up(p, c, j);
        assert(active_chain(p, rt, 1));
        assert(active_chain(p, parent_of(p, rt), 0));
    }
}

/// Below a root, the trees of the agent forest are whole: a tree that
/// matches at the depth the forest is followed to matches at any greater
/// depth too, and back.
pub proof fn lemma_tree_depth_free(
    p: SwarmProjectionView,
    t: SwarmAgentTreeNode,
    y: Seq<char>,
    l: nat,
    d: nat,
    e: nat,
)
    requires
        well_formed(p),
        active_chain(p, y, l),
        !crate::swarm::active_agent_node(p, parent_of(p, up(p, y, l))),
        l + d == p.nodes.len(),
        e >= d,
    ensures
        crate::swarm::tree_matches(t, p, y, d) == crate::swarm::tree_matches(t, p, y, e),
    decreases d,
{
    lemma_chain_to_root_bounded(p, y, l);
    let kids = crate::swarm::child_agents(p, y);
    assert forall|i: int| 0 <= i < kids.len() implies crate::swarm::tree_matches(
        #[trigger] t.children@[i],
        p,
        kids[i].id,
        (d - 1) as nat,
    ) == crate::swarm::tree_matches(t.children@[i], p, kids[i].id, (e - 1) as nat) by {
        assert(kids.contains(kids[i]));
        lemma_kid_facts(p, y, kids[i]);
        let c = kids[i].id;
        lemma_chain_split(p, y, 0, l);
        assert(active_chain(p, y, 0));
        assert(up(p, c, 1) == up(p, parent_of(p, c), 0));
        assert(active_chain(p, c, 1));
        lemma_chain_split(p, c, 1, l);
        lemma_up_add(p, c, 1, l);
        assert(1 + l == l + 1);
        lemma_tree_depth_free(p, t.children@[i], c, l + 1, (d - 1) as nat, (e - 1) as nat);
    }
}

/// The agent forest is whole: it matches the projection at the depth it is
/// followed to exactly when it matches it at any greater depth.
pub proof fn lemma_forest_depth_free(p: SwarmProjectionView, r: Seq<SwarmAgentTreeNode>, e: nat)
    requires
        well_formed(p),
        e >= p.nodes.len(),
    ensures
        crate::swarm::forest_matches(r, p, tree_roots(p), p.nodes.len()) == crate::swarm::forest_matches(
            r,
            p,
            tree_roots(p),
            e,
        ),
{
    let ns = tree_roots(p);
    lemma_root_facts(p, p.root);
    assert forall|i: int| 0 <= i < ns.len() implies crate::swarm::tree_matches(
        #[trigger] r[i],
        p,
        ns[i].id,
        p.nodes.len(),
    ) == crate::swarm::tree_matches(r[i], p, ns[i].id, e) by {
        assert(ns.contains(ns[i]));
        lemma_root_facts(p, ns[i]);
        assert(active_chain(p, ns[i].id, 0));
        lemma_tree_depth_free(p, r[i], ns[i].id, 0, p.nodes.len(), e);
    }
}

/// Climbing from an active agent through active agents ends, within the
/// number of nodes, at an active agent whose parent is not one.
pub proof fn lemma_reach_root(p: SwarmProjectionView, y: Seq<char>, m: nat) -> (r: nat)
    requires
        well_formed(p),
        forall|c: Seq<char>| crate::swarm::active_agent_node(p, c) ==> !#[trigger] on_active_cycle(p, c),
        active_chain(p, y, m),
    ensures
        active_chain(p, y, r),
        !crate::swarm::active_agent_node(p, parent_of(p, up(p, y, r))),
        r < p.nodes.len(),
    decreases p.nodes.len() - m,
{
    lemma_chain_bounded(p, y, m);
    let z = up(p, y, m);
    if crate::swarm::active_agent_node(p, parent_of(p, z)) {
        lemma_chain_split(p, y, m, 1);
        lemma_chain_split(p, y, m, 0);
        assert(active_chain(p, parent_of(p, z), 0));
        assert(active_chain(p, z, 1));
        lemma_chain_bounded(p, y, m + 1);
        lemma_reach_root(p, y, m + 1)
    } else {
        m
    }
}

/// Where no active agent is on a cycle of active agents, the agent forest
/// shows every active agent exactly once: its ids are the active agents,
/// without repeats, as many as `active_agent_count` counts.
pub proof fn law_agent_tree_complete(p: SwarmProjectionView, r: Seq<SwarmAgentTreeNode>)
    requires
        well_formed(p),
        crate::swarm::forest_matches(r, p, tree_roots(p), p.nodes.len()),
        forall|c: Seq<char>| crate::swarm::active_agent_node(p, c) ==> !#[trigger] on_active_cycle(p, c),
    ensures
        forall|c: Seq<char>| #[trigger] forest_ids(r, p.nodes.len()).contains(c) <==> crate::swarm::active_agent_node(p, c),
        forest_ids(r, p.nodes.len()).no_duplicates(),
        forest_ids(r, p.nodes.len()).len() == crate::swarm::kept(
            p.nodes,
            |x: SwarmNodeView| crate::swarm::is_active_agent(x),
        ).len(),
{
    let dd = p.nodes.len();
    let a = forest_ids(r, dd);
    lemma_forest_shape(p, r, dd);
    let ns = tree_roots(p);
    assert forall|c: Seq<char>| crate::swarm::active_agent_node(p, c) implies #[trigger] a.contains(c) by {
        assert(active_chain(p, c, 0));
        let m = lemma_reach_root(p, c, 0);
        let rt = up(p, c, m);
        lemma_chain_split(p, c, m, 0);
        assert(crate::swarm::active_agent_node(p, rt));
        lemma_node_pos_props(p.nodes, rt);
        let nr = p.nodes[node_pos(p.nodes, rt)];
        lemma_brain_not_stored(p);
        let g = |n: SwarmNodeView| crate::swarm::is_tree_root(p, n);
        assert(g(nr));
        assert(p.nodes.contains(nr));
        crate::swarm::lemma_kept_contains(p.nodes, g, nr);
        crate::swarm::lemma_listed_contains(crate::swarm::kept(p.nodes, g), nr);
        let i = choose|i: int| 0 <= i < ns.len() && ns[i] == nr;
        assert(crate::swarm::tree_matches(r[i], p, rt, dd));
        lemma_in_tree(p, r[i], rt, dd, c, m);
        lemma_forest_contains(r, dd, i, c);
    }
    let f = |x: SwarmNodeView| crate::swarm::is_active_agent(x);
    let kk = crate::swarm::kept(p.nodes, f);
    let b = kk.map_values(|n: SwarmNodeView| n.id);
    lemma_kept_ids_unique(p.nodes, f);
    assert(b.no_duplicates()) by {
        assert forall|i: int, j: int| 0 <= i < b.len() && 0 <= j < b.len() && i != j implies b[i] != b[j] by {
            if i < j {
                assert(kk[i].id != kk[j].id);
            } else {
                assert(kk[j].id != kk[i].id);
            }
        }
    }
    assert forall|c: Seq<char>| #[trigger] b.contains(c) <==> crate::swarm::active_agent_node(p, c) by {
        if b.contains(c) {
            let i = choose|i: int| 0 <= i < b.len() && b[i] == c;
            crate::swarm::lemma_kept_contains(p.nodes, f, kk[i]);
            assert(kk.contains(kk[i]));
            let j = choose|j: int| 0 <= j < p.nodes.len() && p.nodes[j] == kk[i];
            lemma_node_at_stored(p.nodes, j);
        }
        if crate::swarm::active_agent_node(p, c) {
            lemma_node_pos_props(p.nodes, c);
            let n = p.nodes[node_pos(p.nodes, c)];
            assert(p.nodes.contains(n));
            crate::swarm::lemma_kept_contains(p.nodes, f, n);
            let i = choose|i: int| 0 <= i < kk.len() && kk[i] == n;
            assert(b[i] == c);
        }
    }
    assert(a.to_set() =~= b.to_set());
    a.unique_seq_to_set();
    b.unique_seq_to_set();
}

/// From a node on an active cycle, every chain is a chain of active agents.
pub proof fn lemma_cycle_chain(p: SwarmProjectionView, c: Seq<char>, k: nat, a: nat)
    requires
        k >= 1,
        up(p, c, k) == c,
        active_chain(p, c, k),
    ensures
        active_chain(p, c, a),
    decreases a,
{
    if a <= k {
        lemma_chain_split(p, c, a, (k - a) as nat);
        assert(a + (k - a) as nat == k);
    } else {
        lemma_cycle_chain(p, c, k, (a - k) as nat);
        lemma_chain_split(p, c, k, (a - k) as nat);
        assert(k + (a - k) as nat == a);
    }
}

pub proof fn lemma_forest_member(ts: Seq<SwarmAgentTreeNode>, d: nat, y: Seq<char>)
    requires
        forest_ids(ts, d).contains(y),
    ensures
        exists|i: int| 0 <= i < ts.len() && #[trigger] tree_ids(ts[i], d).contains(y),
    decreases ts.len(),
{
    let u = ts.drop_last();
    let a = forest_ids(u, d);
    let b = tree_ids(ts.last(), d);
    assert(forest_ids(ts, d) == a + b);
    let k = choose|k: int| 0 <= k < (a + b).len() && (a + b)[k] == y;
    if k < a.len() {
        assert(a[k] == y);
        lemma_forest_member(u, d, y);
        let i = choose|i: int| 0 <= i < u.len() && #[trigger] tree_ids(u[i], d).contains(y);
        assert(u[i] == ts[i]);
        assert(tree_ids(ts[i], d).contains(y));
    } else {
        assert(b[k - a.len()] == y);
        assert(tree_ids(ts[ts.len() - 1], d).contains(y));
    }
}

/// Agents on a cycle of active agents are left out of the agent forest.
pub proof fn law_cycles_left_out(p: SwarmProjectionView, r: Seq<SwarmAgentTreeNode>, c: Seq<char>)
    requires
        well_formed(p),
        crate::swarm::forest_matches(r, p, tree_roots(p), p.nodes.len()),
        on_active_cycle(p, c),
    ensures
        !forest_ids(r, p.nodes.len()).contains(c),
{
    let dd = p.nodes.len();
    let ns = tree_roots(p);
    if forest_ids(r, dd).contains(c) {
        lemma_root_facts(p, p.root);
        assert forall|i: int| 0 <= i < r.len() implies {
            &&& (#[trigger] tree_ids(r[i], dd)).no_duplicates()
            &&& forall|y: Seq<char>| #[trigger] tree_ids(r[i], dd).contains(y) ==> below(p, y, ns[i].id, dd)
            &&& !crate::swarm::active_agent_node(p, parent_of(p, ns[i].id))
        } by {
            assert(ns.contains(ns[i]));
            lemma_root_facts(p, ns[i]);
            lemma_tree_shape(p, r[i], ns[i].id, dd);
        }
        lemma_forest_member(r, dd, c);
        let i = choose|i: int| 0 <= i < r.len() && #[trigger] tree_ids(r[i], dd).contains(c);
        assert(tree_ids(r[i], dd).no_duplicates());
        assert(below(p, c, ns[i].id, dd));
        let m = choose|m: nat| m <= dd && #[trigger] up(p, c, m) == ns[i].id && active_chain(p, c, m);
        let k = choose|k: nat| k >= 1 && #[trigger] up(p, c, k) == c && active_chain(p, c, k);
        lemma_cycle_chain(p, c, k, m + 1);
        lemma_chain_split(p, c, m, 1);
        lemma_chain_split(p, c, m, 0);
        let rt = up(p, c, m);
        assert(active_chain(p, rt, 1));
        assert(active_chain(p, parent_of(p, rt), 0));
        assert(crate::swarm::active_agent_node(p, parent_of(p, rt)));
        assert(ns.contains(ns[i]));
        lemma_root_facts(p, ns[i]);
    }
}

/// Each linked thread has exactly one agent node and every agent node is
/// that of a linked thread: no node id is stored twice, the thread `t` is
/// linked exactly when the agent node "agent-" and `t` is stored, and every
/// agent node is "agent-" and a linked thread.
pub open spec fn one_agent_per_thread(p: SwarmProjectionView) -> bool {
    &&& ids_unique(p.nodes)
    &&& forall|t: Seq<char>| #[trigger] has_key(p.thread_nodes, t) ==> (node_at(p.nodes, "agent-"@ + t) matches Some(
        n,
    ) && n.kind == SwarmNodeKind::Agent)
    &&& forall|i: int|
        0 <= i < p.nodes.len() && (#[trigger] p.nodes[i]).kind == SwarmNodeKind::Agent ==> {
            &&& p.nodes[i].id == "agent-"@ + p.nodes[i].id.skip(6)
            &&& has_key(p.thread_nodes, p.nodes[i].id.skip(6))
        }
}

/// Every projection of the shape has one agent node per linked thread.
pub proof fn lemma_shape_one_agent_per_thread(p: SwarmProjectionView)
    requires
        well_formed(p),
    ensures
        one_agent_per_thread(p),
{
    law_one_agent_per_thread(p, Seq::empty());
    assert forall|t: Seq<char>| #[trigger] has_key(p.thread_nodes, t) implies (node_at(p.nodes, "agent-"@ + t) matches Some(
        n,
    ) && n.kind == SwarmNodeKind::Agent) by {
        law_one_agent_per_thread(p, t);
    }
}

/// An item that is done is complete: after `ItemDone` for an item linked to
/// a stored node, that node is the same node with status complete, every
/// other node is found as before, and the links, lists and turns are kept.
pub proof fn law_item_done_completes(p: SwarmProjectionView, item_id: String, c: Seq<char>)
    requires
        ids_unique(p.nodes),
        link_of(p.item_nodes, item_id@) matches Some(nid) && node_pos(p.nodes, nid) >= 0,
    ensures
        ({
            let nid = link_of(p.item_nodes, item_id@)->0;
            let n = node_at(p.nodes, nid)->0;
            let q = event_applied(p, ChatStreamEvent::ItemDone { item_id });
            &&& node_at(q.nodes, nid) == Some(
                SwarmNodeView { status: crate::swarm::SwarmNodeStatus::Complete, ..n },
            )
            &&& c != nid ==> node_at(q.nodes, c) == node_at(p.nodes, c)
            &&& q.nodes.len() == p.nodes.len()
            &&& same_links(p, q)
            &&& q.root == p.root
            &&& q.turn_order == p.turn_order
            &&& q.active_turn_node_id == p.active_turn_node_id
        }),
{
    let nid = link_of(p.item_nodes, item_id@)->0;
    lemma_node_pos_props(p.nodes, nid);
    let i = node_pos(p.nodes, nid);
    let n = p.nodes[i];
    let x = SwarmNodeView { status: crate::swarm::SwarmNodeStatus::Complete, ..n };
    lemma_node_at_update(p.nodes, i, x, nid);
    lemma_node_at_update(p.nodes, i, x, c);
}

} // verus!
