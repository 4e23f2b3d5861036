//! The hot-reload routine's verified parts: collecting the custom
//! vocabulary the tokenizer must keep whole, and the idempotence of a full
//! reload over the derived in-memory state.
//!
//! The surrounding application loads the store, swaps the freshly built
//! index in under its write lock, and only then refreshes the tokenizer —
//! in that order, so a dictionary entry never precedes the node it names.

use vstd::prelude::*;
use crate::models::{FullSemanticNode, NodeView};
use crate::fst_engine::{lemma_rebuild_equivalent, FstEngine};

verus! {

/// The words one node contributes: its label, then its aliases.
pub open spec fn node_words(n: NodeView) -> Seq<Seq<char>> {
    seq![n.label] + n.alias_names
}

/// The words of a node list, node-major.
pub open spec fn nodes_words(nodes: Seq<NodeView>) -> Seq<Seq<char>>
    decreases nodes.len(),
{
    if nodes.len() == 0 {
        Seq::empty()
    } else {
        nodes_words(nodes.drop_last()) + node_words(nodes.last())
    }
}

/// The custom vocabulary of a reload: every label, every alias, then every
/// A-Box value label, in store order.
pub open spec fn words_spec(nodes: Seq<NodeView>, value_labels: Seq<Seq<char>>) -> Seq<Seq<char>> {
    nodes_words(nodes) + value_labels
}

/// Collects the custom vocabulary to hand to the tokenizer.
#[verifier::loop_isolation(false)]
pub fn collect_custom_words(nodes: &Vec<FullSemanticNode>, value_labels: &Vec<String>) -> (r: Vec<
    String,
>)
    ensures
        r.deep_view() == words_spec(nodes.deep_view(), value_labels.deep_view()),
{
    let ghost nv = nodes.deep_view();
    let mut r: Vec<String> = Vec::new();
    let mut i: usize = 0;
    while i < nodes.len()
        invariant
            i <= nodes.len(),
            r.deep_view() =~= nodes_words(nv.take(i as int)),
        decreases nodes.len() - i,
    {
        let ghost at_node = r.deep_view();
        r.push(nodes[i].label.clone());
        proof {
            assert(r.deep_view() =~= at_node + seq![nv[i as int].label]);
        }
        let ghost aliases = nv[i as int].alias_names;
        let mut j: usize = 0;
        while j < nodes[i].alias_names.len()
            invariant
                i < nodes.len(),
                j <= nodes[i as int].alias_names.len(),
                aliases == nv[i as int].alias_names,
                r.deep_view() =~= at_node + seq![nv[i as int].label] + aliases.take(j as int),
            decreases nodes[i as int].alias_names.len() - j,
        {
            let ghost pre = r.deep_view();
            r.push(nodes[i].alias_names[j].clone());
            proof {
                assert(r.deep_view() =~= pre.push(aliases[j as int]));
                assert(aliases.take(j + 1) =~= aliases.take(j as int).push(aliases[j as int]));
            }
            j = j + 1;
        }
        proof {
            assert(aliases.take(nodes[i as int].alias_names.len() as int) =~= aliases);
            assert(nv.take(i + 1).drop_last() =~= nv.take(i as int));
            assert(nv.take(i + 1).last() == nv[i as int]);
            assert(r.deep_view() =~= nodes_words(nv.take(i as int)) + node_words(nv[i as int]));
        }
        i = i + 1;
    }
    proof {
        assert(nv.take(nodes.len() as int) =~= nv);
    }
    let ghost at_labels = r.deep_view();
    let mut j: usize = 0;
    while j < value_labels.len()
        invariant
            j <= value_labels.len(),
            r.deep_view() =~= at_labels + value_labels.deep_view().take(j as int),
        decreases value_labels.len() - j,
    {
        let ghost pre = r.deep_view();
        r.push(value_labels[j].clone());
        proof {
            let lv = value_labels.deep_view();
            assert(r.deep_view() =~= pre.push(lv[j as int]));
            assert(lv.take(j + 1) =~= lv.take(j as int).push(lv[j as int]));
        }
        j = j + 1;
    }
    proof {
        assert(value_labels.deep_view().take(value_labels.len() as int)
            =~= value_labels.deep_view());
        assert(r.deep_view() =~= words_spec(nv, value_labels.deep_view()));
    }
    r
}

/// Law: a full reload is idempotent over the derived in-memory state. The
/// index lookup mapping is a function of the loaded node list alone, and the
/// custom vocabulary handed to the tokenizer is `words_spec` of the loaded
/// nodes and value labels, so two reloads over the same store contents
/// install the same lookup behaviour and feed the tokenizer the same word
/// list. (The tokenizer's own dictionary is outside state; its refresh is
/// additive, so re-adding the same words changes nothing it exposes.)
pub proof fn lemma_reload_idempotent(first: FstEngine, second: FstEngine, q: Seq<char>)
    requires
        first.node_cache.deep_view() == second.node_cache.deep_view(),
    ensures
        first.lookup_spec(q) == second.lookup_spec(q),
{
    lemma_rebuild_equivalent(first, second, q);
}

} // verus!
