//! Export of the ontology as Turtle text: one block per node with its role,
//! label, physical table, expression, T-Box links by node_key, and its id
//! in the canonical hyphenated form.

use vstd::prelude::*;
use vstd::string::{StrSliceExecFns, StringExecFns};
use crate::models::{FullSemanticNode, NodeRole, NodeView};
use crate::text::string_push_char;
use crate::inference::{find_node, find_node_exec};

verus! {

/// The lowercase hex digit of a value below sixteen.
pub open spec fn hex_char(d: int) -> char {
    if d == 0 {
        '0'
    } else if d == 1 {
        '1'
    } else if d == 2 {
        '2'
    } else if d == 3 {
        '3'
    } else if d == 4 {
        '4'
    } else if d == 5 {
        '5'
    } else if d == 6 {
        '6'
    } else if d == 7 {
        '7'
    } else if d == 8 {
        '8'
    } else if d == 9 {
        '9'
    } else if d == 10 {
        'a'
    } else if d == 11 {
        'b'
    } else if d == 12 {
        'c'
    } else if d == 13 {
        'd'
    } else if d == 14 {
        'e'
    } else {
        'f'
    }
}

/// The last `k` hex digits of a value, most significant first.
pub open spec fn hex_digits(v: int, k: nat) -> Seq<char>
    decreases k,
{
    if k == 0 {
        Seq::empty()
    } else {
        hex_digits(v / 16, (k - 1) as nat).push(hex_char(v % 16))
    }
}

proof fn lemma_hex_digits_len(v: int, k: nat)
    ensures
        hex_digits(v, k).len() == k,
    decreases k,
{
    if k > 0 {
        lemma_hex_digits_len(v / 16, (k - 1) as nat);
    }
}

/// The canonical hyphenated form of a 128-bit id: five lowercase hex groups
/// of 8, 4, 4, 4 and 12 digits.
pub open spec fn uuid_str(id: u128) -> Seq<char> {
    let h = hex_digits(id as int, 32);
    h.subrange(0, 8) + seq!['-'] + h.subrange(8, 12) + seq!['-'] + h.subrange(12, 16)
        + seq!['-'] + h.subrange(16, 20) + seq!['-'] + h.subrange(20, 32)
}

fn hex_char_exec(d: u8) -> (c: char)
    requires
        d < 16,
    ensures
        c == hex_char(d as int),
{
    match d {
        0 => '0',
        1 => '1',
        2 => '2',
        3 => '3',
        4 => '4',
        5 => '5',
        6 => '6',
        7 => '7',
        8 => '8',
        9 => '9',
        10 => 'a',
        11 => 'b',
        12 => 'c',
        13 => 'd',
        14 => 'e',
        _ => 'f',
    }
}

fn hex_digits_exec(v: u128, k: usize) -> (r: String)
    ensures
        r@ == hex_digits(v as int, k as nat),
    decreases k,
{
    if k == 0 {
        String::new()
    } else {
        let mut s = hex_digits_exec(v / 16, k - 1);
        string_push_char(&mut s, hex_char_exec((v % 16) as u8));
        s
    }
}

/// Renders an id in its canonical hyphenated form.
pub fn uuid_string(id: u128) -> (r: String)
    ensures
        r@ == uuid_str(id),
{
    let h = hex_digits_exec(id, 32);
    proof {
        lemma_hex_digits_len(id as int, 32);
    }
    let hs = h.as_str();
    let mut r = hs.substring_char(0, 8).to_owned();
    r.append("-");
    r.append(hs.substring_char(8, 12));
    r.append("-");
    r.append(hs.substring_char(12, 16));
    r.append("-");
    r.append(hs.substring_char(16, 20));
    r.append("-");
    r.append(hs.substring_char(20, 32));
    proof {
        assert(seq!['-'] =~= "-"@) by {
            reveal_strlit("-");
        }
        assert(r@ =~= uuid_str(id));
    }
    r
}

/// The RDF class of a node role.
pub open spec fn role_iri(role: NodeRole) -> Seq<char> {
    if role == NodeRole::Metric {
        "sse:Metric"@
    } else {
        "sse:Dimension"@
    }
}

/// The prefix declarations that open the document.
pub open spec fn ttl_header() -> Seq<char> {
    "@prefix sse: <http://example.org/sse#> .\n@prefix rdf: <http://www.w3.org/1999/02/22-rdf-syntax-ns#> .\n@prefix rdfs: <http://www.w3.org/2000/01/rdf-schema#> .\n\n"@
}

/// One T-Box line per supported dimension id that resolves to a node,
/// pointing at that node's key.
pub open spec fn dim_lines(nodes: Seq<NodeView>, ids: Seq<u128>) -> Seq<char>
    decreases ids.len(),
{
    if ids.len() == 0 {
        Seq::empty()
    } else {
        dim_lines(nodes, ids.drop_last()) + (match find_node(nodes, ids.last()) {
            Some(d) => "    sse:hasDimension sse:"@ + d.node_key + " ;\n"@,
            None => Seq::empty(),
        })
    }
}

/// The block one node exports.
pub open spec fn node_block(nodes: Seq<NodeView>, n: NodeView) -> Seq<char> {
    "sse:"@ + n.node_key + " rdf:type "@ + role_iri(n.node_role) + " ;\n    rdfs:label \""@
        + n.label + "\" ;\n    sse:physicalTable \""@ + n.target_table
        + "\" ;\n    sse:sqlExpression \""@ + n.sql_expression + "\" ;\n"@ + (if n.node_role
        == NodeRole::Metric {
        dim_lines(nodes, n.supported_dimension_ids)
    } else {
        Seq::empty()
    }) + "    sse:systemId \""@ + uuid_str(n.id) + "\" .\n\n"@
}

/// The blocks of a node prefix, in order.
pub open spec fn ttl_blocks(nodes: Seq<NodeView>, upto: int) -> Seq<char>
    decreases upto,
{
    if upto <= 0 {
        Seq::empty()
    } else {
        ttl_blocks(nodes, upto - 1) + node_block(nodes, nodes[upto - 1])
    }
}

/// The whole document of a node list.
pub open spec fn ttl_spec(nodes: Seq<NodeView>) -> Seq<char> {
    ttl_header() + ttl_blocks(nodes, nodes.len() as int)
}

/// Exports the ontology as Turtle text.
#[verifier::loop_isolation(false)]
#[verifier::rlimit(60)]
pub fn export_ontology_ttl(nodes: &Vec<FullSemanticNode>) -> (r: String)
    ensures
        r@ == ttl_spec(nodes.deep_view()),
{
    let ghost nv = nodes.deep_view();
    let mut out =
        "@prefix sse: <http://example.org/sse#> .\n@prefix rdf: <http://www.w3.org/1999/02/22-rdf-syntax-ns#> .\n@prefix rdfs: <http://www.w3.org/2000/01/rdf-schema#> .\n\n".to_owned();
    let mut i: usize = 0;
    while i < nodes.len()
        invariant
            i <= nodes.len(),
            out@ =~= ttl_header() + ttl_blocks(nv, i as int),
        decreases nodes.len() - i,
    {
        let ghost at_node = out@;
        let n = &nodes[i];
        out.append("sse:");
        out.append(n.node_key.as_str());
        out.append(" rdf:type ");
        out.append(
            match n.node_role {
                NodeRole::Metric => "sse:Metric",
                NodeRole::Dimension => "sse:Dimension",
            },
        );
        out.append(" ;\n    rdfs:label \"");
        out.append(n.label.as_str());
        out.append("\" ;\n    sse:physicalTable \"");
        out.append(n.target_table.as_str());
        out.append("\" ;\n    sse:sqlExpression \"");
        out.append(n.sql_expression.as_str());
        out.append("\" ;\n");
        let ghost before_dims = out@;
        if n.node_role == NodeRole::Metric {
            let ghost ids = nv[i as int].supported_dimension_ids;
            let mut j: usize = 0;
            while j < n.supported_dimension_ids.len()
                invariant
                    i < nodes.len(),
                    j <= nodes[i as int].supported_dimension_ids.len(),
                    ids == nv[i as int].supported_dimension_ids,
                    out@ =~= before_dims + dim_lines(nv, ids.take(j as int)),
                decreases nodes[i as int].supported_dimension_ids.len() - j,
            {
                let ghost pre = out@;
                match find_node_exec(nodes, n.supported_dimension_ids[j]) {
                    Some(ix) => {
                        out.append("    sse:hasDimension sse:");
                        out.append(nodes[ix].node_key.as_str());
                        out.append(" ;\n");
                    },
                    None => {
                    },
                }
                proof {
                    assert(ids.take(j + 1).drop_last() =~= ids.take(j as int));
                    assert(ids.take(j + 1).last() == ids[j as int]);
                }
                j = j + 1;
            }
            proof {
                assert(ids.take(nodes[i as int].supported_dimension_ids.len() as int) =~= ids);
            }
        }
        out.append("    sse:systemId \"");
        let idstr = uuid_string(n.id);
        out.append(idstr.as_str());
        out.append("\" .\n\n");
        proof {
            assert(out@ =~= at_node + node_block(nv, nv[i as int]));
        }
        i = i + 1;
    }
    out
}

} // verus!
