//! The semantic index: an ordered finite-state dictionary from lowercased
//! labels and aliases to integer row ids, over a node snapshot list.
//!
//! The dictionary tier is the `fst` crate's map, reached through trusted
//! wrappers; everything around it — key collection, last-writer-wins
//! de-duplication, ordering, lookup — is verified against `dict_model`, the
//! mathematical dictionary a node list defines.

use vstd::prelude::*;
use crate::models::{FullSemanticNode, NodeView, clone_node_vec};
use crate::text::{lower_of, to_lower};

verus! {

#[verifier::external_type_specification]
#[verifier::external_body]
#[verifier::reject_recursive_types(D)]
pub struct ExFstMap<D>(fst::Map<D>);

#[verifier::external_type_specification]
#[verifier::external_body]
#[verifier::reject_recursive_types(W)]
pub struct ExFstMapBuilder<W>(fst::MapBuilder<W>);

/// The key/value pairs a builder holds so far; a key stands here as the
/// character sequence whose UTF-8 bytes were handed to the builder.
pub uninterp spec fn builder_entries(b: fst::MapBuilder<Vec<u8>>) -> Map<Seq<char>, u64>;

/// The key/value pairs of a finished dictionary, keyed the same way.
pub uninterp spec fn dict_entries(m: fst::Map<Vec<u8>>) -> Map<Seq<char>, u64>;

/// Relies on fst::MapBuilder::memory: a fresh builder holds no keys.
#[verifier::external_body]
fn fst_builder_new() -> (b: fst::MapBuilder<Vec<u8>>)
    ensures
        builder_entries(b).dom() == Set::<Seq<char>>::empty(),
{
    fst::MapBuilder::memory()
}

/// Relies on fst::MapBuilder::insert: a key strictly above every key
/// inserted so far is accepted and now maps to the value; any other key is
/// refused before anything is written (raw::Builder::insert checks against
/// the greatest inserted key first, and the in-memory writer cannot fail).
/// The order is byte order of the UTF-8 keys, which equals the code-point
/// order `key_lt`.
#[verifier::external_body]
fn fst_builder_insert(b: &mut fst::MapBuilder<Vec<u8>>, key: &String, val: u64) -> (r: Result<
    (),
    (),
>)
    ensures
        r is Ok <==> (forall|k: Seq<char>|
            #[trigger] builder_entries(*old(b)).contains_key(k) ==> key_lt(k, key@)),
        r is Ok ==> builder_entries(*final(b)) == builder_entries(*old(b)).insert(key@, val),
        r is Err ==> builder_entries(*final(b)) == builder_entries(*old(b)),
{
    match b.insert(key.as_str(), val) {
        Ok(_) => Ok(()),
        Err(_) => Err(()),
    }
}

/// Relies on fst::MapBuilder::into_map: the finished map holds exactly the
/// inserted keys. The in-memory builder writes to a vector, which cannot
/// fail, and parses bytes it produced itself, so the internal unwrap cannot
/// fire.
#[verifier::external_body]
fn fst_builder_finish(b: fst::MapBuilder<Vec<u8>>) -> (m: fst::Map<Vec<u8>>)
    ensures
        dict_entries(m) == builder_entries(b),
{
    b.into_map()
}

/// Relies on fst::Map::get: the value stored under the key, if any.
#[verifier::external_body]
fn fst_map_get(m: &fst::Map<Vec<u8>>, key: &String) -> (r: Option<u64>)
    ensures
        r == (if dict_entries(*m).contains_key(key@) {
            Some(dict_entries(*m)[key@])
        } else {
            None::<u64>
        }),
{
    m.get(key.as_str())
}

// ---------------------------------------------------------------------------
// The mathematical dictionary of a node list
// ---------------------------------------------------------------------------

/// An association list folded into a map; a later pair overwrites an earlier
/// one with the same key.
pub open spec fn assoc_fold(ps: Seq<(Seq<char>, u64)>) -> Map<Seq<char>, u64>
    decreases ps.len(),
{
    if ps.len() == 0 {
        Map::empty()
    } else {
        assoc_fold(ps.drop_last()).insert(ps.last().0, ps.last().1)
    }
}

/// The pairs the aliases of one node contribute, in order.
pub open spec fn alias_pairs(aliases: Seq<Seq<char>>, id: u64) -> Seq<(Seq<char>, u64)>
    decreases aliases.len(),
{
    if aliases.len() == 0 {
        Seq::empty()
    } else {
        alias_pairs(aliases.drop_last(), id) + seq![(lower_of(aliases.last()), id)]
    }
}

/// The pairs one node contributes: its lowercased label, then each
/// lowercased alias, all mapped to the node's row id.
pub open spec fn node_pairs(n: NodeView, id: u64) -> Seq<(Seq<char>, u64)> {
    seq![(lower_of(n.label), id)] + alias_pairs(n.alias_names, id)
}

/// Every pair of the node list, node-major, row ids being positions.
pub open spec fn pair_seq(nodes: Seq<NodeView>) -> Seq<(Seq<char>, u64)>
    decreases nodes.len(),
{
    if nodes.len() == 0 {
        Seq::empty()
    } else {
        pair_seq(nodes.drop_last()) + node_pairs(nodes.last(), (nodes.len() - 1) as u64)
    }
}

/// The dictionary a node list defines: on duplicate keys the last-written
/// node wins (labels can collide across nodes; node_key uniqueness does not
/// prevent that, so this mirrors the ordered build).
pub open spec fn dict_model(nodes: Seq<NodeView>) -> Map<Seq<char>, u64> {
    assoc_fold(pair_seq(nodes))
}

/// No two entries share a key.
pub open spec fn distinct_keys(l: Seq<(Seq<char>, u64)>) -> bool {
    forall|i: int, j: int| 0 <= i < j < l.len() ==> l[i].0 != l[j].0
}

/// Some entry carries this key.
pub open spec fn has_key(l: Seq<(Seq<char>, u64)>, k: Seq<char>) -> bool {
    exists|i: int| 0 <= i < l.len() && l[i].0 == k
}

proof fn lemma_assoc_update(l: Seq<(Seq<char>, u64)>, j: int, v: u64)
    requires
        distinct_keys(l),
        0 <= j < l.len(),
    ensures
        assoc_fold(l.update(j, (l[j].0, v))) == assoc_fold(l).insert(l[j].0, v),
    decreases l.len(),
{
    let k = l[j].0;
    let l2 = l.update(j, (k, v));
    if j == l.len() - 1 {
        assert(l2.drop_last() =~= l.drop_last());
        assert(l2.last() == (k, v));
        assert(assoc_fold(l.drop_last()).insert(k, v) =~= assoc_fold(l.drop_last()).insert(
            k,
            l.last().1,
        ).insert(k, v));
    } else {
        assert(l2.drop_last() =~= l.drop_last().update(j, (k, v)));
        assert(l2.last() == l.last());
        assert(distinct_keys(l.drop_last()));
        lemma_assoc_update(l.drop_last(), j, v);
        // The last key differs from k, so the two inserts commute.
        assert(l.last().0 != k);
        assert(assoc_fold(l.drop_last()).insert(k, v).insert(l.last().0, l.last().1)
            =~= assoc_fold(l.drop_last()).insert(l.last().0, l.last().1).insert(k, v));
    }
}

proof fn lemma_assoc_insert_new(l: Seq<(Seq<char>, u64)>, pos: int, p: (Seq<char>, u64))
    requires
        !has_key(l, p.0),
        0 <= pos <= l.len(),
    ensures
        assoc_fold(l.insert(pos, p)) == assoc_fold(l).insert(p.0, p.1),
    decreases l.len(),
{
    let l2 = l.insert(pos, p);
    if pos == l.len() {
        assert(l2.drop_last() =~= l);
        assert(l2.last() == p);
    } else {
        assert(l2.drop_last() =~= l.drop_last().insert(pos, p));
        assert(l2.last() == l.last());
        assert(!has_key(l.drop_last(), p.0)) by {
            if has_key(l.drop_last(), p.0) {
                let i = choose|i: int|
                    0 <= i < l.drop_last().len() && #[trigger] l.drop_last()[i].0 == p.0;
                assert(l[i].0 == p.0);
            }
        }
        lemma_assoc_insert_new(l.drop_last(), pos, p);
        assert(l.last().0 != p.0) by {
            if l.last().0 == p.0 {
                assert(l[l.len() - 1].0 == p.0);
            }
        }
        assert(assoc_fold(l.drop_last()).insert(p.0, p.1).insert(l.last().0, l.last().1)
            =~= assoc_fold(l.drop_last()).insert(l.last().0, l.last().1).insert(p.0, p.1));
    }
}

proof fn lemma_assoc_range(l: Seq<(Seq<char>, u64)>, bound: int)
    requires
        forall|j: int| 0 <= j < l.len() ==> (#[trigger] l[j].1 as int) < bound,
    ensures
        forall|k: Seq<char>|
            #[trigger] assoc_fold(l).contains_key(k) ==> (assoc_fold(l)[k] as int) < bound,
    decreases l.len(),
{
    if l.len() > 0 {
        let d = l.drop_last();
        assert(forall|j: int| 0 <= j < d.len() ==> (#[trigger] d[j].1 as int) < bound);
        lemma_assoc_range(d, bound);
        assert forall|k: Seq<char>| #[trigger] assoc_fold(l).contains_key(k) implies (assoc_fold(
            l,
        )[k] as int) < bound by {
            if k == l.last().0 {
                assert((l[l.len() - 1].1 as int) < bound);
            } else {
                assert(assoc_fold(d).contains_key(k));
            }
        }
    }
}

// ---------------------------------------------------------------------------
// Key order
// ---------------------------------------------------------------------------

/// Strict lexicographic order on keys by code point. UTF-8 encoding
/// preserves code-point order, so this is exactly the byte order in which
/// the dictionary builder wants its keys.
pub open spec fn key_lt(a: Seq<char>, b: Seq<char>) -> bool
    decreases a.len(),
{
    if b.len() == 0 {
        false
    } else if a.len() == 0 {
        true
    } else if a[0] != b[0] {
        a[0] < b[0]
    } else {
        key_lt(a.drop_first(), b.drop_first())
    }
}

/// Of two distinct keys, exactly one is below the other.
proof fn lemma_key_lt_total(a: Seq<char>, b: Seq<char>)
    requires
        a != b,
    ensures
        key_lt(a, b) != key_lt(b, a),
    decreases a.len(),
{
    if a.len() == 0 {
        assert(b.len() != 0) by {
            if b.len() == 0 {
                assert(a =~= b);
            }
        }
    } else if b.len() == 0 {
    } else if a[0] != b[0] {
    } else {
        assert(a.drop_first() != b.drop_first()) by {
            if a.drop_first() == b.drop_first() {
                assert(a.drop_first().len() == a.len() - 1);
                assert(b.drop_first().len() == b.len() - 1);
                assert(a.len() == b.len());
                assert forall|i: int| 0 <= i < a.len() implies a[i] == b[i] by {
                    if i > 0 {
                        assert(a.drop_first()[i - 1] == a[i]);
                        assert(b.drop_first()[i - 1] == b[i]);
                    }
                }
                assert(a =~= b);
            }
        }
        lemma_key_lt_total(a.drop_first(), b.drop_first());
    }
}

proof fn lemma_key_lt_trans(a: Seq<char>, b: Seq<char>, c: Seq<char>)
    requires
        key_lt(a, b),
        key_lt(b, c),
    ensures
        key_lt(a, c),
    decreases a.len(),
{
    if a.len() == 0 {
        assert(c.len() > 0);
    } else {
        assert(b.len() > 0 && c.len() > 0);
        if a[0] == b[0] && b[0] == c[0] {
            lemma_key_lt_trans(a.drop_first(), b.drop_first(), c.drop_first());
        }
    }
}

/// Dropping an equal prefix leaves the order unchanged.
proof fn lemma_key_lt_skip(a: Seq<char>, b: Seq<char>, i: int)
    requires
        0 <= i <= a.len(),
        i <= b.len(),
        forall|k: int| 0 <= k < i ==> a[k] == b[k],
    ensures
        key_lt(a, b) == key_lt(a.skip(i), b.skip(i)),
    decreases i,
{
    if i == 0 {
        assert(a.skip(0) =~= a);
        assert(b.skip(0) =~= b);
    } else {
        assert(a[0] == b[0]);
        let a1 = a.drop_first();
        let b1 = b.drop_first();
        assert(forall|k: int| 0 <= k < i - 1 ==> #[trigger] a1[k] == b1[k]);
        lemma_key_lt_skip(a1, b1, i - 1);
        assert(a1.skip(i - 1) =~= a.skip(i));
        assert(b1.skip(i - 1) =~= b.skip(i));
    }
}

/// Strict key order, decided character by character.
fn str_key_lt(a: &str, b: &str) -> (r: bool)
    ensures
        r == key_lt(a@, b@),
{
    let n = a.unicode_len();
    let m = b.unicode_len();
    let min = if n < m {
        n
    } else {
        m
    };
    let mut i: usize = 0;
    while i < min
        invariant
            i <= min,
            min == (if n < m { n as int } else { m as int }),
            n == a@.len(),
            m == b@.len(),
            forall|k: int| 0 <= k < i ==> a@[k] == b@[k],
        decreases min - i,
    {
        let ca = a.get_char(i);
        let cb = b.get_char(i);
        if ca != cb {
            proof {
                lemma_key_lt_skip(a@, b@, i as int);
                assert(a@.skip(i as int)[0] == a@[i as int]);
                assert(b@.skip(i as int)[0] == b@[i as int]);
            }
            return ca < cb;
        }
        i = i + 1;
    }
    proof {
        lemma_key_lt_skip(a@, b@, min as int);
        assert(a@.skip(min as int).len() == n - min);
        assert(b@.skip(min as int).len() == m - min);
    }
    n < m
}

/// Keys in strictly ascending order.
pub open spec fn sorted_keys(l: Seq<(Seq<char>, u64)>) -> bool {
    forall|i: int, j: int|
        #![trigger l[i], l[j]]
        0 <= i < j < l.len() ==> key_lt(l[i].0, l[j].0)
}

/// The folded map holds a key exactly when some entry carries it.
proof fn lemma_assoc_dom(l: Seq<(Seq<char>, u64)>)
    ensures
        forall|k: Seq<char>| #[trigger] assoc_fold(l).contains_key(k) == has_key(l, k),
    decreases l.len(),
{
    if l.len() > 0 {
        let d = l.drop_last();
        lemma_assoc_dom(d);
        assert forall|k: Seq<char>| #[trigger] assoc_fold(l).contains_key(k) == has_key(l, k) by {
            if assoc_fold(l).contains_key(k) {
                if k == l.last().0 {
                    assert(l[l.len() - 1].0 == k);
                } else {
                    assert(assoc_fold(d).contains_key(k));
                    let j = choose|j: int| 0 <= j < d.len() && #[trigger] d[j].0 == k;
                    assert(l[j].0 == k);
                }
                assert(has_key(l, k));
            }
            if has_key(l, k) {
                let j = choose|j: int| 0 <= j < l.len() && #[trigger] l[j].0 == k;
                if j < l.len() - 1 {
                    assert(d[j].0 == k);
                    assert(has_key(d, k));
                    assert(assoc_fold(d).contains_key(k));
                } else {
                    assert(k == l.last().0);
                }
                assert(assoc_fold(l).contains_key(k));
            }
        }
    }
}

// ---------------------------------------------------------------------------
// The index
// ---------------------------------------------------------------------------

/// The error type of a build. The verified build orders and de-duplicates
/// its keys before feeding the dictionary builder, so it is proved to
/// succeed on every node list and never constructs this.
#[derive(Clone, Copy, Debug, PartialEq, Eq, Structural)]
pub enum IndexError {
    /// The dictionary builder refused the key stream.
    BuildRefused,
}

/// The hot-swappable semantic index: the finite-state dictionary and the
/// node snapshots its row ids point into.
pub struct FstEngine {
    /// The finite-state dictionary tier.
    pub dict: fst::Map<Vec<u8>>,
    /// Node snapshots; the row id of a node is its position here.
    pub node_cache: Vec<FullSemanticNode>,
}

impl FstEngine {
    /// The dictionary holds exactly what the node list defines, and every
    /// row id points into the cache.
    pub closed spec fn wf(self) -> bool {
        &&& dict_entries(self.dict) == dict_model(self.node_cache.deep_view())
        &&& forall|k: Seq<char>|
            #[trigger] dict_entries(self.dict).contains_key(k) ==> (dict_entries(self.dict)[k]
                as int) < self.node_cache.deep_view().len()
    }

    /// What a lookup resolves to: the node the dictionary's row id points
    /// at, under the lowercased query key.
    pub open spec fn lookup_spec(self, q: Seq<char>) -> Option<NodeView> {
        let dm = dict_model(self.node_cache.deep_view());
        if dm.contains_key(lower_of(q)) && (dm[lower_of(q)] as int)
            < self.node_cache.deep_view().len() {
            Some(self.node_cache.deep_view()[dm[lower_of(q)] as int])
        } else {
            None
        }
    }

    /// Builds the index over a node list: row ids are positions; every
    /// lowercased label and alias becomes a dictionary key, the last-written
    /// node winning a duplicate key.
    #[verifier::loop_isolation(false)]
    #[verifier::rlimit(30)]
    pub fn build(nodes: &Vec<FullSemanticNode>) -> (r: Result<FstEngine, IndexError>)
        ensures
            r is Ok,
            match r {
                Ok(e) => e.wf() && e.node_cache.deep_view() == nodes.deep_view(),
                Err(_) => true,
            },
    {
        let ghost nv = nodes.deep_view();

        // Collect every (lowercased key, row id) pair, node-major.
        let mut pairs: Vec<(String, u64)> = Vec::new();
        let mut i: usize = 0;
        while i < nodes.len()
            invariant
                i <= nodes.len(),
                pairs.deep_view() =~= pair_seq(nv.take(i as int)),
                forall|j: int|
                    0 <= j < pairs.deep_view().len() ==> (#[trigger] pairs.deep_view()[j].1
                        as int) < nodes.len(),
            decreases nodes.len() - i,
        {
            let ghost at_node = pairs.deep_view();
            let lab = to_lower(nodes[i].label.as_str());
            pairs.push((lab, i as u64));
            proof {
                assert(pairs.deep_view() =~= at_node + seq![(lower_of(nv[i as int].label), i as u64)]);
            }
            let ghost aliases = nv[i as int].alias_names;
            let mut j: usize = 0;
            while j < nodes[i].alias_names.len()
                invariant
                    i < nodes.len(),
                    j <= nodes[i as int].alias_names.len(),
                    aliases == nv[i as int].alias_names,
                    pairs.deep_view() =~= at_node + seq![
                        (lower_of(nv[i as int].label), i as u64),
                    ] + alias_pairs(aliases.take(j as int), i as u64),
                    forall|j2: int|
                        0 <= j2 < pairs.deep_view().len() ==> (#[trigger] pairs.deep_view()[j2].1
                            as int) < nodes.len(),
                decreases nodes[i as int].alias_names.len() - j,
            {
                let ghost pre = pairs.deep_view();
                let al = to_lower(nodes[i].alias_names[j].as_str());
                pairs.push((al, i as u64));
                proof {
                    assert(pairs.deep_view() =~= pre.push((lower_of(aliases[j as int]), i as u64)));
                    assert(aliases.take(j + 1).drop_last() =~= aliases.take(j as int));
                    assert(aliases.take(j + 1).last() == aliases[j as int]);
                }
                j = j + 1;
            }
            proof {
                assert(aliases.take(nodes[i as int].alias_names.len() as int) =~= aliases);
                assert(nv.take(i + 1).drop_last() =~= nv.take(i as int));
                assert(nv.take(i + 1).last() == nv[i as int]);
                assert(pairs.deep_view() =~= pair_seq(nv.take(i as int)) + node_pairs(
                    nv[i as int],
                    i as u64,
                ));
            }
            i = i + 1;
        }
        proof {
            assert(nv.take(nodes.len() as int) =~= nv);
        }
        let ghost all_pairs = pairs.deep_view();
        assert(all_pairs == pair_seq(nv));

        // Fold the pairs into a key-distinct list, kept in ascending byte
        // order of the keys, the last writer winning a duplicate key.
        let mut uniq: Vec<(String, u64)> = Vec::new();
        let mut i: usize = 0;
        while i < pairs.len()
            invariant
                i <= pairs.len(),
                distinct_keys(uniq.deep_view()),
                sorted_keys(uniq.deep_view()),
                assoc_fold(uniq.deep_view()) == assoc_fold(all_pairs.take(i as int)),
                forall|j: int|
                    0 <= j < uniq.deep_view().len() ==> (#[trigger] uniq.deep_view()[j].1 as int)
                        < nodes.len(),
                forall|j: int|
                    0 <= j < all_pairs.len() ==> (#[trigger] all_pairs[j].1 as int) < nodes.len(),
            decreases pairs.len() - i,
        {
            let ghost uv = uniq.deep_view();
            let key_clone = pairs[i].0.clone();
            let val = pairs[i].1;
            proof {
                assert(all_pairs.take(i + 1).drop_last() =~= all_pairs.take(i as int));
                assert(all_pairs.take(i + 1).last() == all_pairs[i as int]);
            }
            // Look for an entry with the same key.
            let mut j: usize = 0;
            let mut found = false;
            let mut found_at: usize = 0;
            while j < uniq.len()
                invariant
                    j <= uniq.len(),
                    uv == uniq.deep_view(),
                    !found ==> forall|k: int| 0 <= k < j ==> uv[k].0 != key_clone@,
                    found ==> found_at < uniq.len() && uv[found_at as int].0 == key_clone@,
                    found ==> j == uniq.len(),
                decreases uniq.len() - j,
            {
                if uniq[j].0.eq(&key_clone) {
                    proof {
                        assert(uv[j as int].0 == key_clone@);
                    }
                    found = true;
                    found_at = j;
                    j = uniq.len();
                } else {
                    j = j + 1;
                }
            }
            if found {
                // Last writer wins: keep the key, replace the value.
                let old_pair = uniq.remove(found_at);
                uniq.insert(found_at, (old_pair.0, val));
                proof {
                    assert(uniq.deep_view() =~= uv.update(found_at as int, (uv[found_at as int].0, val)));
                    lemma_assoc_update(uv, found_at as int, val);
                    let l2 = uniq.deep_view();
                    assert(forall|x: int| 0 <= x < l2.len() ==> (#[trigger] l2[x]).0 == uv[x].0);
                    assert(distinct_keys(l2));
                    assert forall|x: int, y: int|
                        #![trigger l2[x], l2[y]]
                        0 <= x < y < l2.len() implies key_lt(l2[x].0, l2[y].0) by {
                        assert(key_lt(uv[x].0, uv[y].0));
                    }
                }
            } else {
                assert(!has_key(uv, key_clone@)) by {
                    if has_key(uv, key_clone@) {
                        let k = choose|k: int| 0 <= k < uv.len() && #[trigger] uv[k].0 == key_clone@;
                    }
                }
                // Find the ascending position of the new key.
                let mut pos: usize = 0;
                while pos < uniq.len() && !str_key_lt(key_clone.as_str(), uniq[pos].0.as_str())
                    invariant
                        pos <= uniq.len(),
                        uv == uniq.deep_view(),
                        forall|k: int| 0 <= k < pos ==> !key_lt(key_clone@, #[trigger] uv[k].0),
                    decreases uniq.len() - pos,
                {
                    pos = pos + 1;
                }
                proof {
                    assert forall|k: int| 0 <= k < pos implies key_lt(
                        #[trigger] uv[k].0,
                        key_clone@,
                    ) by {
                        if uv[k].0 == key_clone@ {
                            assert(has_key(uv, key_clone@));
                        }
                        lemma_key_lt_total(uv[k].0, key_clone@);
                    }
                    assert forall|k: int| pos <= k < uv.len() implies key_lt(
                        key_clone@,
                        #[trigger] uv[k].0,
                    ) by {
                        assert(key_lt(key_clone@, uv[pos as int].0));
                        if k > pos {
                            assert(key_lt(uv[pos as int].0, uv[k].0));
                            lemma_key_lt_trans(key_clone@, uv[pos as int].0, uv[k].0);
                        }
                    }
                }
                uniq.insert(pos, (key_clone, val));
                proof {
                    let l2 = uv.insert(pos as int, (all_pairs[i as int].0, val));
                    assert(uniq.deep_view() =~= l2);
                    lemma_assoc_insert_new(uv, pos as int, (all_pairs[i as int].0, val));
                    assert forall|x: int, y: int| 0 <= x < y < l2.len() implies l2[x].0
                        != l2[y].0 by {
                        if x == pos {
                            assert(l2[y] == uv[y - 1]);
                        } else if y == pos {
                            assert(l2[x] == uv[x]);
                        } else {
                            let x0: int = if x < pos { x } else { x - 1 };
                            let y0: int = if y < pos { y } else { y - 1 };
                            assert(l2[x] == uv[x0] && l2[y] == uv[y0]);
                        }
                    }
                    assert forall|x: int, y: int|
                        #![trigger l2[x], l2[y]]
                        0 <= x < y < l2.len() implies key_lt(l2[x].0, l2[y].0) by {
                        if x == pos {
                            assert(l2[x].0 == key_clone@);
                            assert(l2[y] == uv[y - 1]);
                            assert(key_lt(key_clone@, uv[y - 1].0));
                        } else if y == pos {
                            assert(l2[y].0 == key_clone@);
                            assert(l2[x] == uv[x]);
                            assert(key_lt(uv[x].0, key_clone@));
                        } else {
                            let x0: int = if x < pos { x } else { x - 1 };
                            let y0: int = if y < pos { y } else { y - 1 };
                            assert(l2[x] == uv[x0] && l2[y] == uv[y0]);
                            assert(key_lt(uv[x0].0, uv[y0].0));
                        }
                    }
                }
            }
            i = i + 1;
        }
        proof {
            assert(all_pairs.take(pairs.len() as int) =~= all_pairs);
        }
        assert(assoc_fold(uniq.deep_view()) == dict_model(nv));

        // Feed the keys to the dictionary builder in ascending order; every
        // insert is proved to be accepted.
        let ghost ufinal = uniq.deep_view();
        let mut b = fst_builder_new();
        let mut i: usize = 0;
        while i < uniq.len()
            invariant
                i <= uniq.len(),
                ufinal == uniq.deep_view(),
                builder_entries(b) == assoc_fold(ufinal.take(i as int)),
            decreases uniq.len() - i,
        {
            proof {
                assert(ufinal.take(i + 1).drop_last() =~= ufinal.take(i as int));
                assert(ufinal.take(i + 1).last() == ufinal[i as int]);
                lemma_assoc_dom(ufinal.take(i as int));
                assert forall|k: Seq<char>|
                    #[trigger] builder_entries(b).contains_key(k) implies key_lt(
                    k,
                    ufinal[i as int].0,
                ) by {
                    assert(has_key(ufinal.take(i as int), k));
                    let j = choose|j: int|
                        0 <= j < ufinal.take(i as int).len() && #[trigger] ufinal.take(
                            i as int,
                        )[j].0 == k;
                    assert(ufinal[j].0 == k);
                    assert(key_lt(ufinal[j].0, ufinal[i as int].0));
                }
            }
            let inserted = fst_builder_insert(&mut b, &uniq[i].0, uniq[i].1);
            assert(inserted is Ok);
            i = i + 1;
        }
        proof {
            assert(ufinal.take(uniq.len() as int) =~= ufinal);
        }
        let dict = fst_builder_finish(b);
        assert(dict_entries(dict) == dict_model(nv));
        proof {
            lemma_assoc_range(ufinal, nodes.len() as int);
        }
        let cache = clone_node_vec(nodes);
        let e = FstEngine { dict, node_cache: cache };
        assert(e.wf());
        Ok(e)
    }

    /// Looks the lowercased query up in the dictionary and hands back a
    /// snapshot of the node its row id points at.
    pub fn find_match(&self, query: &str) -> (r: Option<FullSemanticNode>)
        requires
            self.wf(),
        ensures
            r.deep_view() == self.lookup_spec(query@),
    {
        let lq = to_lower(query);
        match fst_map_get(&self.dict, &lq) {
            Some(id) => {
                assert(dict_entries(self.dict).contains_key(lq@));
                assert(id == dict_entries(self.dict)[lq@]);
                assert((id as int) < self.node_cache.deep_view().len());
                let len = self.node_cache.len();
                assert((id as int) < len as int);
                let ix = id as usize;
                assert(ix as int == id as int);
                let n = self.node_cache[ix].duplicate();
                assert(n.deep_view() == self.node_cache.deep_view()[id as int]);
                Some(n)
            },
            None => None,
        }
    }
}

/// Law: the lookup behaviour is a function of the node list alone. Two
/// well-formed indexes built over equal node lists resolve every query to
/// the same row id and node snapshot, so rebuilding from the same node set
/// leaves the label-to-node mapping unchanged.
pub proof fn lemma_rebuild_equivalent(a: FstEngine, b: FstEngine, q: Seq<char>)
    requires
        a.node_cache.deep_view() == b.node_cache.deep_view(),
    ensures
        a.lookup_spec(q) == b.lookup_spec(q),
{
}

} // verus!
