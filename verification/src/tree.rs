//! The format-agnostic tree model: the plain and the debug-mode tree, the
//! mathematical shape both share, and the operations the parsers build on.

use vstd::prelude::*;

verus! {

broadcast use vstd::std_specs::vec::group_vec_axioms, vstd::seq::group_seq_axioms;

/// Identifier for a single node within a parsed document tree; it is only
/// meaningful for the tree it was parsed from.
#[derive(Clone, Copy, PartialEq, Eq, Structural, Debug)]
pub struct ConfigNodeID(pub usize);

/// Format-agnostic document tree without node identifiers.
///
/// Numeric literals are kept as their original text inside `String`; they are
/// never converted to a numeric type, so their formatting survives a parse.
/// `Object` keeps its entries in first-encounter key order; on a key collision
/// the later value replaces the earlier one in place (last write wins).
#[derive(Debug, PartialEq, Eq)]
pub enum ConfigTree {
    Null,
    Bool(bool),
    String(String),
    Array(Vec<ConfigTree>),
    Object(Vec<(String, ConfigTree)>),
}

/// Document tree produced by a debug-mode parse: the same five shapes as
/// `ConfigTree`, with a node identifier on every node.
#[derive(Debug, PartialEq, Eq)]
pub enum DebugTree {
    Null { id: ConfigNodeID },
    Bool { id: ConfigNodeID, value: bool },
    String { id: ConfigNodeID, value: String },
    Array { id: ConfigNodeID, value: Vec<DebugTree> },
    Object { id: ConfigNodeID, value: Vec<(String, DebugTree)> },
}

/// Mathematical model of a tree: text as character sequences, arrays as
/// sequences, and objects as maps from key to value.  Modelling objects as
/// maps makes object entry order insignificant and gives key collisions
/// last-write-wins meaning, as the tree invariant demands.
#[verifier::ext_equal]
pub enum TreeShape {
    Null,
    Bool(bool),
    Text(Seq<char>),
    Arr(Seq<TreeShape>),
    Obj(Map<Seq<char>, TreeShape>),
}

impl ConfigTree {
    /// The mathematical value this tree holds.
    pub open spec fn shape(self) -> TreeShape
        decreases self,
    {
        match self {
            ConfigTree::Null => TreeShape::Null,
            ConfigTree::Bool(b) => TreeShape::Bool(b),
            ConfigTree::String(s) => TreeShape::Text(s@),
            ConfigTree::Array(v) => TreeShape::Arr(shape_seq(v@)),
            ConfigTree::Object(v) => TreeShape::Obj(shape_pairs(v@)),
        }
    }

    /// Every object in the tree has pairwise distinct keys.
    pub open spec fn wf(self) -> bool
        decreases self,
    {
        match self {
            ConfigTree::Null => true,
            ConfigTree::Bool(_) => true,
            ConfigTree::String(_) => true,
            ConfigTree::Array(v) => wf_seq(v@),
            ConfigTree::Object(v) => keys_unique(v@) && wf_pairs(v@),
        }
    }
}

/// All trees of a sequence are well-formed.
pub open spec fn wf_seq(s: Seq<ConfigTree>) -> bool
    decreases s,
{
    if s.len() == 0 {
        true
    } else {
        wf_seq(s.drop_last()) && s.last().wf()
    }
}

/// All values of a sequence of object entries are well-formed.
pub open spec fn wf_pairs(s: Seq<(String, ConfigTree)>) -> bool
    decreases s,
{
    if s.len() == 0 {
        true
    } else {
        wf_pairs(s.drop_last()) && s.last().1.wf()
    }
}

/// Shapes of a sequence of trees, in order.
pub open spec fn shape_seq(s: Seq<ConfigTree>) -> Seq<TreeShape>
    decreases s,
{
    if s.len() == 0 {
        Seq::empty()
    } else {
        shape_seq(s.drop_last()).push(s.last().shape())
    }
}

/// Map built from object entries in order, so a later entry for a key
/// overrides an earlier one.
pub open spec fn shape_pairs(s: Seq<(String, ConfigTree)>) -> Map<Seq<char>, TreeShape>
    decreases s,
{
    if s.len() == 0 {
        Map::empty()
    } else {
        shape_pairs(s.drop_last()).insert(s.last().0@, s.last().1.shape())
    }
}

/// Pairwise distinct keys, compared as character sequences.
pub open spec fn keys_unique<T>(s: Seq<(String, T)>) -> bool {
    forall|i: int, j: int| 0 <= i < j < s.len() ==> s[i].0@ != s[j].0@
}

impl DebugTree {
    /// The mathematical value this tree holds, identifiers erased.
    pub open spec fn shape(self) -> TreeShape
        decreases self,
    {
        match self {
            DebugTree::Null { id } => TreeShape::Null,
            DebugTree::Bool { id, value } => TreeShape::Bool(value),
            DebugTree::String { id, value } => TreeShape::Text(value@),
            DebugTree::Array { id, value } => TreeShape::Arr(shape_seq_debug(value@)),
            DebugTree::Object { id, value } => TreeShape::Obj(shape_pairs_debug(value@)),
        }
    }

    /// Every object in the tree has pairwise distinct keys.
    pub open spec fn wf(self) -> bool
        decreases self,
    {
        match self {
            DebugTree::Null { id } => true,
            DebugTree::Bool { id, value } => true,
            DebugTree::String { id, value } => true,
            DebugTree::Array { id, value } => wf_seq_debug(value@),
            DebugTree::Object { id, value } => keys_unique(value@) && wf_pairs_debug(value@),
        }
    }

    /// The identifiers of the tree in depth-first pre-order: a node comes
    /// before its children, children in entry order.
    pub open spec fn pre_ids(self) -> Seq<int>
        decreases self,
    {
        match self {
            DebugTree::Null { id } => seq![id.0 as int],
            DebugTree::Bool { id, value } => seq![id.0 as int],
            DebugTree::String { id, value } => seq![id.0 as int],
            DebugTree::Array { id, value } => seq![id.0 as int] + pre_ids_seq(value@),
            DebugTree::Object { id, value } => seq![id.0 as int] + pre_ids_pairs(value@),
        }
    }
}

/// Shapes of a sequence of debug trees, in order.
pub open spec fn shape_seq_debug(s: Seq<DebugTree>) -> Seq<TreeShape>
    decreases s,
{
    if s.len() == 0 {
        Seq::empty()
    } else {
        shape_seq_debug(s.drop_last()).push(s.last().shape())
    }
}

/// Map built from debug object entries in order, later entries overriding.
pub open spec fn shape_pairs_debug(s: Seq<(String, DebugTree)>) -> Map<Seq<char>, TreeShape>
    decreases s,
{
    if s.len() == 0 {
        Map::empty()
    } else {
        shape_pairs_debug(s.drop_last()).insert(s.last().0@, s.last().1.shape())
    }
}

/// All debug trees of a sequence are well-formed.
pub open spec fn wf_seq_debug(s: Seq<DebugTree>) -> bool
    decreases s,
{
    if s.len() == 0 {
        true
    } else {
        wf_seq_debug(s.drop_last()) && s.last().wf()
    }
}

/// All values of a sequence of debug object entries are well-formed.
pub open spec fn wf_pairs_debug(s: Seq<(String, DebugTree)>) -> bool
    decreases s,
{
    if s.len() == 0 {
        true
    } else {
        wf_pairs_debug(s.drop_last()) && s.last().1.wf()
    }
}

/// Pre-order identifiers of a sequence of debug trees, concatenated.
pub open spec fn pre_ids_seq(s: Seq<DebugTree>) -> Seq<int>
    decreases s,
{
    if s.len() == 0 {
        Seq::empty()
    } else {
        pre_ids_seq(s.drop_last()) + s.last().pre_ids()
    }
}

/// Pre-order identifiers of the values of debug object entries, concatenated.
pub open spec fn pre_ids_pairs(s: Seq<(String, DebugTree)>) -> Seq<int>
    decreases s,
{
    if s.len() == 0 {
        Seq::empty()
    } else {
        pre_ids_pairs(s.drop_last()) + s.last().1.pre_ids()
    }
}

pub broadcast proof fn lemma_shape_seq_push(s: Seq<ConfigTree>, x: ConfigTree)
    ensures
        #[trigger] shape_seq(s.push(x)) == shape_seq(s).push(x.shape()),
{
    assert(s.push(x).drop_last() =~= s);
    assert(s.push(x).last() == x);
}

pub broadcast proof fn lemma_shape_seq_debug_push(s: Seq<DebugTree>, x: DebugTree)
    ensures
        #[trigger] shape_seq_debug(s.push(x)) == shape_seq_debug(s).push(x.shape()),
{
    assert(s.push(x).drop_last() =~= s);
    assert(s.push(x).last() == x);
}

pub broadcast proof fn lemma_shape_pairs_push(s: Seq<(String, ConfigTree)>, k: String, v: ConfigTree)
    ensures
        #[trigger] shape_pairs(s.push((k, v))) == shape_pairs(s).insert(k@, v.shape()),
{
    assert(s.push((k, v)).drop_last() =~= s);
    assert(s.push((k, v)).last() == (k, v));
}

pub broadcast proof fn lemma_shape_pairs_debug_push(s: Seq<(String, DebugTree)>, k: String, v: DebugTree)
    ensures
        #[trigger] shape_pairs_debug(s.push((k, v))) == shape_pairs_debug(s).insert(k@, v.shape()),
{
    assert(s.push((k, v)).drop_last() =~= s);
    assert(s.push((k, v)).last() == (k, v));
}

pub broadcast proof fn lemma_wf_seq_push(s: Seq<ConfigTree>, x: ConfigTree)
    ensures
        #[trigger] wf_seq(s.push(x)) == (wf_seq(s) && x.wf()),
{
    assert(s.push(x).drop_last() =~= s);
    assert(s.push(x).last() == x);
}

pub broadcast proof fn lemma_wf_seq_debug_push(s: Seq<DebugTree>, x: DebugTree)
    ensures
        #[trigger] wf_seq_debug(s.push(x)) == (wf_seq_debug(s) && x.wf()),
{
    assert(s.push(x).drop_last() =~= s);
    assert(s.push(x).last() == x);
}

pub broadcast proof fn lemma_wf_pairs_push(s: Seq<(String, ConfigTree)>, k: String, v: ConfigTree)
    ensures
        #[trigger] wf_pairs(s.push((k, v))) == (wf_pairs(s) && v.wf()),
{
    assert(s.push((k, v)).drop_last() =~= s);
    assert(s.push((k, v)).last() == (k, v));
}

pub broadcast proof fn lemma_wf_pairs_debug_push(s: Seq<(String, DebugTree)>, k: String, v: DebugTree)
    ensures
        #[trigger] wf_pairs_debug(s.push((k, v))) == (wf_pairs_debug(s) && v.wf()),
{
    assert(s.push((k, v)).drop_last() =~= s);
    assert(s.push((k, v)).last() == (k, v));
}

/// Replacing one entry's value keeps the entries well-formed.
pub proof fn lemma_wf_pairs_update(s: Seq<(String, ConfigTree)>, i: int, k: String, v: ConfigTree)
    requires
        0 <= i < s.len(),
        wf_pairs(s),
        v.wf(),
    ensures
        wf_pairs(s.update(i, (k, v))),
    decreases s.len(),
{
    let t = s.update(i, (k, v));
    if i == s.len() - 1 {
        assert(t.drop_last() =~= s.drop_last());
        assert(t.last() == (k, v));
    } else {
        assert(t.drop_last() =~= s.drop_last().update(i, (k, v)));
        assert(t.last() == s.last());
        lemma_wf_pairs_update(s.drop_last(), i, k, v);
    }
}

pub proof fn lemma_wf_pairs_debug_update(s: Seq<(String, DebugTree)>, i: int, k: String, v: DebugTree)
    requires
        0 <= i < s.len(),
        wf_pairs_debug(s),
        v.wf(),
    ensures
        wf_pairs_debug(s.update(i, (k, v))),
    decreases s.len(),
{
    let t = s.update(i, (k, v));
    if i == s.len() - 1 {
        assert(t.drop_last() =~= s.drop_last());
        assert(t.last() == (k, v));
    } else {
        assert(t.drop_last() =~= s.drop_last().update(i, (k, v)));
        assert(t.last() == s.last());
        lemma_wf_pairs_debug_update(s.drop_last(), i, k, v);
    }
}

/// A key occurs in the shape map exactly when some entry carries it.
pub proof fn lemma_shape_pairs_dom(s: Seq<(String, ConfigTree)>, k: Seq<char>)
    ensures
        shape_pairs(s).contains_key(k) <==> exists|i: int| 0 <= i < s.len() && s[i].0@ == k,
    decreases s.len(),
{
    if s.len() > 0 {
        lemma_shape_pairs_dom(s.drop_last(), k);
        if s.last().0@ == k {
            assert(s[s.len() - 1].0@ == k);
        } else if shape_pairs(s).contains_key(k) {
            let i = choose|i: int| 0 <= i < s.drop_last().len() && s.drop_last()[i].0@ == k;
            assert(s[i].0@ == k);
        } else {
            assert forall|i: int| 0 <= i < s.len() implies s[i].0@ != k by {
                if i < s.len() - 1 {
                    assert(s.drop_last()[i] == s[i]);
                }
            }
        }
    }
}

pub proof fn lemma_shape_pairs_debug_dom(s: Seq<(String, DebugTree)>, k: Seq<char>)
    ensures
        shape_pairs_debug(s).contains_key(k) <==> exists|i: int| 0 <= i < s.len() && s[i].0@ == k,
    decreases s.len(),
{
    if s.len() > 0 {
        lemma_shape_pairs_debug_dom(s.drop_last(), k);
        if s.last().0@ == k {
            assert(s[s.len() - 1].0@ == k);
        } else if shape_pairs_debug(s).contains_key(k) {
            let i = choose|i: int| 0 <= i < s.drop_last().len() && s.drop_last()[i].0@ == k;
            assert(s[i].0@ == k);
        } else {
            assert forall|i: int| 0 <= i < s.len() implies s[i].0@ != k by {
                if i < s.len() - 1 {
                    assert(s.drop_last()[i] == s[i]);
                }
            }
        }
    }
}

/// Replacing the value of an existing key in place means the same as a map
/// insert, provided keys are unique.
pub proof fn lemma_shape_pairs_update(s: Seq<(String, ConfigTree)>, i: int, k: String, v: ConfigTree)
    requires
        0 <= i < s.len(),
        keys_unique(s),
        s[i].0@ == k@,
    ensures
        shape_pairs(s.update(i, (k, v))) == shape_pairs(s).insert(k@, v.shape()),
    decreases s.len(),
{
    let t = s.update(i, (k, v));
    if i == s.len() - 1 {
        assert(t.drop_last() =~= s.drop_last());
        assert(t.last() == (k, v));
        assert(shape_pairs(s.drop_last()).insert(k@, v.shape()) =~= shape_pairs(
            s.drop_last(),
        ).insert(s.last().0@, s.last().1.shape()).insert(k@, v.shape()));
    } else {
        assert(t.drop_last() =~= s.drop_last().update(i, (k, v)));
        assert(t.last() == s.last());
        assert(keys_unique(s.drop_last())) by {
            assert(forall|a: int, b: int|
                0 <= a < b < s.drop_last().len() ==> s.drop_last()[a] == s[a]
                    && s.drop_last()[b] == s[b]);
        }
        assert(s.drop_last()[i] == s[i]);
        lemma_shape_pairs_update(s.drop_last(), i, k, v);
        assert(k@ != s.last().0@);
        assert(shape_pairs(s.drop_last()).insert(k@, v.shape()).insert(
            s.last().0@,
            s.last().1.shape(),
        ) =~= shape_pairs(s.drop_last()).insert(s.last().0@, s.last().1.shape()).insert(
            k@,
            v.shape(),
        ));
    }
}

pub proof fn lemma_shape_pairs_debug_update(
    s: Seq<(String, DebugTree)>,
    i: int,
    k: String,
    v: DebugTree,
)
    requires
        0 <= i < s.len(),
        keys_unique(s),
        s[i].0@ == k@,
    ensures
        shape_pairs_debug(s.update(i, (k, v))) == shape_pairs_debug(s).insert(k@, v.shape()),
    decreases s.len(),
{
    let t = s.update(i, (k, v));
    if i == s.len() - 1 {
        assert(t.drop_last() =~= s.drop_last());
        assert(t.last() == (k, v));
        assert(shape_pairs_debug(s.drop_last()).insert(k@, v.shape()) =~= shape_pairs_debug(
            s.drop_last(),
        ).insert(s.last().0@, s.last().1.shape()).insert(k@, v.shape()));
    } else {
        assert(t.drop_last() =~= s.drop_last().update(i, (k, v)));
        assert(t.last() == s.last());
        assert(keys_unique(s.drop_last())) by {
            assert(forall|a: int, b: int|
                0 <= a < b < s.drop_last().len() ==> s.drop_last()[a] == s[a]
                    && s.drop_last()[b] == s[b]);
        }
        assert(s.drop_last()[i] == s[i]);
        lemma_shape_pairs_debug_update(s.drop_last(), i, k, v);
        assert(k@ != s.last().0@);
        assert(shape_pairs_debug(s.drop_last()).insert(k@, v.shape()).insert(
            s.last().0@,
            s.last().1.shape(),
        ) =~= shape_pairs_debug(s.drop_last()).insert(s.last().0@, s.last().1.shape()).insert(
            k@,
            v.shape(),
        ));
    }
}

/// Insert into object entries with last-write-wins meaning: an existing key
/// keeps its position and takes the new value, a new key is appended.
#[verifier::loop_isolation(false)]
pub fn object_insert(
    pairs: &mut Vec<(String, ConfigTree)>,
    key: String,
    value: ConfigTree,
) -> (existed: bool)
    requires
        keys_unique(old(pairs)@),
    ensures
        keys_unique(final(pairs)@),
        shape_pairs(final(pairs)@) == shape_pairs(old(pairs)@).insert(key@, value.shape()),
        existed == shape_pairs(old(pairs)@).contains_key(key@),
        !existed ==> final(pairs)@ == old(pairs)@.push((key, value)),
        (wf_pairs(old(pairs)@) && value.wf()) ==> wf_pairs(final(pairs)@),
{
    let ghost orig = pairs@;
    let mut i: usize = 0;
    while i < pairs.len()
        invariant
            0 <= i <= pairs@.len(),
            pairs@ == orig,
            keys_unique(orig),
            forall|j: int| 0 <= j < i ==> orig[j].0@ != key@,
        decreases pairs@.len() - i,
    {
        if pairs[i].0 == key {
            proof {
                lemma_shape_pairs_update(orig, i as int, key, value);
                lemma_shape_pairs_dom(orig, key@);
                if wf_pairs(orig) && value.wf() {
                    lemma_wf_pairs_update(orig, i as int, key, value);
                }
            }
            pairs.set(i, (key, value));
            assert(keys_unique(pairs@)) by {
                assert(forall|a: int|
                    0 <= a < pairs@.len() && a != i ==> pairs@[a] == orig[a]);
            }
            return true;
        }
        i += 1;
    }
    proof {
        lemma_shape_pairs_dom(orig, key@);
        lemma_shape_pairs_push(orig, key, value);
        lemma_wf_pairs_push(orig, key, value);
    }
    pairs.push((key, value));
    assert(keys_unique(pairs@)) by {
        assert(forall|a: int| 0 <= a < orig.len() ==> pairs@[a] == orig[a]);
        assert(pairs@.last() == (key, value));
    }
    false
}

/// Insert into debug object entries, as `object_insert` does.
#[verifier::loop_isolation(false)]
pub fn object_insert_debug(
    pairs: &mut Vec<(String, DebugTree)>,
    key: String,
    value: DebugTree,
) -> (existed: bool)
    requires
        keys_unique(old(pairs)@),
    ensures
        keys_unique(final(pairs)@),
        shape_pairs_debug(final(pairs)@) == shape_pairs_debug(old(pairs)@).insert(key@, value.shape()),
        existed == shape_pairs_debug(old(pairs)@).contains_key(key@),
        !existed ==> final(pairs)@ == old(pairs)@.push((key, value)),
        (wf_pairs_debug(old(pairs)@) && value.wf()) ==> wf_pairs_debug(final(pairs)@),
{
    let ghost orig = pairs@;
    let mut i: usize = 0;
    while i < pairs.len()
        invariant
            0 <= i <= pairs@.len(),
            pairs@ == orig,
            keys_unique(orig),
            forall|j: int| 0 <= j < i ==> orig[j].0@ != key@,
        decreases pairs@.len() - i,
    {
        if pairs[i].0 == key {
            proof {
                lemma_shape_pairs_debug_update(orig, i as int, key, value);
                lemma_shape_pairs_debug_dom(orig, key@);
                if wf_pairs_debug(orig) && value.wf() {
                    lemma_wf_pairs_debug_update(orig, i as int, key, value);
                }
            }
            pairs.set(i, (key, value));
            assert(keys_unique(pairs@)) by {
                assert(forall|a: int|
                    0 <= a < pairs@.len() && a != i ==> pairs@[a] == orig[a]);
            }
            return true;
        }
        i += 1;
    }
    proof {
        lemma_shape_pairs_debug_dom(orig, key@);
        lemma_shape_pairs_debug_push(orig, key, value);
        lemma_wf_pairs_debug_push(orig, key, value);
    }
    pairs.push((key, value));
    assert(keys_unique(pairs@)) by {
        assert(forall|a: int| 0 <= a < orig.len() ==> pairs@[a] == orig[a]);
        assert(pairs@.last() == (key, value));
    }
    false
}

impl ConfigTree {
    /// Rebuild the tree so that every object holds pairwise distinct keys,
    /// a later entry for a key overriding an earlier one (last write wins).
    /// The tree's mathematical value is unchanged, since an object's value
    /// is a map to begin with.
    #[verifier::loop_isolation(false)]
    pub fn normalize(&self) -> (r: ConfigTree)
        ensures
            r.wf(),
            r.shape() == self.shape(),
        decreases *self,
    {
        match self {
            ConfigTree::Null => ConfigTree::Null,
            ConfigTree::Bool(b) => ConfigTree::Bool(*b),
            ConfigTree::String(s) => ConfigTree::String(s.clone()),
            ConfigTree::Array(v) => {
                let mut out: Vec<ConfigTree> = Vec::new();
                let mut i: usize = 0;
                while i < v.len()
                    invariant
                        0 <= i <= v@.len(),
                        out@.len() == i,
                        shape_seq(out@) == shape_seq(v@.subrange(0, i as int)),
                        wf_seq(out@),
                    decreases v@.len() - i,
                {
                    let nx = v[i].normalize();
                    proof {
                        lemma_shape_seq_push(out@, nx);
                        lemma_shape_seq_push2(v@.subrange(0, i as int), v@[i as int]);
                        lemma_wf_seq_push(out@, nx);
                        assert(v@.subrange(0, i as int).push(v@[i as int]) =~= v@.subrange(
                            0,
                            i as int + 1,
                        ));
                    }
                    out.push(nx);
                    i += 1;
                }
                proof {
                    assert(v@.subrange(0, v@.len() as int) =~= v@);
                }
                ConfigTree::Array(out)
            },
            ConfigTree::Object(v) => {
                let mut out: Vec<(String, ConfigTree)> = Vec::new();
                let mut i: usize = 0;
                while i < v.len()
                    invariant
                        0 <= i <= v@.len(),
                        keys_unique(out@),
                        wf_pairs(out@),
                        shape_pairs(out@) == shape_pairs(v@.subrange(0, i as int)),
                    decreases v@.len() - i,
                {
                    let key = v[i].0.clone();
                    let nx = v[i].1.normalize();
                    proof {
                        lemma_shape_pairs_push2(v@.subrange(0, i as int), v@[i as int]);
                        assert(v@.subrange(0, i as int).push(v@[i as int]) =~= v@.subrange(
                            0,
                            i as int + 1,
                        ));
                        assert((v@[i as int].0, v@[i as int].1) == v@[i as int]);
                    }
                    let ghost pre = out@;
                    let existed = object_insert(&mut out, key, nx);
                    proof {
                        assert(wf_pairs(out@)) by {
                            if existed {
                            } else {
                                lemma_wf_pairs_push(pre, v@[i as int].0, nx);
                                assert(out@ == pre.push((v@[i as int].0, nx)));
                            }
                        }
                    }
                    i += 1;
                }
                proof {
                    assert(v@.subrange(0, v@.len() as int) =~= v@);
                }
                ConfigTree::Object(out)
            },
        }
    }
}

/// `lemma_shape_seq_push` under another name, for places where the
/// broadcast trigger does not fire.
pub proof fn lemma_shape_seq_push2(s: Seq<ConfigTree>, x: ConfigTree)
    ensures
        shape_seq(s.push(x)) == shape_seq(s).push(x.shape()),
{
    lemma_shape_seq_push(s, x);
}

pub proof fn lemma_shape_pairs_push2(s: Seq<(String, ConfigTree)>, p: (String, ConfigTree))
    ensures
        shape_pairs(s.push(p)) == shape_pairs(s).insert(p.0@, p.1.shape()),
{
    lemma_shape_pairs_push(s, p.0, p.1);
    assert(s.push((p.0, p.1)) =~= s.push(p));
}

impl DebugTree {
    /// Drop every node identifier, keeping the tree's shape.  Stripping a
    /// debug tree always yields a tree of the very same mathematical value:
    /// the round-trip shape guarantee between the two representations.
#[verifier::loop_isolation(false)]
    pub fn strip(&self) -> (r: ConfigTree)
        ensures
            r.shape() == self.shape(),
            self.wf() ==> r.wf(),
        decreases *self,
    {
        match self {
            DebugTree::Null { id } => ConfigTree::Null,
            DebugTree::Bool { id, value } => ConfigTree::Bool(*value),
            DebugTree::String { id, value } => ConfigTree::String(value.clone()),
            DebugTree::Array { id, value } => {
                let mut out: Vec<ConfigTree> = Vec::new();
                let mut i: usize = 0;
                while i < value.len()
                    invariant
                        0 <= i <= value@.len(),
                        shape_seq(out@) == shape_seq_debug(value@.subrange(0, i as int)),
                        out@.len() == i,
                        wf_seq_debug(value@.subrange(0, i as int)) ==> wf_seq(out@),
                    decreases value@.len() - i,
                {
                    let stripped = value[i].strip();
                    proof {
                        lemma_shape_seq_push(out@, stripped);
                        lemma_shape_seq_debug_push(
                            value@.subrange(0, i as int),
                            value@[i as int],
                        );
                        lemma_wf_seq_push(out@, stripped);
                        assert(value@.subrange(0, i as int).push(value@[i as int]) =~= value@
                            .subrange(0, i as int + 1));
                        assert(value@.subrange(0, i as int + 1).drop_last() =~= value@.subrange(
                            0,
                            i as int,
                        ));
                    }
                    out.push(stripped);
                    i += 1;
                }
                proof {
                    assert(value@.subrange(0, value@.len() as int) =~= value@);
                }
                ConfigTree::Array(out)
            },
            DebugTree::Object { id, value } => {
                let mut out: Vec<(String, ConfigTree)> = Vec::new();
                let mut i: usize = 0;
                while i < value.len()
                    invariant
                        0 <= i <= value@.len(),
                        shape_pairs(out@) == shape_pairs_debug(value@.subrange(0, i as int)),
                        out@.len() == i,
                        forall|j: int| 0 <= j < i ==> out@[j].0@ == value@[j].0@,
                        wf_pairs_debug(value@.subrange(0, i as int)) ==> wf_pairs(out@),
                    decreases value@.len() - i,
                {
                    let key = value[i].0.clone();
                    let stripped = value[i].1.strip();
                    proof {
                        lemma_shape_pairs_push(out@, key, stripped);
                        lemma_shape_pairs_debug_push(
                            value@.subrange(0, i as int),
                            value@[i as int].0,
                            value@[i as int].1,
                        );
                        lemma_wf_pairs_push(out@, key, stripped);
                        assert(value@.subrange(0, i as int).push(value@[i as int]) =~= value@
                            .subrange(0, i as int + 1));
                        assert(value@.subrange(0, i as int + 1).drop_last() =~= value@.subrange(
                            0,
                            i as int,
                        ));
                        assert((value@[i as int].0, value@[i as int].1) == value@[i as int]);
                    }
                    out.push((key, stripped));
                    i += 1;
                }
                proof {
                    assert(value@.subrange(0, value@.len() as int) =~= value@);
                    if self.wf() {
                        assert(keys_unique(out@)) by {
                            assert(forall|a: int, b: int|
                                0 <= a < b < out@.len() ==> out@[a].0@ == value@[a].0@ && out@[b].0@
                                    == value@[b].0@);
                        }
                    }
                }
                ConfigTree::Object(out)
            },
        }
    }
}


} // verus!
