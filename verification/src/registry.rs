//! A store of parsed documents, keyed by a logical name, filled by probing
//! the formats in a fixed order.

use vstd::prelude::*;

use crate::adapters::json_ok;
use crate::adapters::json_tree_of;
use crate::adapters::toml_ok;
use crate::adapters::toml_tree_of;
use crate::adapters::yaml_accepts;
use crate::adapters::yaml_doc_tree;
use crate::document::Config;
use crate::document::Error;
use crate::plist_spec::spec_plist;
use crate::tree::keys_unique;

verus! {

broadcast use vstd::std_specs::vec::group_vec_axioms, vstd::seq::group_seq_axioms;

/// Storage for parsed documents, keyed by a logical name.
pub struct Registry {
    themes: Vec<(String, Config)>,
}

/// Map built from the stored entries in order, a later entry for a name
/// overriding an earlier one.
pub open spec fn themes_map(s: Seq<(String, Config)>) -> Map<Seq<char>, Config>
    decreases s,
{
    if s.len() == 0 {
        Map::empty()
    } else {
        themes_map(s.drop_last()).insert(s.last().0@, s.last().1)
    }
}

proof fn lemma_themes_map_push(s: Seq<(String, Config)>, k: String, v: Config)
    ensures
        themes_map(s.push((k, v))) == themes_map(s).insert(k@, v),
{
    assert(s.push((k, v)).drop_last() =~= s);
    assert(s.push((k, v)).last() == (k, v));
}

proof fn lemma_themes_map_dom(s: Seq<(String, Config)>, k: Seq<char>)
    ensures
        themes_map(s).contains_key(k) <==> exists|i: int| 0 <= i < s.len() && s[i].0@ == k,
    decreases s.len(),
{
    if s.len() > 0 {
        lemma_themes_map_dom(s.drop_last(), k);
        if s.last().0@ == k {
            assert(s[s.len() - 1].0@ == k);
        } else if themes_map(s).contains_key(k) {
            let i = choose|i: int| 0 <= i < s.drop_last().len() && s.drop_last()[i].0@ == k;
            assert(s[i].0@ == k);
        } else {
            assert forall|i: int| 0 <= i < s.len() implies s[i].0@ != k by {
                if i < s.len() - 1 {
                    assert(s.drop_last()[i] == s[i]);
                }
            }
        }
    }
}

proof fn lemma_themes_map_update(s: Seq<(String, Config)>, i: int, k: String, v: Config)
    requires
        0 <= i < s.len(),
        keys_unique(s),
        s[i].0@ == k@,
    ensures
        themes_map(s.update(i, (k, v))) == themes_map(s).insert(k@, v),
    decreases s.len(),
{
    let t = s.update(i, (k, v));
    if i == s.len() - 1 {
        assert(t.drop_last() =~= s.drop_last());
        assert(t.last() == (k, v));
        assert(themes_map(s.drop_last()).insert(k@, v) =~= themes_map(s.drop_last()).insert(
            s.last().0@,
            s.last().1,
        ).insert(k@, v));
    } else {
        assert(t.drop_last() =~= s.drop_last().update(i, (k, v)));
        assert(t.last() == s.last());
        assert(keys_unique(s.drop_last())) by {
            assert(forall|a: int, b: int|
                0 <= a < b < s.drop_last().len() ==> s.drop_last()[a] == s[a] && s.drop_last()[b]
                    == s[b]);
        }
        assert(s.drop_last()[i] == s[i]);
        lemma_themes_map_update(s.drop_last(), i, k, v);
        assert(k@ != s.last().0@);
        assert(themes_map(s.drop_last()).insert(k@, v).insert(s.last().0@, s.last().1)
            =~= themes_map(s.drop_last()).insert(s.last().0@, s.last().1).insert(k@, v));
    }
}

/// The catalog holds, under this name, a non-debug document whose tree has
/// the given shape.
pub open spec fn stored_shape_is(
    catalog: Map<Seq<char>, Config>,
    name: Seq<char>,
    sh: crate::tree::TreeShape,
) -> bool {
    &&& catalog.contains_key(name)
    &&& catalog[name] matches Config::NonDebug { tree, file_name } && tree.shape() == sh
}

impl Registry {
    /// Stored names are pairwise distinct.
    #[verifier::type_invariant]
    spec fn inv(self) -> bool {
        keys_unique(self.themes@)
    }

    /// The stored documents, by name.
    pub closed spec fn catalog(self) -> Map<Seq<char>, Config> {
        themes_map(self.themes@)
    }

    /// Create a new registry, containing no documents.
    pub fn new() -> (r: Registry)
        ensures
            r.catalog() == Map::<Seq<char>, Config>::empty(),
    {
        let r = Registry { themes: Vec::new() };
        proof {
            assert(r.catalog() =~= Map::<Seq<char>, Config>::empty());
        }
        r
    }

    /// Parse a new document and store it under the given name, replacing
    /// what the name held before.  The formats are probed in a fixed order:
    /// plist, then JSON through the fast path, then TOML, then YAML; the
    /// first parser that accepts the input wins, and the stored tree has
    /// that parser's shape.  When every parser refuses the input, the
    /// registry is unchanged and the YAML failure, the last one, is
    /// reported.
    pub fn add(&mut self, name: &str, input: &str) -> (r: Result<(), Error>)
        ensures
            match r {
                Ok(()) => exists|cfg: Config|
                    {
                        &&& #[trigger] cfg.wf()
                        &&& cfg.spec_file_name() == name@
                        &&& final(self).catalog() == old(self).catalog().insert(name@, cfg)
                    },
                Err(e) => {
                    &&& spec_plist(input@) is Err
                    &&& !json_ok(input@)
                    &&& !toml_ok(input@)
                    &&& !yaml_accepts(input@)
                    &&& final(self).catalog() == old(self).catalog()
                    &&& e matches Error::YAMLError { err, file_name: fname }
                    &&& fname@ == name@
                },
            },
            (spec_plist(input@) is Ok || json_ok(input@) || toml_ok(input@) || yaml_accepts(
                input@,
            )) ==> r is Ok,
            spec_plist(input@) matches Ok(sh) ==> stored_shape_is(
                final(self).catalog(),
                name@,
                sh,
            ),
            (spec_plist(input@) is Err && json_ok(input@)) ==> stored_shape_is(
                final(self).catalog(),
                name@,
                json_tree_of(input@),
            ),
            (spec_plist(input@) is Err && !json_ok(input@) && toml_ok(input@)) ==> stored_shape_is(
                final(self).catalog(),
                name@,
                toml_tree_of(input@),
            ),
            (spec_plist(input@) is Err && !json_ok(input@) && !toml_ok(input@) && yaml_accepts(
                input@,
            )) ==> stored_shape_is(final(self).catalog(), name@, yaml_doc_tree(input@, 0)),
    {
        let cfg = match Config::from_plist(name, input) {
            Ok(c) => c,
            Err(_) => match Config::from_json(name, input) {
                Ok(c) => c,
                Err(_) => match Config::from_toml(name, input) {
                    Ok(c) => c,
                    Err(_) => match Config::from_yaml(name, input) {
                        Ok(c) => c,
                        Err(e) => {
                            return Err(e);
                        },
                    },
                },
            },
        };
        let ghost gcfg = cfg;
        self.put(name, cfg);
        proof {
            assert(gcfg.wf() && gcfg.spec_file_name() == name@ && self.catalog() == old(
                self,
            ).catalog().insert(name@, gcfg));
        }
        Ok(())
    }

    /// Store a document under a name, replacing what the name held before.
    fn put(&mut self, name: &str, cfg: Config)
        ensures
            final(self).catalog() == old(self).catalog().insert(name@, cfg),
    {
        proof {
            use_type_invariant(&*self);
        }
        let ghost orig = self.themes@;
        let mut themes: Vec<(String, Config)> = Vec::new();
        core::mem::swap(&mut self.themes, &mut themes);
        let key = name.to_owned();
        let mut found = false;
        let mut i: usize = 0;
        while i < themes.len() && !found
            invariant
                0 <= i <= themes@.len(),
                themes@ == orig,
                keys_unique(orig),
                key@ == name@,
                forall|j: int| 0 <= j < i ==> orig[j].0@ != name@,
                found ==> i < orig.len() && orig[i as int].0@ == name@,
            decreases themes@.len() - i + (if found {
                0int
            } else {
                1int
            }),
        {
            if themes[i].0 == key {
                found = true;
            } else {
                i += 1;
            }
        }
        if found {
            proof {
                lemma_themes_map_update(orig, i as int, key, cfg);
            }
            themes.set(i, (key, cfg));
            proof {
                assert(keys_unique(themes@)) by {
                    assert(forall|a: int|
                        0 <= a < themes@.len() && a != i ==> themes@[a] == orig[a]);
                }
            }
        } else {
            proof {
                lemma_themes_map_push(orig, key, cfg);
            }
            themes.push((key, cfg));
            assert(keys_unique(themes@)) by {
                assert(forall|a: int| 0 <= a < orig.len() ==> themes@[a] == orig[a]);
                assert(themes@.last() == (key, cfg));
            }
        }
        core::mem::swap(&mut self.themes, &mut themes);
    }

    /// Look up the document stored under a name.
    pub fn get(&self, name: &str) -> (r: Option<&Config>)
        ensures
            match r {
                Some(cfg) => self.catalog().contains_key(name@) && *cfg == self.catalog()[name@],
                None => !self.catalog().contains_key(name@),
            },
    {
        proof {
            use_type_invariant(self);
        }
        let ghost s = self.themes@;
        let key = name.to_owned();
        let mut i: usize = 0;
        while i < self.themes.len()
            invariant
                0 <= i <= s.len(),
                self.themes@ == s,
                keys_unique(s),
                key@ == name@,
                forall|j: int| 0 <= j < i ==> s[j].0@ != name@,
            decreases s.len() - i,
        {
            if self.themes[i].0 == key {
                proof {
                    lemma_themes_map_dom(s, name@);
                    lemma_themes_map_at(s, i as int);
                }
                return Some(&self.themes[i].1);
            }
            i += 1;
        }
        proof {
            lemma_themes_map_dom(s, name@);
        }
        None
    }
}

/// With unique names, the map holds each entry's own document.
proof fn lemma_themes_map_at(s: Seq<(String, Config)>, i: int)
    requires
        0 <= i < s.len(),
        keys_unique(s),
    ensures
        themes_map(s).contains_key(s[i].0@),
        themes_map(s)[s[i].0@] == s[i].1,
    decreases s.len(),
{
    if i == s.len() - 1 {
    } else {
        assert(keys_unique(s.drop_last())) by {
            assert(forall|a: int, b: int|
                0 <= a < b < s.drop_last().len() ==> s.drop_last()[a] == s[a] && s.drop_last()[b]
                    == s[b]);
        }
        assert(s.drop_last()[i] == s[i]);
        lemma_themes_map_at(s.drop_last(), i);
        assert(s[i].0@ != s.last().0@);
    }
}

impl Default for Registry {
    /// The same empty registry that `new` creates.
    fn default() -> (r: Registry)
        ensures
            r.catalog() == Map::<Seq<char>, Config>::empty(),
    {
        Registry::new()
    }
}

} // verus!
