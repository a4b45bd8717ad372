//! The allow-list: individual files, and directories whose whole subtree may
//! be served. Both hold canonical absolute paths under a fixed root.
use vstd::prelude::*;
use vstd::string::*;

use chashmap::CHashMap;
use radix_trie::Trie;
use radix_trie::TrieCommon;

use crate::path::{is_prefix, is_segment_ancestor, join, join_exec, normalize, normalize_exec, views, is_ancestor_path};

verus! {

#[verifier::external_type_specification]
#[verifier::external_body]
#[verifier::reject_recursive_types(K)]
#[verifier::reject_recursive_types(V)]
pub struct ExCHashMap<K, V>(CHashMap<K, V>);

#[verifier::external_type_specification]
#[verifier::external_body]
#[verifier::reject_recursive_types(K)]
#[verifier::reject_recursive_types(V)]
pub struct ExTrie<K, V>(Trie<K, V>);

/// The keys held by a concurrent hash map of paths.
pub uninterp spec fn exact_keys(m: CHashMap<String, ()>) -> Set<Seq<char>>;

/// The keys held by a radix trie of paths.
pub uninterp spec fn trie_keys(t: Trie<String, ()>) -> Set<Seq<char>>;

/// Relies on chashmap::CHashMap::new: a new map holds no key.
#[verifier::external_body]
fn exact_new() -> (m: CHashMap<String, ()>)
    ensures
        exact_keys(m) == Set::<Seq<char>>::empty(),
{
    CHashMap::new()
}

/// Relies on chashmap::CHashMap::insert: the key is present afterwards and
/// no other key comes or goes.
#[verifier::external_body]
fn exact_insert(m: &mut CHashMap<String, ()>, k: String)
    ensures
        exact_keys(*final(m)) == exact_keys(*old(m)).insert(k@),
{
    m.insert(k, ());
}

/// Relies on chashmap::CHashMap::contains_key: whether the key is present.
#[verifier::external_body]
fn exact_contains(m: &CHashMap<String, ()>, k: &str) -> (r: bool)
    ensures
        r == exact_keys(*m).contains(k@),
{
    m.contains_key(k)
}

/// Relies on radix_trie::Trie::new: a new trie holds no key.
#[verifier::external_body]
fn trie_new() -> (t: Trie<String, ()>)
    ensures
        trie_keys(t) == Set::<Seq<char>>::empty(),
{
    Trie::new()
}

/// Relies on radix_trie::Trie::insert: the key is present afterwards and no
/// other key comes or goes.
#[verifier::external_body]
fn trie_insert(t: &mut Trie<String, ()>, k: String)
    ensures
        trie_keys(*final(t)) == trie_keys(*old(t)).insert(k@),
{
    t.insert(k, ());
}

/// Relies on radix_trie::Trie::get_ancestor and SubTrie::key: the stored key
/// that is the longest prefix of `q`, if any key is a prefix of it. The trie
/// compares UTF-8 bytes; on strings a byte prefix is a character prefix.
#[verifier::external_body]
fn trie_longest_prefix(t: &Trie<String, ()>, q: &str) -> (r: Option<String>)
    ensures
        r.is_none() <==> (forall|d: Seq<char>| trie_keys(*t).contains(d) ==> !is_prefix(d, q@)),
        r matches Some(k) ==> {
            &&& trie_keys(*t).contains(k@)
            &&& is_prefix(k@, q@)
            &&& forall|d: Seq<char>|
                trie_keys(*t).contains(d) && is_prefix(d, q@) ==> d.len() <= k@.len()
        },
{
    t.get_ancestor(q).and_then(|sub| sub.key().cloned())
}

pub struct AllowList {
    root: String,
    exact: CHashMap<String, ()>,
    prefixes: Trie<String, ()>,
}

/// The directories `dirs` joined against `root`.
pub open spec fn joined_set(root: Seq<char>, dirs: Seq<Seq<char>>) -> Set<Seq<char>> {
    Set::new(|p: Seq<char>| exists|i: int| 0 <= i < dirs.len() && p == join(root, #[trigger] dirs[i]))
}

impl AllowList {
    /// The canonical root that entries are joined against.
    pub closed spec fn root_view(&self) -> Seq<char> {
        self.root@
    }

    /// The files allowed one by one.
    pub closed spec fn exact_set(&self) -> Set<Seq<char>> {
        exact_keys(self.exact)
    }

    /// The directories whose subtrees are allowed.
    pub closed spec fn prefix_set(&self) -> Set<Seq<char>> {
        trie_keys(self.prefixes)
    }

    pub open spec fn under_prefix(&self, p: Seq<char>) -> bool {
        exists|d: Seq<char>| self.prefix_set().contains(d) && is_segment_ancestor(d, p)
    }

    /// A canonical path may be served.
    pub open spec fn allows(&self, p: Seq<char>) -> bool {
        self.exact_set().contains(p) || self.under_prefix(p)
    }

    /// A path as handed over by the resolver may be served: it is absolute,
    /// and its canonical form is allowed.
    pub open spec fn permits(&self, p: Seq<char>) -> bool {
        p.len() > 0 && p[0] == '/' && self.allows(normalize(p))
    }

    /// An allow-list under `root` with no file and the directories `dirs`,
    /// each taken relative to `root`.
    pub fn new(root: &str, dirs: &Vec<String>) -> (r: AllowList)
        ensures
            r.root_view() == normalize(root@),
            r.exact_set() == Set::<Seq<char>>::empty(),
            r.prefix_set() == joined_set(normalize(root@), views(dirs@)),
    {
        let root = normalize_exec(root);
        let mut prefixes = trie_new();
        let mut i: usize = 0;
        while i < dirs.len()
            invariant
                i <= dirs@.len(),
                trie_keys(prefixes) == joined_set(root@, views(dirs@.subrange(0, i as int))),
            decreases dirs.len() - i,
        {
            let p = join_exec(root.as_str(), dirs[i].as_str());
            trie_insert(&mut prefixes, p);
            proof {
                let before = views(dirs@.subrange(0, i as int));
                let after = views(dirs@.subrange(0, i + 1));
                assert(after =~= before.push(dirs@[i as int]@));
                assert(joined_set(root@, after) =~= joined_set(root@, before).insert(p@)) by {
                    assert(after[i as int] == dirs@[i as int]@);
                    assert forall|x: Seq<char>| joined_set(root@, before).contains(x) implies
                        joined_set(root@, after).contains(x) by {
                        let j = choose|j: int| 0 <= j < before.len() && x == join(root@, #[trigger] before[j]);
                        assert(after[j] == before[j]);
                    }
                    assert forall|x: Seq<char>| joined_set(root@, after).contains(x) implies
                        joined_set(root@, before).insert(p@).contains(x) by {
                        let j = choose|j: int| 0 <= j < after.len() && x == join(root@, #[trigger] after[j]);
                        if j < i {
                            assert(after[j] == before[j]);
                        }
                    }
                }
            }
            i = i + 1;
        }
        assert(dirs@.subrange(0, dirs.len() as int) =~= dirs@);
        AllowList { root, exact: exact_new(), prefixes }
    }

    /// Allows the file `item`, taken relative to the root.
    pub fn insert_exact(&mut self, item: &str)
        ensures
            final(self).root_view() == old(self).root_view(),
            final(self).prefix_set() == old(self).prefix_set(),
            final(self).exact_set() == old(self).exact_set().insert(join(old(self).root_view(), item@)),
    {
        let p = join_exec(self.root.as_str(), item);
        exact_insert(&mut self.exact, p);
    }

    /// Allows the directory `item`, taken relative to the root, with all
    /// that lies below it.
    pub fn insert_prefix(&mut self, item: &str)
        ensures
            final(self).root_view() == old(self).root_view(),
            final(self).exact_set() == old(self).exact_set(),
            final(self).prefix_set() == old(self).prefix_set().insert(join(old(self).root_view(), item@)),
    {
        let p = join_exec(self.root.as_str(), item);
        trie_insert(&mut self.prefixes, p);
    }

    /// Whether `p` is one of the files allowed one by one.
    pub fn contains_exact(&self, p: &str) -> (r: bool)
        ensures
            r == self.exact_set().contains(p@),
    {
        exact_contains(&self.exact, p)
    }

    /// Whether some allowed directory is `p` or lies above it.
    pub fn has_ancestor_prefix(&self, p: &str) -> (r: bool)
        ensures
            r == self.under_prefix(p@),
    {
        let n = p.unicode_len();
        let mut m: usize = n;
        let mut q: &str = p.substring_char(0, n);
        loop
            invariant
                n == p@.len(),
                m <= n,
                q@ == p@.subrange(0, m as int),
                forall|d: Seq<char>|
                    self.prefix_set().contains(d) && is_segment_ancestor(d, p@) ==> d.len() <= m,
            decreases m,
        {
            let found = trie_longest_prefix(&self.prefixes, q);
            proof {
                assert forall|d: Seq<char>|
                    self.prefix_set().contains(d) && is_segment_ancestor(d, p@) implies is_prefix(d, q@) by {
                    assert(q@.subrange(0, d.len() as int) =~= p@.subrange(0, d.len() as int));
                }
            }
            match found {
                None => {
                    return false;
                },
                Some(k) => {
                    if is_ancestor_path(k.as_str(), p) {
                        return true;
                    }
                    let kn = k.unicode_len();
                    proof {
                        assert(is_prefix(k@, p@)) by {
                            assert(p@.subrange(0, k@.len() as int) =~= q@.subrange(0, k@.len() as int));
                        }
                        assert forall|d: Seq<char>|
                            self.prefix_set().contains(d) && is_segment_ancestor(d, p@) implies d.len() < kn by {
                            if d.len() == kn {
                                assert(d =~= k@);
                            }
                        }
                    }
                    if kn == 0 {
                        return false;
                    }
                    m = kn - 1;
                    q = p.substring_char(0, m);
                },
            }
        }
    }

    /// Whether a path handed over by the resolver may be served.
    pub fn is_allowed(&self, p: &str) -> (r: bool)
        ensures
            r == self.permits(p@),
    {
        if p.unicode_len() == 0 || p.get_char(0) != '/' {
            return false;
        }
        let c = normalize_exec(p);
        self.contains_exact(c.as_str()) || self.has_ancestor_prefix(c.as_str())
    }
}

} // verus!
