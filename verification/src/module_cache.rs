use vstd::prelude::*;

use crate::scheduler_message::ModuleHash;

verus! {

/// The cache entries are in strictly increasing hash order (so each hash
/// appears at most once).
pub open spec fn cache_sorted<M>(c: Seq<(ModuleHash, M)>) -> bool {
    forall|i: int, j: int| 0 <= i < j < c.len() ==> c[i].0 < c[j].0
}

/// The hashes of the cache entries, in increasing order.
pub open spec fn cache_keys<M>(c: Seq<(ModuleHash, M)>) -> Seq<ModuleHash> {
    c.map_values(|e: (ModuleHash, M)| e.0)
}

/// Whether the cache holds an entry for `h`.
pub open spec fn cache_contains_hash<M>(c: Seq<(ModuleHash, M)>, h: ModuleHash) -> bool {
    exists|i: int| 0 <= i < c.len() && c[i].0 == h
}

/// The artifact cached under `h`, if any.
pub open spec fn cache_lookup<M>(c: Seq<(ModuleHash, M)>, h: ModuleHash) -> Option<M>
    decreases c.len(),
{
    if c.len() == 0 {
        None
    } else if c[0].0 == h {
        Some(c[0].1)
    } else {
        cache_lookup(c.drop_first(), h)
    }
}

/// Insertion into a hash-ordered cache: the new entry lands at its sorted
/// position; an entry with the same hash, if present, is replaced and no
/// other entry is touched.
pub open spec fn cache_insert<M>(
    c: Seq<(ModuleHash, M)>,
    hash: ModuleHash,
    module: M,
) -> Seq<(ModuleHash, M)>
    decreases c.len(),
{
    if c.len() == 0 {
        seq![(hash, module)]
    } else if hash < c[0].0 {
        seq![(hash, module)] + c
    } else if hash == c[0].0 {
        seq![(hash, module)] + c.drop_first()
    } else {
        seq![c[0]] + cache_insert(c.drop_first(), hash, module)
    }
}

/// Positional characterization of [`cache_insert`]: if `i` is the first
/// position whose hash is not below `hash`, the insertion is an update at
/// `i` (same hash already present) or an insertion at `i` (new hash).
proof fn lemma_cache_insert_at<M>(c: Seq<(ModuleHash, M)>, hash: ModuleHash, module: M, i: int)
    requires
        cache_sorted(c),
        0 <= i <= c.len(),
        forall|j: int| 0 <= j < i ==> c[j].0 < hash,
        i < c.len() ==> c[i].0 >= hash,
    ensures
        cache_insert(c, hash, module) == if i < c.len() && c[i].0 == hash {
            c.update(i, (hash, module))
        } else {
            c.insert(i, (hash, module))
        },
    decreases c.len(),
{
    if c.len() == 0 {
        assert(cache_insert(c, hash, module) =~= c.insert(0, (hash, module)));
    } else if i == 0 {
        if c[0].0 == hash {
            assert(cache_insert(c, hash, module) =~= c.update(0, (hash, module)));
        } else {
            assert(cache_insert(c, hash, module) =~= c.insert(0, (hash, module)));
        }
    } else {
        let d = c.drop_first();
        assert(forall|p: int, q: int| 0 <= p < q < d.len() ==> d[p].0 < d[q].0);
        assert(forall|j: int| 0 <= j < i - 1 ==> d[j].0 < hash);
        lemma_cache_insert_at(d, hash, module, i - 1);
        if i < c.len() && c[i].0 == hash {
            assert(seq![c[0]] + d.update(i - 1, (hash, module)) =~= c.update(i, (hash, module)));
        } else {
            assert(seq![c[0]] + d.insert(i - 1, (hash, module)) =~= c.insert(i, (hash, module)));
        }
    }
}

/// The first position in `c` whose hash is not below `hash`.
proof fn choose_insert_pos<M>(c: Seq<(ModuleHash, M)>, hash: ModuleHash) -> (i: int)
    requires
        cache_sorted(c),
    ensures
        0 <= i <= c.len(),
        forall|j: int| 0 <= j < i ==> c[j].0 < hash,
        i < c.len() ==> c[i].0 >= hash,
    decreases c.len(),
{
    if c.len() == 0 {
        0
    } else if c[0].0 >= hash {
        0
    } else {
        let d = c.drop_first();
        assert(forall|p: int, q: int| 0 <= p < q < d.len() ==> d[p].0 < d[q].0);
        let i = choose_insert_pos(d, hash) + 1;
        assert(forall|j: int| 1 <= j < i ==> c[j].0 == d[j - 1].0);
        i
    }
}

/// Law: the module cache only ever grows.  Inserting an entry keeps the
/// cache hash-ordered; afterwards the cache contains the inserted hash;
/// every hash it contained before is still contained; and every entry
/// under a different hash is still present unchanged — re-inserting a
/// hash removes nothing else.
pub proof fn lemma_cache_insert_monotonic<M>(c: Seq<(ModuleHash, M)>, hash: ModuleHash, module: M)
    requires
        cache_sorted(c),
    ensures
        cache_sorted(cache_insert(c, hash, module)),
        cache_contains_hash(cache_insert(c, hash, module), hash),
        forall|h: ModuleHash|
            cache_contains_hash(c, h) ==> cache_contains_hash(cache_insert(c, hash, module), h),
        forall|i: int|
            0 <= i < c.len() && c[i].0 != hash ==> exists|j: int|
                0 <= j < cache_insert(c, hash, module).len() && cache_insert(
                    c,
                    hash,
                    module,
                )[j] == c[i],
        cache_lookup(cache_insert(c, hash, module), hash) == Some(module),
{
    let i = choose_insert_pos(c, hash);
    lemma_cache_insert_at(c, hash, module, i);
    let c2 = cache_insert(c, hash, module);
    if i < c.len() && c[i].0 == hash {
        assert(c2 == c.update(i, (hash, module)));
        assert(c2[i].0 == hash);
        assert forall|k: int| 0 <= k < c.len() && c[k].0 != hash implies exists|j: int|
            0 <= j < c2.len() && c2[j] == c[k] by {
            assert(c2[k] == c[k]);
        }
        lemma_cache_lookup_at(c2, i);
    } else {
        assert(c2 == c.insert(i, (hash, module)));
        assert(c2[i].0 == hash);
        assert forall|p: int, q: int| 0 <= p < q < c2.len() implies c2[p].0 < c2[q].0 by {
            if q < i {
                assert(c2[p] == c[p] && c2[q] == c[q]);
            } else if p > i {
                assert(c2[p] == c[p - 1] && c2[q] == c[q - 1]);
            } else if p < i && q == i {
                assert(c2[p] == c[p] && c[p].0 < hash);
            } else if p < i && q > i {
                assert(c2[p] == c[p] && c2[q] == c[q - 1] && c[p].0 < hash <= c[q - 1].0);
            } else if p == i && q > i {
                assert(c2[q] == c[q - 1] && c[q - 1].0 >= hash && c[q - 1].0 != hash);
            }
        }
        assert forall|k: int| 0 <= k < c.len() && c[k].0 != hash implies exists|j: int|
            0 <= j < c2.len() && c2[j] == c[k] by {
            if k < i {
                assert(c2[k] == c[k]);
            } else {
                assert(c2[k + 1] == c[k]);
            }
        }
        assert forall|h: ModuleHash| cache_contains_hash(c, h) implies cache_contains_hash(
            c2,
            h,
        ) by {
            let k = choose|k: int| 0 <= k < c.len() && c[k].0 == h;
            if k < i {
                assert(c2[k] == c[k]);
            } else {
                assert(c2[k + 1] == c[k]);
            }
        }
        lemma_cache_lookup_at(c2, i);
    }
}

/// In a hash-ordered cache, looking up the hash of the entry at index `i`
/// yields exactly that entry's artifact.
pub proof fn lemma_cache_lookup_at<M>(c: Seq<(ModuleHash, M)>, i: int)
    requires
        cache_sorted(c),
        0 <= i < c.len(),
    ensures
        cache_lookup(c, c[i].0) == Some(c[i].1),
    decreases c.len(),
{
    if i > 0 {
        let d = c.drop_first();
        assert(forall|p: int, q: int| 0 <= p < q < d.len() ==> d[p].0 < d[q].0);
        assert(c[0].0 < c[i].0);
        lemma_cache_lookup_at(d, i - 1);
    }
}

/// A hash under which no entry stands looks up to nothing.
pub proof fn lemma_cache_lookup_absent<M>(c: Seq<(ModuleHash, M)>, h: ModuleHash)
    requires
        forall|j: int| 0 <= j < c.len() ==> c[j].0 != h,
    ensures
        cache_lookup(c, h) is None,
    decreases c.len(),
{
    if c.len() > 0 {
        let d = c.drop_first();
        assert(forall|j: int| 0 <= j < d.len() ==> d[j].0 != h);
        lemma_cache_lookup_absent(d, h);
    }
}

/// Insert `(hash, module)` into the hash-ordered cache, replacing the
/// entry under the same hash if one exists.
pub fn insert_module<M>(cache: &mut Vec<(ModuleHash, M)>, hash: ModuleHash, module: M)
    requires
        cache_sorted(old(cache)@),
    ensures
        final(cache)@ == cache_insert(old(cache)@, hash, module),
        cache_sorted(final(cache)@),
{
    let n = cache.len();
    let mut ix: usize = 0;
    while ix < n && cache[ix].0 < hash
        invariant
            n == cache@.len(),
            0 <= ix <= n,
            forall|j: int| 0 <= j < ix ==> cache@[j].0 < hash,
            *cache == *old(cache),
        decreases n - ix,
    {
        ix += 1;
    }
    proof {
        lemma_cache_insert_at(cache@, hash, module, ix as int);
    }
    if ix < n && cache[ix].0 == hash {
        cache.remove(ix);
        cache.insert(ix, (hash, module));
        proof {
            assert(cache@ =~= old(cache)@.update(ix as int, (hash, module)));
        }
    } else {
        cache.insert(ix, (hash, module));
    }
    proof {
        lemma_cache_insert_monotonic(old(cache)@, hash, module);
    }
}

/// List the hashes of all cached modules, in increasing hash order.
pub fn cache_key_list<M>(cache: &Vec<(ModuleHash, M)>) -> (r: Vec<ModuleHash>)
    ensures
        r@ == cache_keys(cache@),
{
    let n = cache.len();
    let mut r: Vec<ModuleHash> = Vec::new();
    let mut i: usize = 0;
    while i < n
        invariant
            n == cache@.len(),
            0 <= i <= n,
            r@.len() == i,
            forall|j: int| 0 <= j < i ==> r@[j] == cache@[j].0,
        decreases n - i,
    {
        let h = cache[i].0;
        r.push(h);
        i += 1;
    }
    proof {
        assert(r@ =~= cache_keys(cache@));
    }
    r
}

} // verus!
