//! Texture identity and the per-key texture cache: every texture identity is
//! uploaded to the device once and reused by all drawables that share it.
//! The cache never evicts.

use vstd::prelude::*;

verus! {

/// The identity a draw call is batched by: either no texture, or the
/// content-derived identity of one. Untextured draws sort before all
/// textured ones; textured draws sort by identity.
#[derive(Clone, Copy, Debug, PartialEq, Eq, Structural)]
pub enum RenderKey {
    Untextured,
    Textured(u64),
}

/// Strict total order on render keys.
pub open spec fn key_lt(a: RenderKey, b: RenderKey) -> bool {
    match (a, b) {
        (RenderKey::Untextured, RenderKey::Textured(_)) => true,
        (RenderKey::Textured(x), RenderKey::Textured(y)) => x < y,
        _ => false,
    }
}

/// Decides `key_lt` on concrete keys.
pub fn key_before(a: &RenderKey, b: &RenderKey) -> (r: bool)
    ensures
        r == key_lt(*a, *b),
{
    match (a, b) {
        (RenderKey::Untextured, RenderKey::Textured(_)) => true,
        (RenderKey::Textured(x), RenderKey::Textured(y)) => *x < *y,
        _ => false,
    }
}

/// No identity occurs twice.
pub open spec fn unique_ids(s: Seq<u64>) -> bool {
    forall|i: int, j: int| 0 <= i < j < s.len() ==> s[i] != s[j]
}

/// How often `x` occurs in `s`.
pub open spec fn count_of(s: Seq<u64>, x: u64) -> int
    decreases s.len(),
{
    if s.len() == 0 {
        0
    } else {
        count_of(s.drop_last(), x) + if s.last() == x {
            1int
        } else {
            0int
        }
    }
}

/// The cache contents after making sure every identity in `ids` is present:
/// identities already cached are left alone, new ones are appended in the
/// order of their first occurrence.
pub open spec fn ensure_all(cache: Seq<u64>, ids: Seq<u64>) -> Seq<u64>
    decreases ids.len(),
{
    if ids.len() == 0 {
        cache
    } else {
        let c = ensure_all(cache, ids.drop_last());
        if c.contains(ids.last()) {
            c
        } else {
            c.push(ids.last())
        }
    }
}

/// The per-key texture cache. Slot `i` of the cache stands for the `i`-th
/// texture resource ever allocated; an identity's slot never changes and is
/// never freed while the drawer lives.
#[derive(Clone, Debug)]
pub struct TextureCache {
    ids: Vec<u64>,
}

impl TextureCache {
    /// The sequence of cached identities, in first-upload order.
    pub closed spec fn view(self) -> Seq<u64> {
        self.ids@
    }

    /// Each identity is cached at most once.
    pub open spec fn wf(self) -> bool {
        unique_ids(self.view())
    }

    /// An empty cache.
    pub fn new() -> (c: TextureCache)
        ensures
            c.wf(),
            c.view() == Seq::<u64>::empty(),
    {
        let c = TextureCache { ids: Vec::new() };
        proof {
            assert(c.view() =~= Seq::<u64>::empty());
        }
        c
    }

    /// How many texture resources have been allocated.
    pub fn upload_count(&self) -> (n: usize)
        ensures
            n == self.view().len(),
    {
        self.ids.len()
    }

    /// The slot holding `id`, or `None` when `id` was never uploaded.
    pub fn find_slot(&self, id: u64) -> (r: Option<usize>)
        ensures
            match r {
                Some(i) => i < self.view().len() && self.view()[i as int] == id,
                None => !self.view().contains(id),
            },
    {
        let mut i: usize = 0;
        while i < self.ids.len()
            invariant
                i <= self.view().len(),
                forall|j: int| 0 <= j < i ==> self.view()[j] != id,
        decreases self.view().len() - i,
        {
            if self.ids[i] == id {
                return Some(i);
            }
            i = i + 1;
        }
        proof {
            assert(forall|j: int| 0 <= j < self.view().len() ==> self.view()[j] != id);
        }
        None
    }

    /// Makes sure every identity in `ids` has an uploaded texture, uploading
    /// each missing identity exactly once; cached entries are reused, never
    /// re-uploaded.
    pub fn ensure_uploaded(&mut self, ids: &Vec<u64>)
        requires
            old(self).wf(),
        ensures
            final(self).wf(),
            final(self).view() == ensure_all(old(self).view(), ids@),
    {
        let ghost orig = self.view();
        let mut i: usize = 0;
        while i < ids.len()
            invariant
                self.wf(),
                unique_ids(orig),
                i <= ids@.len(),
                self.view() == ensure_all(orig, ids@.take(i as int)),
            decreases ids@.len() - i,
        {
            let id = ids[i];
            let present = match self.find_slot(id) {
                Some(_) => true,
                None => false,
            };
            proof {
                assert(ids@.take(i + 1).drop_last() =~= ids@.take(i as int));
                assert(ids@.take(i + 1).last() == ids@[i as int]);
            }
            if !present {
                self.ids.push(id);
                proof {
                    lemma_ensure_all_unique(orig, ids@.take(i as int));
                    assert(unique_ids(self.view())) by {
                        let prev = ensure_all(orig, ids@.take(i as int));
                        assert(forall|j: int| 0 <= j < prev.len() ==> prev[j] != id);
                        assert(self.view() == prev.push(id));
                    }
                }
            }
            i = i + 1;
        }
        proof {
            assert(ids@.take(ids@.len() as int) =~= ids@);
        }
    }
}

/// `ensure_all` keeps identities unique.
pub proof fn lemma_ensure_all_unique(cache: Seq<u64>, ids: Seq<u64>)
    requires
        unique_ids(cache),
    ensures
        unique_ids(ensure_all(cache, ids)),
    decreases ids.len(),
{
    if ids.len() > 0 {
        lemma_ensure_all_unique(cache, ids.drop_last());
        let c = ensure_all(cache, ids.drop_last());
        if !c.contains(ids.last()) {
            assert(forall|j: int| 0 <= j < c.len() ==> c[j] != ids.last());
            assert(unique_ids(c.push(ids.last())));
        }
    }
}

/// An identity is cached afterwards exactly when it was cached before or
/// requested.
pub proof fn lemma_ensure_all_membership(cache: Seq<u64>, ids: Seq<u64>, x: u64)
    ensures
        ensure_all(cache, ids).contains(x) <==> (cache.contains(x) || ids.contains(x)),
    decreases ids.len(),
{
    if ids.len() > 0 {
        lemma_ensure_all_membership(cache, ids.drop_last(), x);
        let c = ensure_all(cache, ids.drop_last());
        assert(ids.contains(x) <==> (ids.drop_last().contains(x) || ids.last() == x)) by {
            if ids.contains(x) {
                let w = choose|w: int| 0 <= w < ids.len() && ids[w] == x;
                if w < ids.len() - 1 {
                    assert(ids.drop_last()[w] == x);
                }
            }
            if ids.drop_last().contains(x) {
                let w = choose|w: int| 0 <= w < ids.drop_last().len() && ids.drop_last()[w] == x;
                assert(ids[w] == x);
            }
        }
        if !c.contains(ids.last()) {
            assert(c.push(ids.last()).contains(x) <==> (c.contains(x) || ids.last() == x)) by {
                if c.contains(x) {
                    let w = choose|w: int| 0 <= w < c.len() && c[w] == x;
                    assert(c.push(ids.last())[w] == x);
                }
                if ids.last() == x {
                    assert(c.push(ids.last())[c.len() as int] == x);
                }
                if c.push(ids.last()).contains(x) {
                    let w = choose|w: int|
                        0 <= w < c.push(ids.last()).len() && c.push(ids.last())[w] == x;
                    if w < c.len() {
                        assert(c[w] == x);
                    }
                }
            }
        }
    }
}

/// In a duplicate-free sequence every present identity occurs exactly once.
pub proof fn lemma_unique_count(s: Seq<u64>, x: u64)
    requires
        unique_ids(s),
        s.contains(x),
    ensures
        count_of(s, x) == 1,
    decreases s.len(),
{
    if s.len() > 0 {
        assert(unique_ids(s.drop_last()));
        if s.last() == x {
            assert(!s.drop_last().contains(x)) by {
                if s.drop_last().contains(x) {
                    let w = choose|w: int|
                        0 <= w < s.drop_last().len() && s.drop_last()[w] == x;
                    assert(s[w] == x && s[s.len() - 1] == x);
                }
            }
            lemma_absent_count(s.drop_last(), x);
        } else {
            assert(s.drop_last().contains(x)) by {
                let w = choose|w: int| 0 <= w < s.len() && s[w] == x;
                assert(w < s.len() - 1);
                assert(s.drop_last()[w] == x);
            }
            lemma_unique_count(s.drop_last(), x);
        }
    }
}

/// An absent identity occurs zero times.
pub proof fn lemma_absent_count(s: Seq<u64>, x: u64)
    requires
        !s.contains(x),
    ensures
        count_of(s, x) == 0,
    decreases s.len(),
{
    if s.len() > 0 {
        assert(!s.drop_last().contains(x)) by {
            if s.drop_last().contains(x) {
                let w = choose|w: int| 0 <= w < s.drop_last().len() && s.drop_last()[w] == x;
                assert(s[w] == x);
            }
        }
        lemma_absent_count(s.drop_last(), x);
        assert(s.last() != x) by {
            if s.last() == x {
                assert(s[s.len() - 1] == x);
            }
        }
    }
}

/// Texture deduplication: after an upload pass that requested identity `id`
/// (however many drawables shared it), the cache holds exactly one resource
/// for `id`.
pub proof fn lemma_texture_dedup(cache: Seq<u64>, ids: Seq<u64>, id: u64)
    requires
        unique_ids(cache),
        ids.contains(id) || cache.contains(id),
    ensures
        count_of(ensure_all(cache, ids), id) == 1,
{
    lemma_ensure_all_unique(cache, ids);
    lemma_ensure_all_membership(cache, ids, id);
    lemma_unique_count(ensure_all(cache, ids), id);
}


/// When every requested identity is already cached, the pass changes
/// nothing.
pub proof fn lemma_ensure_all_absorb(cache: Seq<u64>, ids: Seq<u64>)
    requires
        forall|j: int| 0 <= j < ids.len() ==> cache.contains(#[trigger] ids[j]),
    ensures
        ensure_all(cache, ids) == cache,
    decreases ids.len(),
{
    if ids.len() > 0 {
        let prev = ids.drop_last();
        assert(forall|j: int| 0 <= j < prev.len() ==> prev[j] == ids[j]);
        lemma_ensure_all_absorb(cache, prev);
        assert(cache.contains(ids[ids.len() - 1]));
    }
}

/// A second upload pass with the same identities is a no-op: every identity
/// was cached by the first pass, so nothing is re-uploaded.
pub proof fn lemma_ensure_all_idempotent(cache: Seq<u64>, ids: Seq<u64>)
    ensures
        ensure_all(ensure_all(cache, ids), ids) == ensure_all(cache, ids),
{
    let once = ensure_all(cache, ids);
    assert forall|j: int| 0 <= j < ids.len() implies once.contains(#[trigger] ids[j]) by {
        lemma_ensure_all_membership(cache, ids, ids[j]);
        assert(ids.contains(ids[j]));
    }
    lemma_ensure_all_absorb(once, ids);
}

} // verus!
