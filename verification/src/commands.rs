//! Draw-command generation: drawables are digested into per-mesh draw items,
//! grouped by render key in ascending key order (so descriptor-set binding
//! for a texture stays batched and rebuilds are deterministic), and recorded
//! as a command list.

use crate::geometry::{drawable_key, index_offset, key_of, meshes_of, Drawable};
use crate::texture::{key_lt, RenderKey};
use crate::uniform::Mat4;
use vstd::prelude::*;

verus! {

/// What command recording needs to know of one drawable: its key, where its
/// indices landed in the merged index buffer, how many there are, and
/// whether it is rendered at all.
#[derive(Clone, Copy, Debug, PartialEq)]
pub struct DrawItem {
    pub key: RenderKey,
    pub model: Mat4,
    pub first_index: u32,
    pub index_count: u32,
    pub rendered: bool,
}

/// The draw item of drawable `i`.
pub open spec fn spec_item(ds: Seq<Drawable>, i: int) -> DrawItem {
    DrawItem {
        key: drawable_key(ds[i]),
        model: ds[i].model,
        first_index: index_offset(meshes_of(ds), i) as u32,
        index_count: ds[i].mesh.indices@.len() as u32,
        rendered: ds[i].mesh.rendered,
    }
}

/// The draw items of a drawable list, in list order.
pub open spec fn spec_items(ds: Seq<Drawable>) -> Seq<DrawItem> {
    Seq::new(ds.len(), |i: int| spec_item(ds, i))
}

/// Digests a drawable list into draw items, accumulating each drawable's
/// first-index position in the merged index buffer.
pub fn build_items(ds: &Vec<Drawable>) -> (items: Vec<DrawItem>)
    requires
        index_offset(meshes_of(ds@), ds@.len() as int) <= u32::MAX,
    ensures
        items@ == spec_items(ds@),
{
    let ghost ms = meshes_of(ds@);
    let mut items: Vec<DrawItem> = Vec::new();
    let mut first: u32 = 0;
    let mut i: usize = 0;
    while i < ds.len()
        invariant
            ms == meshes_of(ds@),
            index_offset(ms, ds@.len() as int) <= u32::MAX,
            i <= ds@.len(),
            first == index_offset(ms, i as int),
            items@.len() == i,
            forall|j: int| 0 <= j < i ==> items@[j] == spec_item(ds@, j),
        decreases ds@.len() - i,
    {
        proof {
            crate::geometry::lemma_index_offset_mono(ms, i + 1, ds@.len() as int);
            assert(ms[i as int] == ds@[i as int].mesh);
            assert(index_offset(ms, i + 1) == index_offset(ms, i as int)
                + ds@[i as int].mesh.indices@.len());
        }
        let count_usize = ds[i].mesh.indices.len();
        let count: u32 = count_usize as u32;
        let it = DrawItem {
            key: key_of(&ds[i]),
            model: ds[i].model,
            first_index: first,
            index_count: count,
            rendered: ds[i].mesh.rendered,
        };
        items.push(it);
        first = first + count;
        i = i + 1;
    }
    proof {
        assert(items@ =~= spec_items(ds@));
    }
    items
}

/// Inserts `k` into the strictly ascending key list `ks`, keeping it sorted;
/// a key already present is left alone.
pub open spec fn insert_key(ks: Seq<RenderKey>, k: RenderKey) -> Seq<RenderKey>
    decreases ks.len(),
{
    if ks.len() == 0 {
        seq![k]
    } else if k == ks[0] {
        ks
    } else if key_lt(k, ks[0]) {
        seq![k] + ks
    } else {
        seq![ks[0]] + insert_key(ks.drop_first(), k)
    }
}

/// The distinct keys of the items, in ascending key order.
pub open spec fn sorted_distinct_keys(items: Seq<DrawItem>) -> Seq<RenderKey>
    decreases items.len(),
{
    if items.len() == 0 {
        Seq::empty()
    } else {
        insert_key(sorted_distinct_keys(items.drop_last()), items.last().key)
    }
}

/// Strictly ascending: every earlier key is below every later one.
pub open spec fn sorted_strict(ks: Seq<RenderKey>) -> bool {
    forall|i: int, j: int| 0 <= i < j < ks.len() ==> key_lt(ks[i], ks[j])
}

/// Any two distinct keys are ordered one way or the other.
proof fn lemma_key_order_total(a: RenderKey, b: RenderKey)
    ensures
        a == b || key_lt(a, b) || key_lt(b, a),
{
}

/// After skipping a prefix whose keys all lie below `k`, insertion happens
/// in the remainder.
proof fn lemma_insert_key_skip(ks: Seq<RenderKey>, k: RenderKey, j: int)
    requires
        0 <= j <= ks.len(),
        forall|i: int| 0 <= i < j ==> key_lt(ks[i], k),
    ensures
        insert_key(ks, k) == ks.take(j) + insert_key(ks.skip(j), k),
    decreases j,
{
    if j == 0 {
        assert(ks.skip(0) =~= ks);
        assert(ks.take(0) + insert_key(ks, k) =~= insert_key(ks, k));
    } else {
        assert(key_lt(ks[0], k));
        assert(k != ks[0]);
        assert(!key_lt(k, ks[0]));
        let tail = ks.drop_first();
        assert(insert_key(ks, k) == seq![ks[0]] + insert_key(tail, k));
        assert(forall|i: int| 0 <= i < j - 1 ==> tail[i] == ks[i + 1] && key_lt(#[trigger] tail[i], k));
        lemma_insert_key_skip(tail, k, j - 1);
        assert(tail.take(j - 1) =~= ks.take(j).drop_first());
        assert(tail.skip(j - 1) =~= ks.skip(j));
        assert(seq![ks[0]] + (tail.take(j - 1) + insert_key(ks.skip(j), k)) =~= ks.take(j)
            + insert_key(ks.skip(j), k));
    }
}

/// Membership after insertion: the list gains `k` and keeps everything else.
pub proof fn lemma_insert_key_membership(ks: Seq<RenderKey>, k: RenderKey, x: RenderKey)
    ensures
        insert_key(ks, k).contains(x) <==> (ks.contains(x) || x == k),
    decreases ks.len(),
{
    let out = insert_key(ks, k);
    if ks.len() == 0 {
        if out.contains(x) {
            let w = choose|w: int| 0 <= w < out.len() && out[w] == x;
            assert(out[0] == k);
        }
        if x == k {
            assert(out[0] == x);
        }
    } else if k == ks[0] {
        if x == k {
            assert(ks[0] == x);
        }
    } else if key_lt(k, ks[0]) {
        if out.contains(x) {
            let w = choose|w: int| 0 <= w < out.len() && out[w] == x;
            if w == 0 {
                assert(x == k);
            } else {
                assert(out[w] == ks[w - 1]);
                assert(ks.contains(x));
            }
        }
        if ks.contains(x) {
            let w = choose|w: int| 0 <= w < ks.len() && ks[w] == x;
            assert(out[w + 1] == x);
            assert(out.contains(x));
        }
        if x == k {
            assert(out[0] == x);
            assert(out.contains(x));
        }
    } else {
        let tail = ks.drop_first();
        lemma_insert_key_membership(tail, k, x);
        let sub = insert_key(tail, k);
        assert(out == seq![ks[0]] + sub);
        if out.contains(x) {
            let w = choose|w: int| 0 <= w < out.len() && out[w] == x;
            if w == 0 {
                assert(ks[0] == x);
                assert(ks.contains(x));
            } else {
                assert(out[w] == sub[w - 1]);
                assert(sub.contains(x)) by {
                    assert(sub[w - 1] == x);
                }
                if tail.contains(x) {
                    let v = choose|v: int| 0 <= v < tail.len() && tail[v] == x;
                    assert(ks[v + 1] == tail[v]);
                    assert(ks.contains(x));
                }
            }
        }
        if ks.contains(x) {
            let w = choose|w: int| 0 <= w < ks.len() && ks[w] == x;
            if w == 0 {
                assert(out[0] == x);
                assert(out.contains(x));
            } else {
                assert(tail[w - 1] == ks[w]);
                assert(tail.contains(x)) by {
                    assert(tail[w - 1] == x);
                }
                let v = choose|v: int| 0 <= v < sub.len() && sub[v] == x;
                assert(out[v + 1] == x);
                assert(out.contains(x));
            }
        }
        if x == k {
            assert(sub.contains(x));
            let v = choose|v: int| 0 <= v < sub.len() && sub[v] == x;
            assert(out[v + 1] == x);
            assert(out.contains(x));
        }
    }
}

/// Insertion keeps the key list strictly sorted.
pub proof fn lemma_insert_key_sorted(ks: Seq<RenderKey>, k: RenderKey)
    requires
        sorted_strict(ks),
    ensures
        sorted_strict(insert_key(ks, k)),
    decreases ks.len(),
{
    let out = insert_key(ks, k);
    if ks.len() == 0 {
    } else if k == ks[0] {
    } else if key_lt(k, ks[0]) {
        assert forall|i: int, j: int| 0 <= i < j < out.len() implies key_lt(out[i], out[j]) by {
            if i == 0 {
                assert(out[j] == ks[j - 1]);
                if j > 1 {
                    assert(key_lt(ks[0], ks[j - 1]));
                }
            } else {
                assert(out[i] == ks[i - 1] && out[j] == ks[j - 1]);
            }
        }
    } else {
        let tail = ks.drop_first();
        assert(forall|i: int, j: int|
            0 <= i < j < tail.len() ==> key_lt(#[trigger] tail[i], #[trigger] tail[j]));
        lemma_insert_key_sorted(tail, k);
        let sub = insert_key(tail, k);
        assert(out == seq![ks[0]] + sub);
        assert(key_lt(ks[0], k));
        assert forall|i: int, j: int| 0 <= i < j < out.len() implies key_lt(out[i], out[j]) by {
            if i == 0 {
                assert(out[0] == ks[0]);
                assert(out[j] == sub[j - 1]);
                assert(sub.contains(sub[j - 1])) by {
                    assert(sub[j - 1] == sub[j - 1]);
                }
                lemma_insert_key_membership(tail, k, sub[j - 1]);
                if tail.contains(sub[j - 1]) {
                    let w = choose|w: int| 0 <= w < tail.len() && tail[w] == sub[j - 1];
                    assert(tail[w] == ks[w + 1]);
                    assert(key_lt(ks[0], ks[w + 1]));
                }
            } else {
                assert(out[i] == sub[i - 1] && out[j] == sub[j - 1]);
            }
        }
    }
}

/// The key list of the items is strictly sorted.
pub proof fn lemma_sorted_keys_sorted(items: Seq<DrawItem>)
    ensures
        sorted_strict(sorted_distinct_keys(items)),
    decreases items.len(),
{
    if items.len() > 0 {
        lemma_sorted_keys_sorted(items.drop_last());
        lemma_insert_key_sorted(sorted_distinct_keys(items.drop_last()), items.last().key);
    }
}

/// A key stands in the key list exactly when some item carries it.
pub proof fn lemma_sorted_keys_membership(items: Seq<DrawItem>, x: RenderKey)
    ensures
        sorted_distinct_keys(items).contains(x) <==> exists|i: int|
            0 <= i < items.len() && items[i].key == x,
    decreases items.len(),
{
    let ks = sorted_distinct_keys(items);
    if items.len() == 0 {
        if ks.contains(x) {
            let w = choose|w: int| 0 <= w < ks.len() && ks[w] == x;
        }
    } else {
        let prev = items.drop_last();
        lemma_sorted_keys_membership(prev, x);
        lemma_insert_key_membership(sorted_distinct_keys(prev), items.last().key, x);
        if ks.contains(x) {
            if sorted_distinct_keys(prev).contains(x) {
                let i = choose|i: int| 0 <= i < prev.len() && prev[i].key == x;
                assert(prev[i] == items[i]);
                assert(items[i].key == x);
            } else {
                assert(x == items.last().key);
                assert(items[items.len() - 1].key == x);
            }
        }
        if exists|i: int| 0 <= i < items.len() && items[i].key == x {
            let i = choose|i: int| 0 <= i < items.len() && items[i].key == x;
            if i < items.len() - 1 {
                assert(prev[i] == items[i]);
                assert(exists|j: int| 0 <= j < prev.len() && prev[j].key == x) by {
                    assert(prev[i].key == x);
                }
            } else {
                assert(x == items.last().key);
            }
            assert(ks.contains(x));
        }
    }
}


/// The items of the list that carry key `k`, in list order.
pub open spec fn matching_items(items: Seq<DrawItem>, k: RenderKey) -> Seq<DrawItem>
    decreases items.len(),
{
    if items.len() == 0 {
        Seq::empty()
    } else {
        matching_items(items.drop_last(), k) + if items.last().key == k {
            seq![items.last()]
        } else {
            Seq::empty()
        }
    }
}

/// The draw-ordered item list of the first `g` texture groups: groups follow
/// ascending key order, and inside a group items keep their list order.
pub open spec fn draw_order_upto(items: Seq<DrawItem>, ks: Seq<RenderKey>, g: int) -> Seq<
    DrawItem,
>
    decreases g,
{
    if g <= 0 {
        Seq::empty()
    } else {
        draw_order_upto(items, ks, g - 1) + matching_items(items, ks[g - 1])
    }
}

/// The complete draw-ordered item list: every item exactly once, grouped by
/// render key in ascending key order.
pub open spec fn draw_order(items: Seq<DrawItem>) -> Seq<DrawItem> {
    let ks = sorted_distinct_keys(items);
    draw_order_upto(items, ks, ks.len() as int)
}

/// How many items of the list carry a key that lies in `kset`.
pub open spec fn count_in(items: Seq<DrawItem>, kset: Seq<RenderKey>) -> int
    decreases items.len(),
{
    if items.len() == 0 {
        0
    } else {
        count_in(items.drop_last(), kset) + if kset.contains(items.last().key) {
            1int
        } else {
            0int
        }
    }
}

/// The count never exceeds the number of items.
proof fn lemma_count_in_le_len(items: Seq<DrawItem>, kset: Seq<RenderKey>)
    ensures
        0 <= count_in(items, kset) <= items.len(),
    decreases items.len(),
{
    if items.len() > 0 {
        lemma_count_in_le_len(items.drop_last(), kset);
    }
}

/// Adding a fresh key to the set grows the count by that key's own matches.
proof fn lemma_count_in_push(items: Seq<DrawItem>, kset: Seq<RenderKey>, knew: RenderKey)
    requires
        !kset.contains(knew),
    ensures
        count_in(items, kset.push(knew)) == count_in(items, kset) + matching_items(
            items,
            knew,
        ).len(),
    decreases items.len(),
{
    if items.len() > 0 {
        lemma_count_in_push(items.drop_last(), kset, knew);
        let key = items.last().key;
        assert(kset.push(knew).contains(key) <==> (kset.contains(key) || key == knew)) by {
            if kset.contains(key) {
                let w = choose|w: int| 0 <= w < kset.len() && kset[w] == key;
                assert(kset.push(knew)[w] == key);
            }
            if key == knew {
                assert(kset.push(knew)[kset.len() as int] == key);
            }
            if kset.push(knew).contains(key) {
                let w = choose|w: int| 0 <= w < kset.push(knew).len() && kset.push(knew)[w] == key;
                if w < kset.len() {
                    assert(kset[w] == key);
                }
            }
        }
    }
}

/// The first `g` groups together hold exactly the items whose key lies among
/// the first `g` keys.
proof fn lemma_upto_len_eq_count(items: Seq<DrawItem>, ks: Seq<RenderKey>, g: int)
    requires
        0 <= g <= ks.len(),
        sorted_strict(ks),
    ensures
        draw_order_upto(items, ks, g).len() == count_in(items, ks.take(g)),
    decreases g,
{
    if g == 0 {
        lemma_count_in_empty(items, ks.take(0));
    } else {
        lemma_upto_len_eq_count(items, ks, g - 1);
        assert(!ks.take(g - 1).contains(ks[g - 1])) by {
            if ks.take(g - 1).contains(ks[g - 1]) {
                let w = choose|w: int| 0 <= w < g - 1 && #[trigger] ks.take(g - 1)[w] == ks[g - 1];
                assert(key_lt(ks[w], ks[g - 1]));
            }
        }
        lemma_count_in_push(items, ks.take(g - 1), ks[g - 1]);
        assert(ks.take(g) =~= ks.take(g - 1).push(ks[g - 1]));
    }
}

/// With an empty key set, nothing is counted.
proof fn lemma_count_in_empty(items: Seq<DrawItem>, kset: Seq<RenderKey>)
    requires
        kset.len() == 0,
    ensures
        count_in(items, kset) == 0,
    decreases items.len(),
{
    if items.len() > 0 {
        lemma_count_in_empty(items.drop_last(), kset);
        assert(!kset.contains(items.last().key)) by {
            if kset.contains(items.last().key) {
                let w = choose|w: int| 0 <= w < kset.len() && kset[w] == items.last().key;
            }
        }
    }
}

/// When the key set covers every item's key, all items are counted.
proof fn lemma_count_in_full(items: Seq<DrawItem>, kset: Seq<RenderKey>)
    requires
        forall|i: int| 0 <= i < items.len() ==> kset.contains(#[trigger] items[i].key),
    ensures
        count_in(items, kset) == items.len(),
    decreases items.len(),
{
    if items.len() > 0 {
        let prev = items.drop_last();
        assert(forall|i: int| 0 <= i < prev.len() ==> prev[i] == items[i]);
        lemma_count_in_full(prev, kset);
        assert(kset.contains(items[items.len() - 1].key));
    }
}

/// The draw-ordered list holds every item exactly once: it has the same
/// length as the item list, so uniform slots line up one per drawable.
pub proof fn lemma_draw_order_len(items: Seq<DrawItem>)
    ensures
        draw_order(items).len() == items.len(),
{
    let ks = sorted_distinct_keys(items);
    lemma_sorted_keys_sorted(items);
    lemma_upto_len_eq_count(items, ks, ks.len() as int);
    assert(ks.take(ks.len() as int) =~= ks);
    assert forall|i: int| 0 <= i < items.len() implies ks.contains(#[trigger] items[i].key) by {
        lemma_sorted_keys_membership(items, items[i].key);
    }
    lemma_count_in_full(items, ks);
}

/// Group prefixes only grow.
proof fn lemma_upto_len_mono(items: Seq<DrawItem>, ks: Seq<RenderKey>, g1: int, g2: int)
    requires
        0 <= g1 <= g2,
    ensures
        0 <= draw_order_upto(items, ks, g1).len() <= draw_order_upto(items, ks, g2).len(),
    decreases g2,
{
    if g2 > 0 {
        if g1 == g2 {
            lemma_upto_len_mono(items, ks, g1 - 1, g2 - 1);
        } else {
            lemma_upto_len_mono(items, ks, g1, g2 - 1);
        }
    }
}

/// A prefix of the item list never matches more than the whole list.
proof fn lemma_matching_prefix_le(items: Seq<DrawItem>, k: RenderKey, i: int)
    requires
        0 <= i <= items.len(),
    ensures
        matching_items(items.take(i), k).len() <= matching_items(items, k).len(),
    decreases items.len() - i,
{
    if i == items.len() {
        assert(items.take(i) =~= items);
    } else {
        lemma_matching_prefix_le(items, k, i + 1);
        assert(items.take(i + 1).drop_last() =~= items.take(i));
        assert(matching_items(items.take(i + 1), k).len() >= matching_items(
            items.take(i),
            k,
        ).len());
    }
}


/// One recorded command of a frame's command buffer. The embedding replays
/// these against the device verbatim; equal command lists mean bit-identical
/// recorded buffers.
#[derive(Clone, Copy, Debug, PartialEq, Eq, Structural)]
pub enum DrawCommand {
    SetViewport { width: u32, height: u32 },
    SetScissor { width: u32, height: u32 },
    BindPipeline,
    BindVertexBuffer,
    BindIndexBuffer,
    BeginRenderPass { width: u32, height: u32 },
    BindTextureDescriptor { key: RenderKey },
    BindUniformDescriptors { dynamic_offset: u32 },
    DrawIndexed { first_index: u32, index_count: u32 },
    EndRenderPass,
}

/// The fixed commands every frame starts with, before any texture group.
pub open spec fn prologue_cmds(width: u32, height: u32) -> Seq<DrawCommand> {
    seq![
        DrawCommand::SetViewport { width, height },
        DrawCommand::SetScissor { width, height },
        DrawCommand::BindPipeline,
        DrawCommand::BindVertexBuffer,
        DrawCommand::BindIndexBuffer,
        DrawCommand::BeginRenderPass { width, height },
    ]
}

/// The commands of one texture group whose items occupy uniform slots
/// `base ..`: item `j` of the group, rendered or not, owns slot `base + j`;
/// only rendered items emit a descriptor bind (at dynamic offset
/// `slot * stride`) and an indexed draw.
pub open spec fn group_cmds(g: Seq<DrawItem>, base: int, stride: int) -> Seq<DrawCommand>
    decreases g.len(),
{
    if g.len() == 0 {
        Seq::empty()
    } else {
        group_cmds(g.drop_last(), base, stride) + if g.last().rendered {
            seq![
                DrawCommand::BindUniformDescriptors {
                    dynamic_offset: ((base + g.len() - 1) * stride) as u32,
                },
                DrawCommand::DrawIndexed {
                    first_index: g.last().first_index,
                    index_count: g.last().index_count,
                },
            ]
        } else {
            Seq::empty()
        }
    }
}

/// The commands of the first `g` texture groups: each group binds its
/// texture descriptor once, then draws its rendered items.
pub open spec fn groups_cmds_upto(
    items: Seq<DrawItem>,
    ks: Seq<RenderKey>,
    g: int,
    stride: int,
) -> Seq<DrawCommand>
    decreases g,
{
    if g <= 0 {
        Seq::empty()
    } else {
        groups_cmds_upto(items, ks, g - 1, stride) + seq![
            DrawCommand::BindTextureDescriptor { key: ks[g - 1] },
        ] + group_cmds(
            matching_items(items, ks[g - 1]),
            draw_order_upto(items, ks, g - 1).len() as int,
            stride,
        )
    }
}

/// The complete command list for one frame of the given items.
pub open spec fn spec_commands(
    items: Seq<DrawItem>,
    stride: int,
    width: u32,
    height: u32,
) -> Seq<DrawCommand> {
    let ks = sorted_distinct_keys(items);
    prologue_cmds(width, height) + groups_cmds_upto(items, ks, ks.len() as int, stride) + seq![
        DrawCommand::EndRenderPass,
    ]
}

/// The position in the sorted key list at which `k` belongs: past every key
/// below it.
fn find_insert_pos(ks: &Vec<RenderKey>, k: RenderKey) -> (j: usize)
    ensures
        j <= ks@.len(),
        forall|i: int| 0 <= i < j ==> key_lt(ks@[i], k),
        j < ks@.len() ==> !key_lt(ks@[j as int], k),
{
    let mut j: usize = 0;
    while j < ks.len()
        invariant
            j <= ks@.len(),
            forall|i: int| 0 <= i < j ==> key_lt(ks@[i], k),
        decreases ks@.len() - j,
    {
        if !crate::texture::key_before(&ks[j], &k) {
            return j;
        }
        j = j + 1;
    }
    j
}

/// Inserts `k` into the sorted key vector, keeping keys distinct and
/// ascending; a key already present is left alone.
fn insert_key_exec(ks: &mut Vec<RenderKey>, k: RenderKey)
    ensures
        final(ks)@ == insert_key(old(ks)@, k),
{
    let ghost orig = old(ks)@;
    let j = find_insert_pos(ks, k);
    proof {
        lemma_insert_key_skip(orig, k, j as int);
    }
    if j == ks.len() {
        ks.push(k);
        proof {
            assert(orig.skip(j as int) =~= Seq::<RenderKey>::empty());
            assert(insert_key(orig.skip(j as int), k) =~= seq![k]);
            assert(orig.take(j as int) =~= orig);
            assert(ks@ =~= insert_key(orig, k));
        }
    } else if ks[j] == k {
        proof {
            let rest = orig.skip(j as int);
            assert(rest[0] == orig[j as int]);
            assert(insert_key(rest, k) == rest);
            assert(orig.take(j as int) + rest =~= orig);
        }
    } else {
        proof {
            lemma_key_order_total(k, orig[j as int]);
            assert(key_lt(k, orig[j as int]));
            let rest = orig.skip(j as int);
            assert(rest[0] == orig[j as int]);
            assert(insert_key(rest, k) == seq![k] + rest);
        }
        ks.insert(j, k);
        proof {
            assert(ks@ == orig.insert(j as int, k));
            assert(orig.insert(j as int, k) =~= orig.take(j as int) + (seq![k] + orig.skip(
                j as int,
            )));
            assert(ks@ == insert_key(orig, k));
        }
    }
}

/// Collects the distinct render keys of the items in ascending order.
fn collect_sorted_keys(items: &Vec<DrawItem>) -> (ks: Vec<RenderKey>)
    ensures
        ks@ == sorted_distinct_keys(items@),
        sorted_strict(ks@),
{
    let mut ks: Vec<RenderKey> = Vec::new();
    let mut i: usize = 0;
    proof {
        assert(items@.take(0) =~= Seq::<DrawItem>::empty());
        assert(ks@ =~= sorted_distinct_keys(items@.take(0)));
    }
    while i < items.len()
        invariant
            i <= items@.len(),
            ks@ == sorted_distinct_keys(items@.take(i as int)),
        decreases items@.len() - i,
    {
        insert_key_exec(&mut ks, items[i].key);
        proof {
            assert(items@.take(i + 1).drop_last() =~= items@.take(i as int));
            assert(items@.take(i + 1).last() == items@[i as int]);
        }
        i = i + 1;
    }
    proof {
        assert(items@.take(items@.len() as int) =~= items@);
        lemma_sorted_keys_sorted(items@);
    }
    ks
}

/// Records the full command list for one frame: the fixed prologue, then
/// for each render key in ascending order a texture-descriptor bind followed
/// by the group's draws, then the end of the render pass.
pub fn build_command_list(items: &Vec<DrawItem>, stride: u32, width: u32, height: u32) -> (out:
    Vec<DrawCommand>)
    requires
        1 <= stride,
        items@.len() * stride <= u32::MAX,
    ensures
        out@ == spec_commands(items@, stride as int, width, height),
{
    let ks = collect_sorted_keys(items);
    let mut out: Vec<DrawCommand> = Vec::new();
    out.push(DrawCommand::SetViewport { width, height });
    out.push(DrawCommand::SetScissor { width, height });
    out.push(DrawCommand::BindPipeline);
    out.push(DrawCommand::BindVertexBuffer);
    out.push(DrawCommand::BindIndexBuffer);
    out.push(DrawCommand::BeginRenderPass { width, height });
    proof {
        assert(out@ =~= prologue_cmds(width, height));
        assert(out@ =~= prologue_cmds(width, height) + groups_cmds_upto(
            items@,
            ks@,
            0,
            stride as int,
        ));
    }
    let n = items.len();
    let mut g: usize = 0;
    let mut base: usize = 0;
    while g < ks.len()
        invariant
            n == items@.len(),
            ks@ == sorted_distinct_keys(items@),
            sorted_strict(ks@),
            1 <= stride,
            items@.len() * stride <= u32::MAX,
            g <= ks@.len(),
            base == draw_order_upto(items@, ks@, g as int).len(),
            base <= items@.len(),
            out@ == prologue_cmds(width, height) + groups_cmds_upto(
                items@,
                ks@,
                g as int,
                stride as int,
            ),
        decreases ks@.len() - g,
    {
        let key = ks[g];
        out.push(DrawCommand::BindTextureDescriptor { key });
        let ghost base0 = base as int;
        let ghost out_before = out@;
        proof {
            lemma_upto_len_eq_count(items@, ks@, g as int);
            lemma_upto_len_eq_count(items@, ks@, g + 1);
            lemma_count_in_le_len(items@, ks@.take(g + 1));
            assert(draw_order_upto(items@, ks@, g + 1).len() <= items@.len());
            assert(base0 + matching_items(items@, key).len() <= items@.len());
            assert(matching_items(items@.take(0), key).len() == 0) by {
                assert(items@.take(0) =~= Seq::<DrawItem>::empty());
            }
            assert(out@ =~= out_before + group_cmds(
                matching_items(items@.take(0), key),
                base0,
                stride as int,
            ));
        }
        let mut cnt: usize = 0;
        let mut i: usize = 0;
        while i < items.len()
            invariant
                1 <= stride,
                items@.len() * stride <= u32::MAX,
                n == items@.len(),
                base == base0,
                g < ks@.len(),
                key == ks@[g as int],
                i <= items@.len(),
                cnt == matching_items(items@.take(i as int), key).len(),
                base0 + matching_items(items@, key).len() <= items@.len(),
                out@ == out_before + group_cmds(
                    matching_items(items@.take(i as int), key),
                    base0,
                    stride as int,
                ),
                base0 >= 0,
            decreases items@.len() - i,
        {
            let ghost gp = matching_items(items@.take(i as int), key);
            proof {
                lemma_matching_prefix_le(items@, key, i + 1);
                assert(items@.take(i + 1).drop_last() =~= items@.take(i as int));
                assert(items@.take(i + 1).last() == items@[i as int]);
            }
            if items[i].key == key {
                proof {
                    assert(matching_items(items@.take(i + 1), key) == gp + seq![items@[i as int]]);
                    assert(matching_items(items@.take(i + 1), key) =~= gp.push(items@[i as int]));
                    assert(gp.push(items@[i as int]).drop_last() =~= gp);
                    assert(cnt + 1 <= matching_items(items@, key).len());
                    assert((base0 + cnt) * stride <= items@.len() * stride) by (nonlinear_arith)
                        requires
                            base0 + cnt + 1 <= items@.len(),
                            stride >= 1,
                    ;
                    assert(items@.len() <= items@.len() * stride) by (nonlinear_arith)
                        requires
                            stride >= 1,
                            items@.len() >= 0,
                    ;
                }
                if items[i].rendered {
                    let slot: usize = base + cnt;
                    let off: u32 = (slot as u32) * stride;
                    out.push(DrawCommand::BindUniformDescriptors { dynamic_offset: off });
                    out.push(
                        DrawCommand::DrawIndexed {
                            first_index: items[i].first_index,
                            index_count: items[i].index_count,
                        },
                    );
                    proof {
                        let gnew = matching_items(items@.take(i + 1), key);
                        assert(group_cmds(gnew, base0, stride as int) == group_cmds(
                            gp,
                            base0,
                            stride as int,
                        ) + seq![
                            DrawCommand::BindUniformDescriptors {
                                dynamic_offset: ((base0 + cnt) * (stride as int)) as u32,
                            },
                            DrawCommand::DrawIndexed {
                                first_index: items@[i as int].first_index,
                                index_count: items@[i as int].index_count,
                            },
                        ]);
                        assert(out@ =~= out_before + group_cmds(gnew, base0, stride as int));
                    }
                } else {
                    proof {
                        let gnew = matching_items(items@.take(i + 1), key);
                        assert(group_cmds(gnew, base0, stride as int) == group_cmds(
                            gp,
                            base0,
                            stride as int,
                        ) + Seq::<DrawCommand>::empty());
                        assert(out@ =~= out_before + group_cmds(gnew, base0, stride as int));
                    }
                }
                cnt = cnt + 1;
            } else {
                proof {
                    assert(matching_items(items@.take(i + 1), key) == gp + Seq::<
                        DrawItem,
                    >::empty());
                    assert(matching_items(items@.take(i + 1), key) =~= gp);
                }
            }
            i = i + 1;
        }
        proof {
            assert(items@.take(items@.len() as int) =~= items@);
            assert(cnt == matching_items(items@, key).len());
            assert(groups_cmds_upto(items@, ks@, g + 1, stride as int) == groups_cmds_upto(
                items@,
                ks@,
                g as int,
                stride as int,
            ) + seq![DrawCommand::BindTextureDescriptor { key }] + group_cmds(
                matching_items(items@, key),
                draw_order_upto(items@, ks@, g as int).len() as int,
                stride as int,
            ));
            assert(out@ =~= prologue_cmds(width, height) + groups_cmds_upto(
                items@,
                ks@,
                g + 1,
                stride as int,
            ));
            assert(draw_order_upto(items@, ks@, g + 1).len() == base0 + matching_items(
                items@,
                key,
            ).len());
        }
        base = base + cnt;
        g = g + 1;
    }
    out.push(DrawCommand::EndRenderPass);
    proof {
        assert(out@ =~= spec_commands(items@, stride as int, width, height));
    }
    out
}


/// Uniform slots and dynamic offsets inside a texture group: item `j` of a
/// group whose slots start at `base` owns slot `base + j` whether or not it
/// is rendered. A rendered item binds its uniforms at dynamic offset
/// `(base + j) * stride` and issues exactly one indexed draw; a skipped item
/// emits nothing, and every later item's slot stays where it was.
pub proof fn lemma_group_slot_offsets(g: Seq<DrawItem>, base: int, stride: int, j: int)
    requires
        0 <= j < g.len(),
    ensures
        g[j].rendered ==> group_cmds(g.take(j + 1), base, stride) == group_cmds(
            g.take(j),
            base,
            stride,
        ) + seq![
            DrawCommand::BindUniformDescriptors { dynamic_offset: ((base + j) * stride) as u32 },
            DrawCommand::DrawIndexed {
                first_index: g[j].first_index,
                index_count: g[j].index_count,
            },
        ],
        !g[j].rendered ==> group_cmds(g.take(j + 1), base, stride) == group_cmds(
            g.take(j),
            base,
            stride,
        ),
{
    let gp = g.take(j + 1);
    assert(gp.drop_last() =~= g.take(j));
    assert(gp.last() == g[j]);
    assert(gp.len() == j + 1);
    if !g[j].rendered {
        assert(group_cmds(gp, base, stride) =~= group_cmds(g.take(j), base, stride));
    }
}

/// How many indexed draws a command list contains.
pub open spec fn draw_call_count(cmds: Seq<DrawCommand>) -> int
    decreases cmds.len(),
{
    if cmds.len() == 0 {
        0
    } else {
        draw_call_count(cmds.drop_last()) + if cmds.last() is DrawIndexed {
            1int
        } else {
            0int
        }
    }
}

/// How many of the items are rendered.
pub open spec fn rendered_count(items: Seq<DrawItem>) -> int
    decreases items.len(),
{
    if items.len() == 0 {
        0
    } else {
        rendered_count(items.drop_last()) + if items.last().rendered {
            1int
        } else {
            0int
        }
    }
}

proof fn lemma_draw_call_count_concat(a: Seq<DrawCommand>, b: Seq<DrawCommand>)
    ensures
        draw_call_count(a + b) == draw_call_count(a) + draw_call_count(b),
    decreases b.len(),
{
    if b.len() == 0 {
        assert(a + b =~= a);
    } else {
        lemma_draw_call_count_concat(a, b.drop_last());
        assert((a + b).drop_last() =~= a + b.drop_last());
        assert((a + b).last() == b.last());
    }
}

proof fn lemma_rendered_count_concat(a: Seq<DrawItem>, b: Seq<DrawItem>)
    ensures
        rendered_count(a + b) == rendered_count(a) + rendered_count(b),
    decreases b.len(),
{
    if b.len() == 0 {
        assert(a + b =~= a);
    } else {
        lemma_rendered_count_concat(a, b.drop_last());
        assert((a + b).drop_last() =~= a + b.drop_last());
        assert((a + b).last() == b.last());
    }
}

/// A texture group issues exactly one indexed draw per rendered item.
pub proof fn lemma_group_draw_calls(g: Seq<DrawItem>, base: int, stride: int)
    ensures
        draw_call_count(group_cmds(g, base, stride)) == rendered_count(g),
    decreases g.len(),
{
    if g.len() > 0 {
        lemma_group_draw_calls(g.drop_last(), base, stride);
        if g.last().rendered {
            let pair = seq![
                DrawCommand::BindUniformDescriptors {
                    dynamic_offset: ((base + g.len() - 1) * stride) as u32,
                },
                DrawCommand::DrawIndexed {
                    first_index: g.last().first_index,
                    index_count: g.last().index_count,
                },
            ];
            assert(draw_call_count(pair) == 1) by {
                reveal_with_fuel(draw_call_count, 4);
                assert(pair.drop_last() =~= seq![
                    DrawCommand::BindUniformDescriptors {
                        dynamic_offset: ((base + g.len() - 1) * stride) as u32,
                    },
                ]);
                assert(pair.drop_last().drop_last() =~= Seq::<DrawCommand>::empty());
            }
            lemma_draw_call_count_concat(group_cmds(g.drop_last(), base, stride), pair);
        } else {
            lemma_draw_call_count_concat(
                group_cmds(g.drop_last(), base, stride),
                Seq::<DrawCommand>::empty(),
            );
        }
    }
}

/// A frame's command list issues exactly one indexed draw per rendered item
/// of the draw-ordered list: drawables flagged not rendered contribute zero
/// draw calls.
pub proof fn lemma_commands_draw_calls(items: Seq<DrawItem>, stride: int, width: u32, height: u32)
    ensures
        draw_call_count(spec_commands(items, stride, width, height)) == rendered_count(
            draw_order(items),
        ),
{
    let ks = sorted_distinct_keys(items);
    let glen = ks.len() as int;
    assert(draw_call_count(prologue_cmds(width, height)) == 0) by {
        reveal_with_fuel(draw_call_count, 8);
        let p = prologue_cmds(width, height);
        assert(p.drop_last() =~= seq![
            DrawCommand::SetViewport { width, height },
            DrawCommand::SetScissor { width, height },
            DrawCommand::BindPipeline,
            DrawCommand::BindVertexBuffer,
            DrawCommand::BindIndexBuffer,
        ]);
        assert(p.drop_last().drop_last() =~= seq![
            DrawCommand::SetViewport { width, height },
            DrawCommand::SetScissor { width, height },
            DrawCommand::BindPipeline,
            DrawCommand::BindVertexBuffer,
        ]);
        assert(p.drop_last().drop_last().drop_last() =~= seq![
            DrawCommand::SetViewport { width, height },
            DrawCommand::SetScissor { width, height },
            DrawCommand::BindPipeline,
        ]);
        assert(p.drop_last().drop_last().drop_last().drop_last() =~= seq![
            DrawCommand::SetViewport { width, height },
            DrawCommand::SetScissor { width, height },
        ]);
        assert(p.drop_last().drop_last().drop_last().drop_last().drop_last() =~= seq![
            DrawCommand::SetViewport { width, height },
        ]);
        assert(p.drop_last().drop_last().drop_last().drop_last().drop_last().drop_last() =~= Seq::<
            DrawCommand,
        >::empty());
    }
    lemma_groups_draw_calls(items, ks, glen, stride);
    lemma_draw_call_count_concat(
        prologue_cmds(width, height),
        groups_cmds_upto(items, ks, glen, stride),
    );
    lemma_draw_call_count_concat(
        prologue_cmds(width, height) + groups_cmds_upto(items, ks, glen, stride),
        seq![DrawCommand::EndRenderPass],
    );
    assert(draw_call_count(seq![DrawCommand::EndRenderPass]) == 0) by {
        reveal_with_fuel(draw_call_count, 3);
        assert(seq![DrawCommand::EndRenderPass].drop_last() =~= Seq::<DrawCommand>::empty());
    }
}

proof fn lemma_groups_draw_calls(items: Seq<DrawItem>, ks: Seq<RenderKey>, g: int, stride: int)
    requires
        0 <= g <= ks.len(),
    ensures
        draw_call_count(groups_cmds_upto(items, ks, g, stride)) == rendered_count(
            draw_order_upto(items, ks, g),
        ),
    decreases g,
{
    if g > 0 {
        lemma_groups_draw_calls(items, ks, g - 1, stride);
        let prev = groups_cmds_upto(items, ks, g - 1, stride);
        let bind = seq![DrawCommand::BindTextureDescriptor { key: ks[g - 1] }];
        let grp = group_cmds(
            matching_items(items, ks[g - 1]),
            draw_order_upto(items, ks, g - 1).len() as int,
            stride,
        );
        lemma_draw_call_count_concat(prev, bind);
        lemma_draw_call_count_concat(prev + bind, grp);
        assert(draw_call_count(bind) == 0) by {
            reveal_with_fuel(draw_call_count, 3);
            assert(bind.drop_last() =~= Seq::<DrawCommand>::empty());
        }
        lemma_group_draw_calls(
            matching_items(items, ks[g - 1]),
            draw_order_upto(items, ks, g - 1).len() as int,
            stride,
        );
        lemma_rendered_count_concat(
            draw_order_upto(items, ks, g - 1),
            matching_items(items, ks[g - 1]),
        );
    }
}

/// Items counted by whether they are rendered, restricted to keys in `kset`.
spec fn rendered_in(items: Seq<DrawItem>, kset: Seq<RenderKey>) -> int
    decreases items.len(),
{
    if items.len() == 0 {
        0
    } else {
        rendered_in(items.drop_last(), kset) + if kset.contains(items.last().key)
            && items.last().rendered {
            1int
        } else {
            0int
        }
    }
}

proof fn lemma_rendered_in_push(items: Seq<DrawItem>, kset: Seq<RenderKey>, knew: RenderKey)
    requires
        !kset.contains(knew),
    ensures
        rendered_in(items, kset.push(knew)) == rendered_in(items, kset) + rendered_count(
            matching_items(items, knew),
        ),
    decreases items.len(),
{
    if items.len() > 0 {
        lemma_rendered_in_push(items.drop_last(), kset, knew);
        let key = items.last().key;
        assert(kset.push(knew).contains(key) <==> (kset.contains(key) || key == knew)) by {
            if kset.contains(key) {
                let w = choose|w: int| 0 <= w < kset.len() && kset[w] == key;
                assert(kset.push(knew)[w] == key);
            }
            if key == knew {
                assert(kset.push(knew)[kset.len() as int] == key);
            }
            if kset.push(knew).contains(key) {
                let w = choose|w: int| 0 <= w < kset.push(knew).len() && kset.push(knew)[w] == key;
                if w < kset.len() {
                    assert(kset[w] == key);
                }
            }
        }
        if items.last().key == knew {
            lemma_rendered_count_concat(
                matching_items(items.drop_last(), knew),
                seq![items.last()],
            );
            assert(rendered_count(seq![items.last()]) == (if items.last().rendered {
                1int
            } else {
                0int
            })) by {
                reveal_with_fuel(rendered_count, 3);
                assert(seq![items.last()].drop_last() =~= Seq::<DrawItem>::empty());
            }
        } else {
            lemma_rendered_count_concat(
                matching_items(items.drop_last(), knew),
                Seq::<DrawItem>::empty(),
            );
            assert(matching_items(items, knew) =~= matching_items(items.drop_last(), knew)
                + Seq::<DrawItem>::empty());
        }
    }
}

proof fn lemma_rendered_in_empty(items: Seq<DrawItem>, kset: Seq<RenderKey>)
    requires
        kset.len() == 0,
    ensures
        rendered_in(items, kset) == 0,
    decreases items.len(),
{
    if items.len() > 0 {
        lemma_rendered_in_empty(items.drop_last(), kset);
        assert(!kset.contains(items.last().key)) by {
            if kset.contains(items.last().key) {
                let w = choose|w: int| 0 <= w < kset.len() && kset[w] == items.last().key;
            }
        }
    }
}

proof fn lemma_rendered_in_full(items: Seq<DrawItem>, kset: Seq<RenderKey>)
    requires
        forall|i: int| 0 <= i < items.len() ==> kset.contains(#[trigger] items[i].key),
    ensures
        rendered_in(items, kset) == rendered_count(items),
    decreases items.len(),
{
    if items.len() > 0 {
        let prev = items.drop_last();
        assert(forall|i: int| 0 <= i < prev.len() ==> prev[i] == items[i]);
        lemma_rendered_in_full(prev, kset);
        assert(kset.contains(items[items.len() - 1].key));
    }
}

proof fn lemma_upto_rendered_eq(items: Seq<DrawItem>, ks: Seq<RenderKey>, g: int)
    requires
        0 <= g <= ks.len(),
        sorted_strict(ks),
    ensures
        rendered_count(draw_order_upto(items, ks, g)) == rendered_in(items, ks.take(g)),
    decreases g,
{
    if g == 0 {
        lemma_rendered_in_empty(items, ks.take(0));
    } else {
        lemma_upto_rendered_eq(items, ks, g - 1);
        assert(!ks.take(g - 1).contains(ks[g - 1])) by {
            if ks.take(g - 1).contains(ks[g - 1]) {
                let w = choose|w: int|
                    0 <= w < g - 1 && #[trigger] ks.take(g - 1)[w] == ks[g - 1];
                assert(key_lt(ks[w], ks[g - 1]));
            }
        }
        lemma_rendered_in_push(items, ks.take(g - 1), ks[g - 1]);
        assert(ks.take(g) =~= ks.take(g - 1).push(ks[g - 1]));
        lemma_rendered_count_concat(
            draw_order_upto(items, ks, g - 1),
            matching_items(items, ks[g - 1]),
        );
    }
}

/// Reordering drawables into texture groups loses no draw: the draw-ordered
/// list has exactly as many rendered items as the original list.
pub proof fn lemma_draw_order_rendered(items: Seq<DrawItem>)
    ensures
        rendered_count(draw_order(items)) == rendered_count(items),
{
    let ks = sorted_distinct_keys(items);
    lemma_sorted_keys_sorted(items);
    lemma_upto_rendered_eq(items, ks, ks.len() as int);
    assert(ks.take(ks.len() as int) =~= ks);
    assert forall|i: int| 0 <= i < items.len() implies ks.contains(#[trigger] items[i].key) by {
        lemma_sorted_keys_membership(items, items[i].key);
    }
    lemma_rendered_in_full(items, ks);
}


/// The model matrices of the items, in item order.
pub open spec fn models_of(items: Seq<DrawItem>) -> Seq<Mat4> {
    Seq::new(items.len(), |i: int| items[i].model)
}

/// Builds the draw-ordered item list: items grouped by render key in
/// ascending key order, keeping list order inside each group. Uniform slot
/// `p` belongs to the item at position `p` of this list.
pub fn build_draw_order(items: &Vec<DrawItem>) -> (out: Vec<DrawItem>)
    ensures
        out@ == draw_order(items@),
{
    let ks = collect_sorted_keys(items);
    let mut out: Vec<DrawItem> = Vec::new();
    let mut g: usize = 0;
    proof {
        assert(out@ =~= draw_order_upto(items@, ks@, 0));
    }
    while g < ks.len()
        invariant
            ks@ == sorted_distinct_keys(items@),
            g <= ks@.len(),
            out@ == draw_order_upto(items@, ks@, g as int),
        decreases ks@.len() - g,
    {
        let key = ks[g];
        let ghost out_before = out@;
        proof {
            assert(matching_items(items@.take(0), key) =~= Seq::<DrawItem>::empty());
            assert(out@ =~= out_before + matching_items(items@.take(0), key));
        }
        let mut i: usize = 0;
        while i < items.len()
            invariant
                g < ks@.len(),
                key == ks@[g as int],
                i <= items@.len(),
                out@ == out_before + matching_items(items@.take(i as int), key),
            decreases items@.len() - i,
        {
            proof {
                assert(items@.take(i + 1).drop_last() =~= items@.take(i as int));
                assert(items@.take(i + 1).last() == items@[i as int]);
            }
            if items[i].key == key {
                out.push(items[i]);
                proof {
                    assert(out@ =~= out_before + matching_items(items@.take(i + 1), key));
                }
            } else {
                proof {
                    assert(matching_items(items@.take(i + 1), key) =~= matching_items(
                        items@.take(i as int),
                        key,
                    ));
                }
            }
            i = i + 1;
        }
        proof {
            assert(items@.take(items@.len() as int) =~= items@);
        }
        g = g + 1;
    }
    out
}

/// The model matrices of the items, in item order, as a fresh vector.
pub fn collect_models(items: &Vec<DrawItem>) -> (out: Vec<Mat4>)
    ensures
        out@ == models_of(items@),
{
    let mut out: Vec<Mat4> = Vec::new();
    let mut i: usize = 0;
    while i < items.len()
        invariant
            i <= items@.len(),
            out@.len() == i,
            forall|j: int| 0 <= j < i ==> out@[j] == items@[j].model,
        decreases items@.len() - i,
    {
        out.push(items[i].model);
        i = i + 1;
    }
    proof {
        assert(out@ =~= models_of(items@));
    }
    out
}

/// A fresh copy of a recorded command list.
pub fn copy_commands(src: &Vec<DrawCommand>) -> (out: Vec<DrawCommand>)
    ensures
        out@ == src@,
{
    let mut out: Vec<DrawCommand> = Vec::new();
    let mut i: usize = 0;
    while i < src.len()
        invariant
            i <= src@.len(),
            out@.len() == i,
            forall|j: int| 0 <= j < i ==> out@[j] == src@[j],
        decreases src@.len() - i,
    {
        out.push(src[i]);
        i = i + 1;
    }
    proof {
        assert(out@ =~= src@);
    }
    out
}


/// Position of a group member in the full draw-ordered list: item `j` of
/// group `g` stands at position `draw_order_upto(.., g).len() + j`.
proof fn lemma_draw_order_index(
    items: Seq<DrawItem>,
    ks: Seq<RenderKey>,
    g: int,
    capg: int,
    j: int,
)
    requires
        0 <= g < capg <= ks.len(),
        0 <= j < matching_items(items, ks[g]).len(),
    ensures
        draw_order_upto(items, ks, g).len() + j < draw_order_upto(items, ks, capg).len(),
        draw_order_upto(items, ks, capg)[draw_order_upto(items, ks, g).len() + j]
            == matching_items(items, ks[g])[j],
    decreases capg,
{
    lemma_upto_len_mono(items, ks, g, capg - 1);
    if capg == g + 1 {
    } else {
        lemma_draw_order_index(items, ks, g, capg - 1, j);
    }
}

/// Dynamic uniform offsets: the item at position `p` of the draw-ordered
/// list — counting every item, rendered or not — owns the uniform slot at
/// dynamic offset `p * stride`, where the stride covers one model matrix
/// and is a multiple of the device's minimum dynamic-uniform alignment. A
/// rendered item's commands bind exactly that offset; a skipped item binds
/// nothing, and later items' offsets are unaffected.
pub proof fn lemma_dynamic_offsets(items: Seq<DrawItem>, g: int, j: int, align: u64)
    requires
        align >= 1,
        0 <= g < sorted_distinct_keys(items).len(),
        0 <= j < matching_items(items, sorted_distinct_keys(items)[g]).len(),
    ensures
        ({
            let ks = sorted_distinct_keys(items);
            let grp = matching_items(items, ks[g]);
            let base = draw_order_upto(items, ks, g).len() as int;
            let stride = crate::uniform::spec_padded_stride(align);
            let p = base + j;
            &&& p < draw_order(items).len()
            &&& draw_order(items)[p] == grp[j]
            &&& stride >= 64
            &&& stride % (align as int) == 0
            &&& (grp[j].rendered ==> group_cmds(grp.take(j + 1), base, stride) == group_cmds(
                grp.take(j),
                base,
                stride,
            ) + seq![
                DrawCommand::BindUniformDescriptors { dynamic_offset: (p * stride) as u32 },
                DrawCommand::DrawIndexed {
                    first_index: grp[j].first_index,
                    index_count: grp[j].index_count,
                },
            ])
            &&& (!grp[j].rendered ==> group_cmds(grp.take(j + 1), base, stride) == group_cmds(
                grp.take(j),
                base,
                stride,
            ))
        }),
{
    let ks = sorted_distinct_keys(items);
    let grp = matching_items(items, ks[g]);
    let base = draw_order_upto(items, ks, g).len() as int;
    let stride = crate::uniform::spec_padded_stride(align);
    lemma_draw_order_index(items, ks, g, ks.len() as int, j);
    crate::uniform::lemma_padded_stride_props(align);
    lemma_group_slot_offsets(grp, base, stride, j);
}

} // verus!
