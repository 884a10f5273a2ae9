use vstd::prelude::*;
use crate::mem::{
    PAGE_SIZE, PTE_SIZE, PAGE_V, word_at, write_word, zero_range, vpn1, vpn0, table_pte, leaf_pte,
    pte_target, dir_entry_addr, leaf_entry_addr, translate, map_page_spec, map_page_ok,
    map_range_spec, map_range_ok, lemma_index_bounds,
};

verus! {

/// Sv32 entries hold a 22-bit page number, so tables lie below 2^34.
pub open spec fn phys_limit() -> int {
    0x4_0000_0000
}

/// The word of entry `k` of the table at `t1`.
pub open spec fn dir_word(m: spec_fn(usize) -> u8, t1: usize, k: int) -> usize {
    word_at(m, (t1 + k * PTE_SIZE) as usize)
}

/// The table at `t1` and the second-level tables that its valid entries point to
/// each fill a page of their own below `next`: the second-level tables lie above
/// `t1`, and no two entries point to the same one.
pub open spec fn table_tree_ok(m: spec_fn(usize) -> u8, t1: usize, next: usize) -> bool {
    &&& t1 % PAGE_SIZE == 0
    &&& next % PAGE_SIZE == 0
    &&& t1 + PAGE_SIZE <= next
    &&& next <= phys_limit()
    &&& forall|k: int|
        0 <= k < 1024 && #[trigger] dir_word(m, t1, k) & PAGE_V != 0 ==> t1 + PAGE_SIZE <= pte_target(
            dir_word(m, t1, k),
        ) && pte_target(dir_word(m, t1, k)) + PAGE_SIZE <= next
    &&& forall|k1: int, k2: int|
        0 <= k1 < 1024 && 0 <= k2 < 1024 && k1 != k2 && #[trigger] dir_word(m, t1, k1) & PAGE_V != 0
            && #[trigger] dir_word(m, t1, k2) & PAGE_V != 0 ==> pte_target(dir_word(m, t1, k1))
            != pte_target(dir_word(m, t1, k2))
}

/// `a` and `b` select the same pair of entries in a two-level walk.
pub open spec fn same_entries(a: usize, b: usize) -> bool {
    vpn1(a) == vpn1(b) && vpn0(a) == vpn0(b)
}

proof fn lemma_word_write_other(m: spec_fn(usize) -> u8, a: usize, v: usize, b: usize)
    requires
        a + PTE_SIZE <= b || b + PTE_SIZE <= a,
        b + 3 <= usize::MAX,
    ensures
        word_at(write_word(m, a, v), b) == word_at(m, b),
{
    let m2 = write_word(m, a, v);
    assert(m2(b) == m(b));
    assert(m2((b + 1) as usize) == m((b + 1) as usize));
    assert(m2((b + 2) as usize) == m((b + 2) as usize));
    assert(m2((b + 3) as usize) == m((b + 3) as usize));
}

proof fn lemma_word_zero_other(m: spec_fn(usize) -> u8, p: usize, n: usize, b: usize)
    requires
        b + PTE_SIZE <= p || p + n <= b,
        b + 3 <= usize::MAX,
    ensures
        word_at(zero_range(m, p, n), b) == word_at(m, b),
{
    let m2 = zero_range(m, p, n);
    assert(m2(b) == m(b));
    assert(m2((b + 1) as usize) == m((b + 1) as usize));
    assert(m2((b + 2) as usize) == m((b + 2) as usize));
    assert(m2((b + 3) as usize) == m((b + 3) as usize));
}

proof fn lemma_word_zero_inside(m: spec_fn(usize) -> u8, p: usize, n: usize, b: usize)
    requires
        p <= b,
        b + PTE_SIZE <= p + n,
        b + 3 <= usize::MAX,
    ensures
        word_at(zero_range(m, p, n), b) == 0,
{
    let m2 = zero_range(m, p, n);
    assert(m2(b) == 0);
    assert(m2((b + 1) as usize) == 0);
    assert(m2((b + 2) as usize) == 0);
    assert(m2((b + 3) as usize) == 0);
    assert((0u8 as usize) | ((0u8 as usize) << 8usize) | ((0u8 as usize) << 16usize) | ((0u8 as usize)
        << 24usize) == 0) by (bit_vector);
}

/// An entry made for the page-aligned table `p` below the limit points back to `p`.
proof fn lemma_table_pte_target(p: usize)
    requires
        p % PAGE_SIZE == 0,
        p + PAGE_SIZE <= phys_limit(),
    ensures
        (table_pte(p) & 0xffff_ffff) & PAGE_V != 0,
        pte_target(table_pte(p) & 0xffff_ffff) == p,
{
    assert(((((p / 4096) << 10usize) | 1) & 0xffff_ffff) & 1 != 0) by (bit_vector);
    assert(p / 4096 < 0x40_0000);
    let q = p / 4096;
    assert(q < 0x40_0000 ==> ((((q << 10usize) | 1) & 0xffff_ffff) >> 10usize) == q) by (bit_vector);
    assert(q * 4096 == p);
}

/// The conclusions of `lemma_map_page_tree` for the result `r` of mapping `va`.
pub open spec fn map_page_tree_post(
    m: spec_fn(usize) -> u8,
    next: usize,
    t1: usize,
    va: usize,
    pa: usize,
    flags: usize,
    r: (spec_fn(usize) -> u8, usize),
) -> bool {
    &&& table_tree_ok(r.0, t1, r.1)
    &&& r.1 >= next
    &&& translate(r.0, t1, va) == Some(leaf_pte(pa, flags) & 0xffff_ffff)
    &&& forall|va2: usize|
        !same_entries(va2, va) ==> #[trigger] translate(r.0, t1, va2) == translate(m, t1, va2)
}

proof fn lemma_leaf_valid(pa: usize, flags: usize)
    ensures
        leaf_pte(pa, flags) & 0xffff_ffff & PAGE_V != 0,
{
    let v = leaf_pte(pa, flags);
    assert(v & 0xffff_ffff & 1 != 0) by (bit_vector)
        requires
            v == ((pa / 4096) << 10usize) | flags | 1,
    ;
}

proof fn lemma_target_aligned(e: usize)
    ensures
        pte_target(e) % (PAGE_SIZE as int) == 0,
{
    vstd::arithmetic::div_mod::lemma_mod_multiples_basic((e >> 10usize) as int, 4096);
}

/// Walk of another address after a leaf write into an existing second-level table.
proof fn lemma_other_walk_valid_dir(
    m: spec_fn(usize) -> u8,
    next: usize,
    t1: usize,
    va: usize,
    v: usize,
    va2: usize,
)
    requires
        table_tree_ok(m, t1, next),
        word_at(m, dir_entry_addr(t1, va) as usize) & PAGE_V != 0,
        !same_entries(va2, va),
    ensures
        translate(write_word(m, leaf_entry_addr(word_at(m, dir_entry_addr(t1, va) as usize), va) as usize, v), t1, va2)
            == translate(m, t1, va2),
{
    lemma_index_bounds(va);
    lemma_index_bounds(va2);
    let e = word_at(m, dir_entry_addr(t1, va) as usize);
    assert(dir_word(m, t1, vpn1(va) as int) == e);
    let lt = pte_target(e);
    let leaf = leaf_entry_addr(e, va) as usize;
    let m2 = write_word(m, leaf, v);
    let d2 = dir_entry_addr(t1, va2) as usize;
    lemma_word_write_other(m, leaf, v, d2);
    let e2 = word_at(m, d2);
    if e2 & PAGE_V != 0 {
        assert(dir_word(m, t1, vpn1(va2) as int) == e2);
        let leaf2 = leaf_entry_addr(e2, va2) as usize;
        if vpn1(va2) != vpn1(va) {
            assert(pte_target(e2) != lt);
            lemma_target_aligned(e2);
            lemma_target_aligned(e);
            assert(pte_target(e2) + PAGE_SIZE <= lt || lt + PAGE_SIZE <= pte_target(e2));
        }
        lemma_word_write_other(m, leaf, v, leaf2);
    }
}

proof fn lemma_map_valid_dir(
    m: spec_fn(usize) -> u8,
    next: usize,
    t1: usize,
    va: usize,
    pa: usize,
    flags: usize,
)
    requires
        table_tree_ok(m, t1, next),
        map_page_ok(m, next, t1, va, pa),
        word_at(m, dir_entry_addr(t1, va) as usize) & PAGE_V != 0,
    ensures
        map_page_tree_post(m, next, t1, va, pa, flags, map_page_spec(m, next, t1, va, pa, flags)),
{
    lemma_index_bounds(va);
    lemma_leaf_valid(pa, flags);
    let r = map_page_spec(m, next, t1, va, pa, flags);
    let d = dir_entry_addr(t1, va) as usize;
    let e = word_at(m, d);
    let v = leaf_pte(pa, flags);
    assert(dir_word(m, t1, vpn1(va) as int) == e);
    let leaf = leaf_entry_addr(e, va) as usize;
    let m2 = write_word(m, leaf, v);
    assert(r.0 == m2);
    crate::mem::lemma_word_write_read(m, leaf, v);
    assert forall|k: int| 0 <= k < 1024 implies dir_word(m2, t1, k) == dir_word(m, t1, k) by {
        lemma_word_write_other(m, leaf, v, (t1 + k * PTE_SIZE) as usize);
    }
    assert(table_tree_ok(m2, t1, next));
    lemma_word_write_other(m, leaf, v, d);
    assert forall|va2: usize| !same_entries(va2, va) implies #[trigger] translate(m2, t1, va2)
        == translate(m, t1, va2) by {
        lemma_other_walk_valid_dir(m, next, t1, va, v, va2);
    }
}

/// Walk of another address after a new second-level table was made for `va`.
proof fn lemma_other_walk_fresh_dir(
    m: spec_fn(usize) -> u8,
    next: usize,
    t1: usize,
    va: usize,
    v: usize,
    va2: usize,
)
    requires
        table_tree_ok(m, t1, next),
        next + PAGE_SIZE <= phys_limit(),
        word_at(m, dir_entry_addr(t1, va) as usize) & PAGE_V == 0,
        !same_entries(va2, va),
    ensures
        ({
            let d = dir_entry_addr(t1, va) as usize;
            let m1 = write_word(zero_range(m, next, PAGE_SIZE), d, table_pte(next));
            translate(write_word(m1, (next + vpn0(va) * PTE_SIZE) as usize, v), t1, va2) == translate(m, t1, va2)
        }),
{
    lemma_index_bounds(va);
    lemma_index_bounds(va2);
    let p = next;
    let d = dir_entry_addr(t1, va) as usize;
    let m0 = zero_range(m, p, PAGE_SIZE);
    let m1 = write_word(m0, d, table_pte(p));
    let leaf = (p + vpn0(va) * PTE_SIZE) as usize;
    let m2 = write_word(m1, leaf, v);
    lemma_table_pte_target(p);
    crate::mem::lemma_word_write_read(m0, d, table_pte(p));
    let e1 = word_at(m1, d);
    let d2 = dir_entry_addr(t1, va2) as usize;
    if vpn1(va2) == vpn1(va) {
        let leaf2 = (p + vpn0(va2) * PTE_SIZE) as usize;
        assert(leaf_entry_addr(e1, va2) == leaf2);
        lemma_word_zero_inside(m, p, PAGE_SIZE, leaf2);
        lemma_word_write_other(m0, d, table_pte(p), leaf2);
        lemma_word_write_other(m1, leaf, v, leaf2);
        lemma_word_write_other(m1, leaf, v, d);
        assert(d2 == d);
        assert(word_at(m2, d2) == e1);
        assert(0usize & 1usize == 0) by (bit_vector);
    } else {
        let e2 = word_at(m, d2);
        lemma_word_zero_other(m, p, PAGE_SIZE, d2);
        lemma_word_write_other(m0, d, table_pte(p), d2);
        lemma_word_write_other(m1, leaf, v, d2);
        if e2 & PAGE_V != 0 {
            assert(dir_word(m, t1, vpn1(va2) as int) == e2);
            let leaf2 = leaf_entry_addr(e2, va2) as usize;
            lemma_word_zero_other(m, p, PAGE_SIZE, leaf2);
            lemma_word_write_other(m0, d, table_pte(p), leaf2);
            lemma_word_write_other(m1, leaf, v, leaf2);
        }
    }
}

proof fn lemma_map_fresh_dir(
    m: spec_fn(usize) -> u8,
    next: usize,
    t1: usize,
    va: usize,
    pa: usize,
    flags: usize,
)
    requires
        table_tree_ok(m, t1, next),
        map_page_ok(m, next, t1, va, pa),
        word_at(m, dir_entry_addr(t1, va) as usize) & PAGE_V == 0,
        next + PAGE_SIZE <= phys_limit(),
    ensures
        map_page_tree_post(m, next, t1, va, pa, flags, map_page_spec(m, next, t1, va, pa, flags)),
{
    lemma_index_bounds(va);
    lemma_leaf_valid(pa, flags);
    let r = map_page_spec(m, next, t1, va, pa, flags);
    let d = dir_entry_addr(t1, va) as usize;
    let v = leaf_pte(pa, flags);
    let p = next;
    let m0 = zero_range(m, p, PAGE_SIZE);
    let m1 = write_word(m0, d, table_pte(p));
    lemma_table_pte_target(p);
    crate::mem::lemma_word_write_read(m0, d, table_pte(p));
    let e1 = word_at(m1, d);
    let leaf = (p + vpn0(va) * PTE_SIZE) as usize;
    assert(leaf_entry_addr(e1, va) == leaf);
    let m2 = write_word(m1, leaf, v);
    assert(r.0 == m2);
    assert(r.1 == p + PAGE_SIZE);
    crate::mem::lemma_word_write_read(m1, leaf, v);
    assert forall|k: int| 0 <= k < 1024 && k != vpn1(va) implies dir_word(m2, t1, k) == dir_word(m, t1, k) by {
        let a = (t1 + k * PTE_SIZE) as usize;
        lemma_word_zero_other(m, p, PAGE_SIZE, a);
        lemma_word_write_other(m0, d, table_pte(p), a);
        lemma_word_write_other(m1, leaf, v, a);
    }
    lemma_word_write_other(m1, leaf, v, d);
    assert(dir_word(m2, t1, vpn1(va) as int) == e1);
    assert(table_tree_ok(m2, t1, (p + PAGE_SIZE) as usize));
    assert forall|va2: usize| !same_entries(va2, va) implies #[trigger] translate(m2, t1, va2)
        == translate(m, t1, va2) by {
        lemma_other_walk_fresh_dir(m, next, t1, va, v, va2);
    }
}

/// Mapping one page keeps the tables well placed, makes the walk of `va` end in
/// the new leaf entry, and leaves the walk of every address that uses other
/// entries as it was.
pub proof fn lemma_map_page_tree(
    m: spec_fn(usize) -> u8,
    next: usize,
    t1: usize,
    va: usize,
    pa: usize,
    flags: usize,
)
    requires
        table_tree_ok(m, t1, next),
        map_page_ok(m, next, t1, va, pa),
        map_page_spec(m, next, t1, va, pa, flags).1 <= phys_limit(),
    ensures
        map_page_tree_post(m, next, t1, va, pa, flags, map_page_spec(m, next, t1, va, pa, flags)),
{
    if word_at(m, dir_entry_addr(t1, va) as usize) & PAGE_V != 0 {
        lemma_map_valid_dir(m, next, t1, va, pa, flags);
    } else {
        lemma_map_fresh_dir(m, next, t1, va, pa, flags);
    }
}

/// Two addresses a whole number of pages apart, less than 4 GiB apart, use
/// different entries.
proof fn lemma_pages_use_distinct_entries(a: usize, b: usize)
    requires
        a < b,
        b - a < 0x1_0000_0000,
        (b - a) % (PAGE_SIZE as int) == 0,
    ensures
        !same_entries(a, b),
{
    assert(a < b && (b - a) % 4096 == 0 ==> a & 0xfff == b & 0xfff) by (bit_vector);
    assert(a < b && b - a < 0x1_0000_0000 && a & 0xfff == b & 0xfff && (a >> 22usize) & 0x3ff == (b
        >> 22usize) & 0x3ff ==> (a >> 12usize) & 0x3ff != (b >> 12usize) & 0x3ff) by (bit_vector);
}

/// `va` is one of the pages that the mapping loop visits: from `start` on, in
/// steps of a page, below `end`.
pub open spec fn in_page_range(va: usize, start: usize, end: usize) -> bool {
    start <= va < end && (va - start) % (PAGE_SIZE as int) == 0
}

/// `va` uses no entry that a page of the range uses.
pub open spec fn avoids_range(va: usize, start: usize, end: usize) -> bool {
    forall|w: usize| #[trigger] in_page_range(w, start, end) ==> !same_entries(va, w)
}

/// The mapping loop only ever moves the allocator forward.
pub proof fn lemma_map_range_next_grows(
    m: spec_fn(usize) -> u8,
    next: usize,
    t1: usize,
    start: usize,
    end: usize,
    flags: usize,
)
    requires
        map_range_ok(m, next, t1, start, end, flags),
    ensures
        map_range_spec(m, next, t1, start, end, flags).1 >= next,
    decreases usize::MAX - start,
{
    if start < end {
        let r = map_page_spec(m, next, t1, start, start, flags);
        lemma_map_range_next_grows(r.0, r.1, t1, (start + PAGE_SIZE) as usize, end, flags);
    }
}

proof fn lemma_range_step(
    m: spec_fn(usize) -> u8,
    m1: spec_fn(usize) -> u8,
    r0: spec_fn(usize) -> u8,
    t1: usize,
    start: usize,
    end: usize,
    flags: usize,
)
    requires
        start < end,
        start + PAGE_SIZE <= usize::MAX,
        end <= start + 0x1_0000_0000,
        translate(m1, t1, start) == Some(leaf_pte(start, flags) & 0xffff_ffff),
        forall|va: usize| !same_entries(va, start) ==> #[trigger] translate(m1, t1, va) == translate(m, t1, va),
        forall|va: usize|
            in_page_range(va, (start + PAGE_SIZE) as usize, end) ==> #[trigger] translate(r0, t1, va)
                == Some(leaf_pte(va, flags) & 0xffff_ffff),
        forall|va: usize|
            avoids_range(va, (start + PAGE_SIZE) as usize, end) ==> #[trigger] translate(r0, t1, va)
                == translate(m1, t1, va),
    ensures
        forall|va: usize|
            in_page_range(va, start, end) ==> #[trigger] translate(r0, t1, va) == Some(
                leaf_pte(va, flags) & 0xffff_ffff,
            ),
        forall|va: usize| avoids_range(va, start, end) ==> #[trigger] translate(r0, t1, va) == translate(m, t1, va),
{
    let s2 = (start + PAGE_SIZE) as usize;
    assert forall|w: usize| #[trigger] in_page_range(w, s2, end) implies !same_entries(start, w) by {
        lemma_pages_use_distinct_entries(start, w);
    }
    assert(avoids_range(start, s2, end));
    assert forall|va: usize| in_page_range(va, start, end) implies #[trigger] translate(r0, t1, va)
        == Some(leaf_pte(va, flags) & 0xffff_ffff) by {
        if va != start {
            assert(in_page_range(va, s2, end));
        }
    }
    assert forall|va: usize| avoids_range(va, start, end) implies #[trigger] translate(r0, t1, va)
        == translate(m, t1, va) by {
        assert(in_page_range(start, start, end));
        assert(!same_entries(va, start));
        assert forall|w: usize| #[trigger] in_page_range(w, s2, end) implies !same_entries(va, w) by {
            assert(in_page_range(w, start, end));
        }
        assert(avoids_range(va, s2, end));
    }
}

/// The mapping loop keeps the tables well placed, makes every page of the range
/// map to itself with `flags`, and leaves the walk of every address that uses
/// other entries as it was; provided the range spans at most 4 GiB and the
/// tables stay below the Sv32 limit.
pub proof fn lemma_map_range_tree(
    m: spec_fn(usize) -> u8,
    next: usize,
    t1: usize,
    start: usize,
    end: usize,
    flags: usize,
)
    requires
        table_tree_ok(m, t1, next),
        map_range_ok(m, next, t1, start, end, flags),
        map_range_spec(m, next, t1, start, end, flags).1 <= phys_limit(),
        end <= start + 0x1_0000_0000,
    ensures
        ({
            let r = map_range_spec(m, next, t1, start, end, flags);
            &&& table_tree_ok(r.0, t1, r.1)
            &&& r.1 >= next
            &&& forall|va: usize|
                in_page_range(va, start, end) ==> #[trigger] translate(r.0, t1, va) == Some(
                    leaf_pte(va, flags) & 0xffff_ffff,
                )
            &&& forall|va: usize|
                avoids_range(va, start, end) ==> #[trigger] translate(r.0, t1, va) == translate(
                    m,
                    t1,
                    va,
                )
        }),
    decreases usize::MAX - start,
{
    lemma_map_range_next_grows(m, next, t1, start, end, flags);
    if start < end {
        let s2 = (start + PAGE_SIZE) as usize;
        let r1 = map_page_spec(m, next, t1, start, start, flags);
        lemma_map_range_next_grows(r1.0, r1.1, t1, s2, end, flags);
        lemma_map_page_tree(m, next, t1, start, start, flags);
        lemma_map_range_tree(r1.0, r1.1, t1, s2, end, flags);
        let r = map_range_spec(r1.0, r1.1, t1, s2, end, flags);
        lemma_range_step(m, r1.0, r.0, t1, start, end, flags);
    }
}

} // verus!
