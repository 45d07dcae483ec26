//! The fixed-size slotted page: a 4096-byte buffer holding a header, a slot
//! directory growing forward from the header, and a tuple-data region growing
//! backward from the end of the buffer.
//!
//! Every operation works directly on the raw bytes; the specification layer
//! below interprets those bytes (all multi-byte fields are little-endian).

use vstd::arithmetic::div_mod::lemma_div_pos_is_pos;
use vstd::arithmetic::div_mod::lemma_fundamental_div_mod;
use vstd::prelude::*;

verus! {

/// Size of the page header in bytes.
pub const HEADER_SIZE: usize = 16;

/// Size of a page in bytes.
pub const PAGE_SIZE: usize = 4096;

/// Size of one slot-directory entry in bytes: a 2-byte tuple offset
/// followed by a 2-byte tuple length.
pub const SLOT_SIZE: usize = 4;

// ---------------------------------------------------------------------------
// Specification model: how a sequence of bytes is read as a page.
// ---------------------------------------------------------------------------

/// The 16-bit little-endian integer stored at byte positions `i` and `i + 1`.
pub open spec fn le16(s: Seq<u8>, i: int) -> int {
    s[i] + 256 * s[i + 1]
}

/// The page identity, stored little-endian in bytes `[0, 4)`.
pub open spec fn spec_page_id(s: Seq<u8>) -> int {
    le16(s, 0) + 0x10000 * le16(s, 2)
}

/// The free-space count, stored in bytes `[4, 6)`.
pub open spec fn spec_free_total(s: Seq<u8>) -> int {
    le16(s, 4)
}

/// The first byte after the slot directory, stored in bytes `[6, 8)`.
pub open spec fn spec_begin(s: Seq<u8>) -> int {
    le16(s, 6)
}

/// The first byte of the tuple-data region, stored in bytes `[8, 10)`.
pub open spec fn spec_end(s: Seq<u8>) -> int {
    le16(s, 8)
}

/// How many slots the directory currently holds.
pub open spec fn spec_num_slots(s: Seq<u8>) -> int {
    (spec_begin(s) - 16) / 4
}

/// The byte position of the directory entry for slot `id`.
pub open spec fn spec_slot_pos(id: int) -> int {
    16 + 4 * id
}

/// The tuple offset recorded in the directory entry for slot `id`.
pub open spec fn spec_slot_offset(s: Seq<u8>, id: int) -> int {
    le16(s, spec_slot_pos(id))
}

/// The tuple length recorded in the directory entry for slot `id`.
pub open spec fn spec_slot_len(s: Seq<u8>, id: int) -> int {
    le16(s, spec_slot_pos(id) + 2)
}

/// A slot is live when its recorded range lies inside the page and past the
/// slot directory.  A deleted slot records offset 0, which points into the
/// header and is therefore never live.
pub open spec fn slot_live(s: Seq<u8>, id: int) -> bool {
    &&& spec_slot_offset(s, id) >= spec_begin(s)
    &&& spec_slot_offset(s, id) + spec_slot_len(s, id) <= 4096
}

/// The bytes of the tuple recorded by slot `id`.
pub open spec fn spec_tuple_bytes(s: Seq<u8>, id: int) -> Seq<u8> {
    s.subrange(spec_slot_offset(s, id), spec_slot_offset(s, id) + spec_slot_len(s, id))
}

/// The length slot `id` contributes to the page's occupancy: its recorded
/// length if it is live, nothing if it is deleted or invalid.
pub open spec fn live_len(s: Seq<u8>, id: int) -> int {
    if slot_live(s, id) {
        spec_slot_len(s, id)
    } else {
        0
    }
}

/// Total length of the live tuples recorded by slots `[0, n)`.
pub open spec fn sum_live(s: Seq<u8>, n: int) -> int
    decreases n,
{
    if n <= 0 {
        0
    } else {
        sum_live(s, n - 1) + live_len(s, n - 1)
    }
}

/// The ranges recorded by slots `i` and `j` do not overlap.
pub open spec fn slots_disjoint(s: Seq<u8>, i: int, j: int) -> bool {
    ||| spec_slot_offset(s, i) + spec_slot_len(s, i) <= spec_slot_offset(s, j)
    ||| spec_slot_offset(s, j) + spec_slot_len(s, j) <= spec_slot_offset(s, i)
}

/// Well-formedness of a page image:
/// - exactly 4096 bytes;
/// - header, slot directory and data region partition the buffer in order:
///   `16 <= begin <= end <= 4096`, with the directory a whole number of
///   4-byte entries;
/// - the free-space count never exceeds what the buffer can still absorb:
///   everything past the directory, minus the bytes held by live tuples
///   (the count may fall short of that after deletes, whose space is only
///   reclaimed by compaction);
/// - live tuples lie entirely within the data region `[end, 4096)`;
/// - live tuples do not overlap one another.
pub open spec fn page_wf(s: Seq<u8>) -> bool {
    &&& s.len() == 4096
    &&& 16 <= spec_begin(s)
    &&& spec_begin(s) <= spec_end(s)
    &&& spec_end(s) <= 4096
    &&& (spec_begin(s) - 16) % 4 == 0
    &&& spec_free_total(s) + sum_live(s, spec_num_slots(s)) <= 4096 - spec_begin(s)
    &&& forall|id: int|
        0 <= id < spec_num_slots(s) && slot_live(s, id) ==> #[trigger] spec_slot_offset(s, id)
            >= spec_end(s)
    &&& forall|i: int, j: int|
        0 <= i < spec_num_slots(s) && 0 <= j < spec_num_slots(s) && i != j && slot_live(s, i)
            && slot_live(s, j) ==> #[trigger] slots_disjoint(s, i, j)
}

/// What reading slot `id` yields: the tuple bytes if the slot is inside the
/// directory and live, the precise error otherwise.
pub open spec fn spec_get_data(s: Seq<u8>, id: int) -> Result<Seq<u8>, PageError> {
    if !(0 <= id < spec_num_slots(s)) {
        Err(PageError::InvalidSlot)
    } else if !slot_live(s, id) {
        Err(PageError::TupleNotFound)
    } else {
        Ok(spec_tuple_bytes(s, id))
    }
}

// ---------------------------------------------------------------------------
// Lemmas about the occupancy sum.
// ---------------------------------------------------------------------------

/// The occupancy sum is never negative.
pub proof fn lemma_sum_live_nonneg(s: Seq<u8>, n: int)
    ensures
        sum_live(s, n) >= 0,
    decreases n,
{
    if n > 0 {
        lemma_sum_live_nonneg(s, n - 1);
    }
}

/// Two page images whose slots `[0, n)` contribute the same lengths have the
/// same occupancy sum.
pub proof fn lemma_sum_live_congruent(s1: Seq<u8>, s2: Seq<u8>, n: int)
    requires
        forall|id: int| 0 <= id < n ==> #[trigger] live_len(s2, id) == live_len(s1, id),
    ensures
        sum_live(s2, n) == sum_live(s1, n),
    decreases n,
{
    if n > 0 {
        lemma_sum_live_congruent(s1, s2, n - 1);
    }
}

/// If every slot of `s2` contributes at most what it contributes in `s1`,
/// the occupancy sum cannot grow.
pub proof fn lemma_sum_live_le(s1: Seq<u8>, s2: Seq<u8>, n: int)
    requires
        forall|id: int| 0 <= id < n ==> #[trigger] live_len(s2, id) <= live_len(s1, id),
    ensures
        sum_live(s2, n) <= sum_live(s1, n),
    decreases n,
{
    if n > 0 {
        lemma_sum_live_le(s1, s2, n - 1);
    }
}

/// When exactly one slot's contribution changes, the occupancy sum moves by
/// exactly that slot's difference.
pub proof fn lemma_sum_live_update(s1: Seq<u8>, s2: Seq<u8>, n: int, id: int)
    requires
        0 <= id < n,
        forall|j: int| 0 <= j < n && j != id ==> #[trigger] live_len(s2, j) == live_len(s1, j),
    ensures
        sum_live(s2, n) == sum_live(s1, n) - live_len(s1, id) + live_len(s2, id),
    decreases n,
{
    if id == n - 1 {
        lemma_sum_live_congruent(s1, s2, n - 1);
    } else {
        lemma_sum_live_update(s1, s2, n - 1, id);
    }
}

/// Each slot's contribution is bounded by the occupancy sum over any prefix
/// that contains it.
pub proof fn lemma_sum_live_bound(s: Seq<u8>, n: int, id: int)
    requires
        0 <= id < n,
    ensures
        sum_live(s, n) >= live_len(s, id),
    decreases n,
{
    lemma_sum_live_nonneg(s, n - 1);
    if id < n - 1 {
        lemma_sum_live_bound(s, n - 1, id);
    }
}

/// A well-formed page's free-space count never exceeds the space past the
/// slot directory.
pub proof fn lemma_free_total_bounded(s: Seq<u8>)
    requires
        page_wf(s),
    ensures
        spec_free_total(s) <= 4096 - spec_begin(s),
        spec_free_total(s) <= 4080,
{
    lemma_sum_live_nonneg(s, spec_num_slots(s));
}

// ---------------------------------------------------------------------------
// Specification model: how the operations rewrite the bytes.
// ---------------------------------------------------------------------------

/// `s` with the 16-bit value `x` stored little-endian at positions `i`, `i + 1`.
pub open spec fn store_le16(s: Seq<u8>, i: int, x: u16) -> Seq<u8> {
    s.update(i, (x as int % 256) as u8).update(i + 1, (x as int / 256) as u8)
}

/// `s` with the bytes of `t` stored at positions `[i, i + t.len())`.
pub open spec fn store_bytes(s: Seq<u8>, i: int, t: Seq<u8>) -> Seq<u8> {
    Seq::new(s.len(), |j: int| if i <= j < i + t.len() { t[j - i] } else { s[j] })
}

/// An insert of tuple `t` succeeds exactly when the free-space count and the
/// gap between the slot directory and the data region both absorb the tuple
/// plus one new 4-byte directory entry.
pub open spec fn spec_insert_ok(s: Seq<u8>, t: Seq<u8>) -> bool {
    &&& t.len() + 4 <= spec_free_total(s)
    &&& t.len() + 4 <= spec_end(s) - spec_begin(s)
}

/// The page image after a successful insert of tuple `t`: a new directory
/// entry at `begin` pointing at the bytes of `t`, written immediately before
/// the old data region, and the header moved inward on both sides.
pub open spec fn spec_insert(s: Seq<u8>, t: Seq<u8>) -> Seq<u8> {
    let begin = spec_begin(s);
    let new_end = spec_end(s) - t.len();
    let s1 = store_le16(s, begin, new_end as u16);
    let s2 = store_le16(s1, begin + 2, t.len() as u16);
    let s3 = store_bytes(s2, new_end, t);
    let s4 = store_le16(s3, 4, (spec_free_total(s) - t.len() - 4) as u16);
    let s5 = store_le16(s4, 6, (begin + 4) as u16);
    store_le16(s5, 8, new_end as u16)
}

/// Why an update of slot `id` with tuple `t` would fail, if it would:
/// unknown slots are `InvalidSlot`, deleted or inconsistent slots are
/// `TupleNotFound`, and a growing update that neither the free-space count
/// nor the directory/data gap can absorb is `NotEnoughSpace`.
pub open spec fn spec_update_err(s: Seq<u8>, id: int, t: Seq<u8>) -> Option<PageError> {
    if !(0 <= id < spec_num_slots(s)) {
        Some(PageError::InvalidSlot)
    } else if !slot_live(s, id) {
        Some(PageError::TupleNotFound)
    } else if t.len() > spec_slot_len(s, id) && (t.len() > spec_free_total(s) || t.len()
        > spec_end(s) - spec_begin(s)) {
        Some(PageError::NotEnoughSpace)
    } else {
        None
    }
}

/// The page image after an update that fits in the tuple's old place: the
/// new bytes overwrite the old at the same offset, the slot's recorded
/// length shrinks to the new length, and the free-space count is credited
/// with the difference.  The abandoned tail bytes stay in place until
/// compaction.
pub open spec fn spec_update_inplace(s: Seq<u8>, id: int, t: Seq<u8>) -> Seq<u8> {
    let off = spec_slot_offset(s, id);
    let s1 = store_bytes(s, off, t);
    let s2 = store_le16(s1, spec_slot_pos(id) + 2, t.len() as u16);
    let s3 = store_le16(s2, 4, (spec_free_total(s) + spec_slot_len(s, id) - t.len()) as u16);
    let s4 = store_le16(s3, 6, spec_begin(s) as u16);
    store_le16(s4, 8, spec_end(s) as u16)
}

/// The page image after a growing update: the new bytes are carved from the
/// free region immediately before the data region, the slot entry is
/// rewritten to the new location and length, the data region advances over
/// the carved bytes, and the free-space count is debited by the signed
/// length delta.  The old bytes are abandoned in place until compaction.
pub open spec fn spec_update_relocate(s: Seq<u8>, id: int, t: Seq<u8>) -> Seq<u8> {
    let new_off = spec_end(s) - t.len();
    let s1 = store_bytes(s, new_off, t);
    let s2 = store_le16(s1, spec_slot_pos(id), new_off as u16);
    let s3 = store_le16(s2, spec_slot_pos(id) + 2, t.len() as u16);
    let s4 = store_le16(s3, 4, (spec_free_total(s) - (t.len() - spec_slot_len(s, id))) as u16);
    let s5 = store_le16(s4, 6, spec_begin(s) as u16);
    store_le16(s5, 8, new_off as u16)
}

/// The page image after a successful update of slot `id` with tuple `t`: in
/// place when the tuple did not grow, relocated otherwise.
pub open spec fn spec_update(s: Seq<u8>, id: int, t: Seq<u8>) -> Seq<u8> {
    if t.len() <= spec_slot_len(s, id) {
        spec_update_inplace(s, id, t)
    } else {
        spec_update_relocate(s, id, t)
    }
}

/// The page image after deleting slot `id`: its directory entry becomes
/// `(0, 0)` — offset 0 points into the header, the sentinel for a deleted
/// tuple.  Nothing else changes: the tuple bytes stay in place, the header
/// is untouched.
pub open spec fn spec_delete(s: Seq<u8>, id: int) -> Seq<u8> {
    store_le16(store_le16(s, spec_slot_pos(id), 0), spec_slot_pos(id) + 2, 0)
}

/// Storing a 16-bit value and reading it back yields the value; bytes at
/// other positions are untouched.
pub proof fn lemma_store_le16(s: Seq<u8>, i: int, x: u16)
    requires
        0 <= i,
        i + 2 <= s.len(),
    ensures
        store_le16(s, i, x).len() == s.len(),
        le16(store_le16(s, i, x), i) == x,
        forall|j: int| 0 <= j < s.len() && j != i && j != i + 1 ==> store_le16(s, i, x)[j] == s[j],
{
    lemma_fundamental_div_mod(x as int, 256);
}

/// A successful insert preserves well-formedness, moves the header fields by
/// exactly the advertised amounts, appends one live slot holding the new
/// tuple's bytes, and leaves every existing slot — entry, liveness and tuple
/// bytes — untouched.
pub proof fn lemma_insert_wf(s: Seq<u8>, t: Seq<u8>)
    requires
        page_wf(s),
        spec_insert_ok(s, t),
    ensures
        ({
            let r = spec_insert(s, t);
            let n = spec_num_slots(s);
            &&& page_wf(r)
            &&& r.len() == 4096
            &&& spec_page_id(r) == spec_page_id(s)
            &&& spec_free_total(r) == spec_free_total(s) - t.len() - 4
            &&& spec_begin(r) == spec_begin(s) + 4
            &&& spec_end(r) == spec_end(s) - t.len()
            &&& spec_num_slots(r) == n + 1
            &&& spec_slot_offset(r, n) == spec_end(s) - t.len()
            &&& spec_slot_len(r, n) == t.len()
            &&& slot_live(r, n)
            &&& spec_tuple_bytes(r, n) == t
            &&& forall|id: int|
                0 <= id < n ==> #[trigger] spec_slot_offset(r, id) == spec_slot_offset(s, id)
                    && spec_slot_len(r, id) == spec_slot_len(s, id) && (slot_live(r, id)
                    <==> slot_live(s, id))
            &&& forall|id: int|
                0 <= id < n && slot_live(s, id) ==> #[trigger] spec_tuple_bytes(r, id)
                    == spec_tuple_bytes(s, id)
        }),
{
    let n = spec_num_slots(s);
    let begin = spec_begin(s);
    let end = spec_end(s);
    let free = spec_free_total(s);
    let len = t.len() as int;
    let new_end = end - len;
    let s1 = store_le16(s, begin, new_end as u16);
    let s2 = store_le16(s1, begin + 2, t.len() as u16);
    let s3 = store_bytes(s2, new_end, t);
    let s4 = store_le16(s3, 4, (free - len - 4) as u16);
    let s5 = store_le16(s4, 6, (begin + 4) as u16);
    let r = store_le16(s5, 8, new_end as u16);

    lemma_sum_live_nonneg(s, n);
    lemma_fundamental_div_mod(begin - 16, 4);
    assert(begin - 16 == 4 * n);

    lemma_store_le16(s, begin, new_end as u16);
    lemma_store_le16(s1, begin + 2, t.len() as u16);
    lemma_store_le16(s3, 4, (free - len - 4) as u16);
    lemma_store_le16(s4, 6, (begin + 4) as u16);
    lemma_store_le16(s5, 8, new_end as u16);

    // Bytes below the header's mutable fields, between the directory and the
    // new slot entry, and in the old data region are untouched.
    assert(forall|j: int|
        0 <= j < 4096 && j != begin && j != begin + 1 && j != begin + 2 && j != begin + 3 && !(
        new_end <= j < end) && j != 4 && j != 5 && j != 6 && j != 7 && j != 8 && j != 9
            ==> r[j] == s[j]);
    // The new directory entry survives the later writes.
    assert(le16(r, begin) == new_end);
    assert(le16(r, begin + 2) == t.len());
    // Header fields of the result.
    assert(spec_free_total(r) == free - len - 4);
    assert(spec_begin(r) == begin + 4);
    assert(spec_end(r) == new_end);
    assert(spec_page_id(r) == spec_page_id(s));

    // The directory grew by exactly one entry.
    assert(spec_num_slots(r) == n + 1) by {
        lemma_fundamental_div_mod(begin + 4 - 16, 4);
        assert((4 * (n + 1)) % 4 == 0) by (nonlinear_arith);
        assert((4 * (n + 1)) / 4 == n + 1) by (nonlinear_arith);
    }

    // Existing directory entries are byte-identical.
    assert forall|id: int| 0 <= id < n implies #[trigger] spec_slot_offset(r, id)
        == spec_slot_offset(s, id) && spec_slot_len(r, id) == spec_slot_len(s, id) by {
        assert(16 + 4 * id + 4 <= begin) by (nonlinear_arith)
            requires
                0 <= id < n,
                begin - 16 == 4 * n,
        ;
    }
    // Their liveness is also unchanged: live slots sit at or past `end`,
    // dead ones stay dead because `begin` only grew.
    assert forall|id: int| 0 <= id < n implies (slot_live(r, id) <==> slot_live(s, id)) by {
        if slot_live(s, id) {
            assert(spec_slot_offset(s, id) >= spec_end(s));
        }
    }
    // The new slot's entry: position `begin` is exactly entry `n`.
    assert(spec_slot_pos(n) == begin);
    assert(spec_slot_offset(r, n) == new_end);
    assert(spec_slot_len(r, n) == t.len());
    assert(slot_live(r, n));

    // The new tuple's bytes read back as `t`.
    assert(spec_tuple_bytes(r, n) =~= t) by {
        assert(forall|k: int| 0 <= k < len ==> r[new_end + k] == t[k]);
    }

    // Existing live tuples keep their bytes: their ranges lie in the old
    // data region, which no write touched.
    assert forall|id: int| 0 <= id < n && slot_live(s, id) implies #[trigger] spec_tuple_bytes(
        r,
        id,
    ) == spec_tuple_bytes(s, id) by {
        assert(spec_slot_offset(s, id) >= spec_end(s));
        assert(spec_tuple_bytes(r, id) =~= spec_tuple_bytes(s, id));
    }

    // Occupancy accounting: the sum grew by exactly the new tuple's length.
    assert forall|id: int| 0 <= id < n implies #[trigger] live_len(r, id) == live_len(s, id) by {}
    lemma_sum_live_congruent(s, r, n);
    assert(sum_live(r, n + 1) == sum_live(s, n) + len);

    // Every live slot of the result sits at or past the new data-region
    // start.
    assert forall|id: int| 0 <= id < n + 1 && slot_live(r, id) implies #[trigger] spec_slot_offset(
        r,
        id,
    ) >= spec_end(r) by {
        if id < n {
            assert(spec_slot_offset(s, id) >= spec_end(s));
        }
    }

    // Live tuples of the result still avoid one another.
    assert forall|i: int, j: int|
        0 <= i < n + 1 && 0 <= j < n + 1 && i != j && slot_live(r, i) && slot_live(
            r,
            j,
        ) implies #[trigger] slots_disjoint(r, i, j) by {
        if i < n && j < n {
            assert(slots_disjoint(s, i, j));
        } else if i == n && j < n {
            assert(spec_slot_offset(s, j) >= spec_end(s));
        } else if j == n && i < n {
            assert(spec_slot_offset(s, i) >= spec_end(s));
        }
    }

    assert(page_wf(r));
}

/// Deleting a slot preserves well-formedness and the whole header, kills
/// exactly that slot, and leaves every other slot — entry, liveness and
/// tuple bytes — untouched.
pub proof fn lemma_delete_wf(s: Seq<u8>, id: int)
    requires
        page_wf(s),
        0 <= id < spec_num_slots(s),
    ensures
        ({
            let r = spec_delete(s, id);
            let n = spec_num_slots(s);
            &&& page_wf(r)
            &&& r.len() == 4096
            &&& spec_page_id(r) == spec_page_id(s)
            &&& spec_free_total(r) == spec_free_total(s)
            &&& spec_begin(r) == spec_begin(s)
            &&& spec_end(r) == spec_end(s)
            &&& spec_num_slots(r) == n
            &&& spec_slot_offset(r, id) == 0
            &&& spec_slot_len(r, id) == 0
            &&& !slot_live(r, id)
            &&& forall|j: int|
                0 <= j < n && j != id ==> #[trigger] spec_slot_offset(r, j) == spec_slot_offset(
                    s,
                    j,
                ) && spec_slot_len(r, j) == spec_slot_len(s, j) && (slot_live(r, j) <==> slot_live(
                    s,
                    j,
                ))
            &&& forall|j: int|
                0 <= j < n && j != id && slot_live(s, j) ==> #[trigger] spec_tuple_bytes(r, j)
                    == spec_tuple_bytes(s, j)
        }),
{
    let n = spec_num_slots(s);
    let begin = spec_begin(s);
    let pos = spec_slot_pos(id);
    let s1 = store_le16(s, pos, 0);
    let r = store_le16(s1, pos + 2, 0);

    lemma_fundamental_div_mod(begin - 16, 4);
    assert(begin - 16 == 4 * n);
    assert(pos + 4 <= begin) by (nonlinear_arith)
        requires
            0 <= id < n,
            pos == 16 + 4 * id,
            begin - 16 == 4 * n,
    ;
    lemma_store_le16(s, pos, 0);
    lemma_store_le16(s1, pos + 2, 0);

    assert(forall|j: int|
        0 <= j < 4096 && !(pos <= j < pos + 4) ==> r[j] == s[j]);
    assert(le16(r, pos) == 0);
    assert(le16(r, pos + 2) == 0);

    // Entries of other slots occupy disjoint 4-byte blocks.
    assert forall|j: int| 0 <= j < n && j != id implies #[trigger] spec_slot_offset(r, j)
        == spec_slot_offset(s, j) && spec_slot_len(r, j) == spec_slot_len(s, j) by {
        assert(spec_slot_pos(j) + 4 <= pos || pos + 4 <= spec_slot_pos(j)) by (nonlinear_arith)
            requires
                j != id,
                pos == 16 + 4 * id,
                spec_slot_pos(j) == 16 + 4 * j,
        ;
    }

    // The tuple bytes of other live slots sit in the data region, far from
    // the rewritten directory entry.
    assert forall|j: int| 0 <= j < n && j != id && slot_live(s, j) implies #[trigger] spec_tuple_bytes(
        r,
        j,
    ) == spec_tuple_bytes(s, j) by {
        assert(spec_slot_offset(s, j) >= spec_end(s));
        assert(pos + 4 <= begin);
        assert(spec_tuple_bytes(r, j) =~= spec_tuple_bytes(s, j));
    }

    assert forall|j: int| 0 <= j < n implies #[trigger] live_len(r, j) <= live_len(s, j) by {}
    lemma_sum_live_le(s, r, n);
    lemma_sum_live_nonneg(r, n);

    assert forall|j: int| 0 <= j < n && slot_live(r, j) implies #[trigger] spec_slot_offset(r, j)
        >= spec_end(r) by {
        assert(j != id);
        assert(slot_live(s, j));
        assert(spec_slot_offset(s, j) >= spec_end(s));
    }
    assert forall|i: int, j: int|
        0 <= i < n && 0 <= j < n && i != j && slot_live(r, i) && slot_live(
            r,
            j,
        ) implies #[trigger] slots_disjoint(r, i, j) by {
        assert(i != id && j != id);
        assert(slots_disjoint(s, i, j));
    }
    assert(page_wf(r));
}

/// An in-place update (the tuple did not grow) preserves well-formedness,
/// credits the free-space count with the shed length, keeps both region
/// boundaries, rewrites exactly the updated slot, and leaves every other
/// slot untouched.
pub proof fn lemma_update_inplace_wf(s: Seq<u8>, id: int, t: Seq<u8>)
    requires
        page_wf(s),
        0 <= id < spec_num_slots(s),
        slot_live(s, id),
        t.len() <= spec_slot_len(s, id),
    ensures
        ({
            let r = spec_update_inplace(s, id, t);
            let n = spec_num_slots(s);
            &&& page_wf(r)
            &&& r.len() == 4096
            &&& spec_page_id(r) == spec_page_id(s)
            &&& spec_free_total(r) == spec_free_total(s) + spec_slot_len(s, id) - t.len()
            &&& spec_free_total(s) + spec_slot_len(s, id) - t.len() <= 4080
            &&& spec_begin(r) == spec_begin(s)
            &&& spec_end(r) == spec_end(s)
            &&& spec_num_slots(r) == n
            &&& spec_slot_offset(r, id) == spec_slot_offset(s, id)
            &&& spec_slot_len(r, id) == t.len()
            &&& slot_live(r, id)
            &&& spec_tuple_bytes(r, id) == t
            &&& forall|j: int|
                0 <= j < n && j != id ==> #[trigger] spec_slot_offset(r, j) == spec_slot_offset(
                    s,
                    j,
                ) && spec_slot_len(r, j) == spec_slot_len(s, j) && (slot_live(r, j) <==> slot_live(
                    s,
                    j,
                ))
            &&& forall|j: int|
                0 <= j < n && j != id && slot_live(s, j) ==> #[trigger] spec_tuple_bytes(r, j)
                    == spec_tuple_bytes(s, j)
        }),
{
    let n = spec_num_slots(s);
    let begin = spec_begin(s);
    let end = spec_end(s);
    let free = spec_free_total(s);
    let pos = spec_slot_pos(id);
    let off = spec_slot_offset(s, id);
    let old_len = spec_slot_len(s, id);
    let new_len = t.len() as int;

    lemma_sum_live_nonneg(s, n);
    lemma_sum_live_bound(s, n, id);
    assert(free + old_len <= 4096 - begin);
    lemma_fundamental_div_mod(begin - 16, 4);
    assert(begin - 16 == 4 * n);
    assert(pos + 4 <= begin) by (nonlinear_arith)
        requires
            0 <= id < n,
            pos == 16 + 4 * id,
            begin - 16 == 4 * n,
    ;
    // The slot is live, so its bytes lie in the data region.
    assert(off >= end);

    let s1 = store_bytes(s, off, t);
    let s2 = store_le16(s1, pos + 2, t.len() as u16);
    let s3 = store_le16(s2, 4, (free + old_len - new_len) as u16);
    let s4 = store_le16(s3, 6, begin as u16);
    let r = store_le16(s4, 8, end as u16);

    lemma_store_le16(s1, pos + 2, t.len() as u16);
    lemma_store_le16(s2, 4, (free + old_len - new_len) as u16);
    lemma_store_le16(s3, 6, begin as u16);
    lemma_store_le16(s4, 8, end as u16);

    // Bytes outside the header fields, this slot's length field, and the
    // overwritten tuple prefix are untouched.
    assert(forall|j: int|
        0 <= j < 4096 && !(4 <= j < 10) && !(pos + 2 <= j < pos + 4) && !(off <= j < off
            + new_len) ==> r[j] == s[j]);
    assert(le16(r, pos + 2) == t.len());
    assert(spec_free_total(r) == free + old_len - new_len);
    assert(spec_begin(r) == begin);
    assert(spec_end(r) == end);
    assert(spec_page_id(r) == spec_page_id(s));
    assert(spec_num_slots(r) == n);
    assert(spec_slot_offset(r, id) == off);
    assert(spec_slot_len(r, id) == t.len());
    assert(slot_live(r, id));
    assert(spec_tuple_bytes(r, id) =~= t) by {
        assert(forall|k: int| 0 <= k < new_len ==> r[off + k] == t[k]);
    }

    // Other directory entries occupy disjoint 4-byte blocks below `begin`.
    assert forall|j: int| 0 <= j < n && j != id implies #[trigger] spec_slot_offset(r, j)
        == spec_slot_offset(s, j) && spec_slot_len(r, j) == spec_slot_len(s, j) by {
        assert(spec_slot_pos(j) + 4 <= pos || pos + 4 <= spec_slot_pos(j)) by (nonlinear_arith)
            requires
                j != id,
                pos == 16 + 4 * id,
                spec_slot_pos(j) == 16 + 4 * j,
        ;
        assert(spec_slot_pos(j) + 4 <= begin) by (nonlinear_arith)
            requires
                0 <= j < n,
                spec_slot_pos(j) == 16 + 4 * j,
                begin - 16 == 4 * n,
        ;
    }
    // Other live tuples are disjoint from this slot's old range, which
    // contains everything rewritten in the data region.
    assert forall|j: int|
        0 <= j < n && j != id && slot_live(s, j) implies #[trigger] spec_tuple_bytes(r, j)
        == spec_tuple_bytes(s, j) by {
        assert(slots_disjoint(s, j, id));
        assert(spec_slot_offset(s, j) >= spec_end(s));
        assert(spec_slot_pos(j) + 4 <= begin) by (nonlinear_arith)
            requires
                0 <= j < n,
                spec_slot_pos(j) == 16 + 4 * j,
                begin - 16 == 4 * n,
        ;
        assert(spec_tuple_bytes(r, j) =~= spec_tuple_bytes(s, j));
    }

    assert forall|j: int| 0 <= j < n && j != id implies #[trigger] live_len(r, j) == live_len(
        s,
        j,
    ) by {}
    lemma_sum_live_update(s, r, n, id);
    assert(sum_live(r, n) == sum_live(s, n) - old_len + new_len);

    assert forall|j: int| 0 <= j < n && slot_live(r, j) implies #[trigger] spec_slot_offset(r, j)
        >= spec_end(r) by {
        if j != id {
            assert(slot_live(s, j));
            assert(spec_slot_offset(s, j) >= spec_end(s));
        }
    }
    assert forall|i: int, j: int|
        0 <= i < n && 0 <= j < n && i != j && slot_live(r, i) && slot_live(
            r,
            j,
        ) implies #[trigger] slots_disjoint(r, i, j) by {
        assert(slots_disjoint(s, i, j));
    }
    assert(page_wf(r));
}

/// A relocating update (the tuple grew) preserves well-formedness, debits
/// the free-space count by the signed length delta, advances the data
/// region over the newly carved bytes, rewrites exactly the updated slot,
/// and leaves every other slot untouched.
pub proof fn lemma_update_relocate_wf(s: Seq<u8>, id: int, t: Seq<u8>)
    requires
        page_wf(s),
        0 <= id < spec_num_slots(s),
        slot_live(s, id),
        t.len() > spec_slot_len(s, id),
        t.len() <= spec_free_total(s),
        t.len() <= spec_end(s) - spec_begin(s),
    ensures
        ({
            let r = spec_update_relocate(s, id, t);
            let n = spec_num_slots(s);
            &&& page_wf(r)
            &&& r.len() == 4096
            &&& spec_page_id(r) == spec_page_id(s)
            &&& spec_free_total(r) == spec_free_total(s) + spec_slot_len(s, id) - t.len()
            &&& spec_begin(r) == spec_begin(s)
            &&& spec_end(r) == spec_end(s) - t.len()
            &&& spec_num_slots(r) == n
            &&& spec_slot_offset(r, id) == spec_end(s) - t.len()
            &&& spec_slot_len(r, id) == t.len()
            &&& slot_live(r, id)
            &&& spec_tuple_bytes(r, id) == t
            &&& forall|j: int|
                0 <= j < n && j != id ==> #[trigger] spec_slot_offset(r, j) == spec_slot_offset(
                    s,
                    j,
                ) && spec_slot_len(r, j) == spec_slot_len(s, j) && (slot_live(r, j) <==> slot_live(
                    s,
                    j,
                ))
            &&& forall|j: int|
                0 <= j < n && j != id && slot_live(s, j) ==> #[trigger] spec_tuple_bytes(r, j)
                    == spec_tuple_bytes(s, j)
        }),
{
    let n = spec_num_slots(s);
    let begin = spec_begin(s);
    let end = spec_end(s);
    let free = spec_free_total(s);
    let pos = spec_slot_pos(id);
    let old_len = spec_slot_len(s, id);
    let new_len = t.len() as int;
    let new_off = end - new_len;

    lemma_sum_live_nonneg(s, n);
    lemma_sum_live_bound(s, n, id);
    lemma_fundamental_div_mod(begin - 16, 4);
    assert(begin - 16 == 4 * n);
    assert(pos + 4 <= begin) by (nonlinear_arith)
        requires
            0 <= id < n,
            pos == 16 + 4 * id,
            begin - 16 == 4 * n,
    ;

    let s1 = store_bytes(s, new_off, t);
    let s2 = store_le16(s1, pos, new_off as u16);
    let s3 = store_le16(s2, pos + 2, t.len() as u16);
    let s4 = store_le16(s3, 4, (free - (new_len - old_len)) as u16);
    let s5 = store_le16(s4, 6, begin as u16);
    let r = store_le16(s5, 8, new_off as u16);

    lemma_store_le16(s1, pos, new_off as u16);
    lemma_store_le16(s2, pos + 2, t.len() as u16);
    lemma_store_le16(s3, 4, (free - (new_len - old_len)) as u16);
    lemma_store_le16(s4, 6, begin as u16);
    lemma_store_le16(s5, 8, new_off as u16);

    // Bytes outside the header fields, this slot's entry, and the carved
    // region are untouched.
    assert(forall|j: int|
        0 <= j < 4096 && !(4 <= j < 10) && !(pos <= j < pos + 4) && !(new_off <= j < end) ==> r[j]
            == s[j]);
    assert(le16(r, pos) == new_off);
    assert(le16(r, pos + 2) == t.len());
    assert(spec_free_total(r) == free - (new_len - old_len));
    assert(spec_begin(r) == begin);
    assert(spec_end(r) == new_off);
    assert(spec_page_id(r) == spec_page_id(s));
    assert(spec_num_slots(r) == n);
    assert(spec_slot_offset(r, id) == new_off);
    assert(spec_slot_len(r, id) == t.len());
    assert(slot_live(r, id));
    assert(spec_tuple_bytes(r, id) =~= t) by {
        assert(forall|k: int| 0 <= k < new_len ==> r[new_off + k] == t[k]);
    }

    assert forall|j: int| 0 <= j < n && j != id implies #[trigger] spec_slot_offset(r, j)
        == spec_slot_offset(s, j) && spec_slot_len(r, j) == spec_slot_len(s, j) by {
        assert(spec_slot_pos(j) + 4 <= pos || pos + 4 <= spec_slot_pos(j)) by (nonlinear_arith)
            requires
                j != id,
                pos == 16 + 4 * id,
                spec_slot_pos(j) == 16 + 4 * j,
        ;
        assert(spec_slot_pos(j) + 4 <= begin) by (nonlinear_arith)
            requires
                0 <= j < n,
                spec_slot_pos(j) == 16 + 4 * j,
                begin - 16 == 4 * n,
        ;
    }
    // Other live tuples lie in the old data region, past the carved bytes.
    assert forall|j: int|
        0 <= j < n && j != id && slot_live(s, j) implies #[trigger] spec_tuple_bytes(r, j)
        == spec_tuple_bytes(s, j) by {
        assert(spec_slot_offset(s, j) >= spec_end(s));
        assert(spec_slot_pos(j) + 4 <= begin) by (nonlinear_arith)
            requires
                0 <= j < n,
                spec_slot_pos(j) == 16 + 4 * j,
                begin - 16 == 4 * n,
        ;
        assert(spec_tuple_bytes(r, j) =~= spec_tuple_bytes(s, j));
    }

    assert forall|j: int| 0 <= j < n && j != id implies #[trigger] live_len(r, j) == live_len(
        s,
        j,
    ) by {}
    lemma_sum_live_update(s, r, n, id);
    assert(sum_live(r, n) == sum_live(s, n) - old_len + new_len);

    assert forall|j: int| 0 <= j < n && slot_live(r, j) implies #[trigger] spec_slot_offset(r, j)
        >= spec_end(r) by {
        if j != id {
            assert(slot_live(s, j));
            assert(spec_slot_offset(s, j) >= spec_end(s));
        }
    }
    assert forall|i: int, j: int|
        0 <= i < n && 0 <= j < n && i != j && slot_live(r, i) && slot_live(
            r,
            j,
        ) implies #[trigger] slots_disjoint(r, i, j) by {
        if i != id && j != id {
            assert(slots_disjoint(s, i, j));
        } else if i == id {
            assert(slot_live(s, j));
            assert(spec_slot_offset(s, j) >= spec_end(s));
        } else {
            assert(slot_live(s, i));
            assert(spec_slot_offset(s, i) >= spec_end(s));
        }
    }
    assert(page_wf(r));
}

// ---------------------------------------------------------------------------
// Laws relating the operations.
// ---------------------------------------------------------------------------

/// Law: inserting a tuple and immediately reading the slot id it returns —
/// the old directory length — yields exactly the inserted bytes.
pub proof fn lemma_insert_round_trip(s: Seq<u8>, t: Seq<u8>)
    requires
        page_wf(s),
        spec_insert_ok(s, t),
    ensures
        spec_get_data(spec_insert(s, t), spec_num_slots(s)) == Ok::<Seq<u8>, PageError>(t),
{
    lemma_insert_wf(s, t);
    lemma_div_pos_is_pos(spec_begin(s) - 16, 4);
}

/// Law: after deleting a slot, both reading it and updating it fail with
/// `TupleNotFound`, while every other live slot still reads back exactly
/// the bytes it held before.
pub proof fn lemma_delete_finality(s: Seq<u8>, id: int, t: Seq<u8>)
    requires
        page_wf(s),
        0 <= id < spec_num_slots(s),
    ensures
        spec_get_data(spec_delete(s, id), id) == Err::<Seq<u8>, PageError>(
            PageError::TupleNotFound,
        ),
        spec_update_err(spec_delete(s, id), id, t) == Some(PageError::TupleNotFound),
        forall|j: int|
            0 <= j < spec_num_slots(s) && j != id && slot_live(s, j)
                ==> #[trigger] spec_get_data(spec_delete(s, id), j) == spec_get_data(s, j),
{
    lemma_delete_wf(s, id);
    let r = spec_delete(s, id);
    assert forall|j: int|
        0 <= j < spec_num_slots(s) && j != id && slot_live(s, j) implies #[trigger] spec_get_data(
        r,
        j,
    ) == spec_get_data(s, j) by {
        assert(slot_live(r, j));
        assert(spec_tuple_bytes(r, j) == spec_tuple_bytes(s, j));
    }
}

/// Law: reading is idempotent.  `get_data` pins its result to
/// `spec_get_data`, a function of the page bytes and the slot id alone, so
/// any two reads of the same slot without an intervening mutation return
/// identical results — in particular, identical bytes for a live slot.
pub proof fn lemma_get_data_idempotent(
    s: Seq<u8>,
    id: int,
    r1: Result<Seq<u8>, PageError>,
    r2: Result<Seq<u8>, PageError>,
)
    requires
        r1 == spec_get_data(s, id),
        r2 == spec_get_data(s, id),
    ensures
        r1 == r2,
{
}

/// Law: slot ids are handed out sequentially in call order.  An insert
/// returns the directory length at the time of the call, so the id a
/// second insert returns is one past the id the first returned — and a
/// fresh page's directory is empty, so ids start at 0.
pub proof fn lemma_insert_ids_sequential(s: Seq<u8>, t1: Seq<u8>, t2: Seq<u8>)
    requires
        page_wf(s),
        spec_insert_ok(s, t1),
        spec_insert_ok(spec_insert(s, t1), t2),
    ensures
        spec_num_slots(s) >= 0,
        spec_num_slots(spec_insert(s, t1)) == spec_num_slots(s) + 1,
        spec_num_slots(spec_insert(spec_insert(s, t1), t2)) == spec_num_slots(s) + 2,
{
    lemma_div_pos_is_pos(spec_begin(s) - 16, 4);
    lemma_insert_wf(s, t1);
    lemma_insert_wf(spec_insert(s, t1), t2);
}

// ---------------------------------------------------------------------------
// Executable byte accessors.
// ---------------------------------------------------------------------------

/// Read the 16-bit little-endian integer at positions `i`, `i + 1`.
fn read_le16(v: &Vec<u8>, i: usize) -> (r: u16)
    requires
        i + 2 <= v.len(),
    ensures
        r == le16(v@, i as int),
{
    (v[i] as u16) + 256 * (v[i + 1] as u16)
}

/// Store the 16-bit value `x` little-endian at positions `i`, `i + 1`.
fn write_le16(v: &mut Vec<u8>, i: usize, x: u16)
    requires
        i + 2 <= old(v).len(),
    ensures
        final(v)@ == store_le16(old(v)@, i as int, x),
{
    let lo: u8 = (x % 256) as u8;
    let hi: u8 = (x / 256) as u8;
    v[i] = lo;
    v[i + 1] = hi;
}

/// Slot ids within the directory are exactly those whose 4-byte entry fits
/// below `begin`; this ties the arithmetic check used by the executable code
/// to `spec_num_slots`.
proof fn lemma_slot_pos_in_directory(s: Seq<u8>, id: int)
    requires
        page_wf(s),
        0 <= id,
    ensures
        id < spec_num_slots(s) <==> spec_slot_pos(id) + 4 <= spec_begin(s),
        id < spec_num_slots(s) ==> spec_slot_pos(id) + 4 <= 4096,
{
    lemma_fundamental_div_mod(spec_begin(s) - 16, 4);
}

// ---------------------------------------------------------------------------
// Errors and the header view.
// ---------------------------------------------------------------------------

/// The failures a tuple operation can report.
#[derive(Debug, PartialEq, Eq, Structural)]
pub enum PageError {
    /// The slot id lies beyond the allocated slot directory.
    InvalidSlot,
    /// The slot exists but is deleted, or its recorded range is inconsistent
    /// with the live data region.
    TupleNotFound,
    /// The requested insert or growth exceeds the page's free space.
    NotEnoughSpace,
}

/// The logical view of the first 16 bytes of a page.
#[derive(Debug, Clone)]
pub struct PageHeader {
    pub page_id: u32,
    pub free_space_total: u16,
    pub offset_begin_free_space: u16,
    pub offset_end_free_space: u16,
}

impl PageHeader {
    /// The header of a freshly created page: the whole buffer past the
    /// header is free, the slot directory is empty, and the data region
    /// starts at the very end of the buffer.
    pub fn new(page_id: u32) -> (h: PageHeader)
        ensures
            h.page_id == page_id,
            h.free_space_total == 4080,
            h.offset_begin_free_space == 16,
            h.offset_end_free_space == 4096,
    {
        PageHeader {
            page_id,
            free_space_total: (PAGE_SIZE - HEADER_SIZE) as u16,
            offset_begin_free_space: HEADER_SIZE as u16,
            offset_end_free_space: PAGE_SIZE as u16,
        }
    }
}

// ---------------------------------------------------------------------------
// The page itself.
// ---------------------------------------------------------------------------

/// A fixed-size slotted page: 4096 raw bytes holding a 16-byte header, a
/// slot directory growing forward from byte 16, and a tuple-data region
/// growing backward from byte 4096.
#[derive(Debug)]
pub struct Page {
    contents: Vec<u8>,
}

impl View for Page {
    type V = Seq<u8>;

    closed spec fn view(&self) -> Seq<u8> {
        self.contents@
    }
}

impl Page {
    /// The page's bytes form a well-formed page image.
    pub open spec fn wf(&self) -> bool {
        page_wf(self@)
    }

    /// Create an empty page: zeroed buffer, header fields set for a page
    /// with no tuples.
    pub fn new(page_id: u32) -> (p: Page)
        ensures
            p.wf(),
            spec_page_id(p@) == page_id,
            spec_free_total(p@) == 4080,
            spec_begin(p@) == 16,
            spec_end(p@) == 4096,
            spec_num_slots(p@) == 0,
            forall|i: int| 10 <= i < 4096 ==> p@[i] == 0,
    {
        let mut contents: Vec<u8> = Vec::new();
        let mut i: usize = 0;
        while i < PAGE_SIZE
            invariant
                contents@.len() == i,
                i <= 4096,
                forall|j: int| 0 <= j < i ==> contents@[j] == 0,
            decreases 4096 - i,
        {
            contents.push(0u8);
            i = i + 1;
        }
        let ghost zeroed = contents@;
        write_le16(&mut contents, 0, (page_id % 0x10000) as u16);
        write_le16(&mut contents, 2, (page_id / 0x10000) as u16);
        write_le16(&mut contents, 4, (PAGE_SIZE - HEADER_SIZE) as u16);
        write_le16(&mut contents, 6, HEADER_SIZE as u16);
        write_le16(&mut contents, 8, PAGE_SIZE as u16);
        proof {
            let s1 = store_le16(zeroed, 0, (page_id % 0x10000) as u16);
            let s2 = store_le16(s1, 2, (page_id / 0x10000) as u16);
            let s3 = store_le16(s2, 4, 4080u16);
            let s4 = store_le16(s3, 6, 16u16);
            let s5 = store_le16(s4, 8, 4096u16);
            lemma_store_le16(zeroed, 0, (page_id % 0x10000) as u16);
            lemma_store_le16(s1, 2, (page_id / 0x10000) as u16);
            lemma_store_le16(s2, 4, 4080u16);
            lemma_store_le16(s3, 6, 16u16);
            lemma_store_le16(s4, 8, 4096u16);
            lemma_fundamental_div_mod(page_id as int, 0x10000);
            assert(spec_page_id(s5) == page_id);
            assert(spec_num_slots(s5) == 0) by {
                assert(spec_begin(s5) == 16);
            }
        }
        Page { contents }
    }

    /// Decode the header fields from the first 16 bytes.
    pub fn get_header(&self) -> (h: PageHeader)
        requires
            self@.len() == 4096,
        ensures
            h.page_id == spec_page_id(self@),
            h.free_space_total == spec_free_total(self@),
            h.offset_begin_free_space == spec_begin(self@),
            h.offset_end_free_space == spec_end(self@),
    {
        let id_lo = read_le16(&self.contents, 0);
        let id_hi = read_le16(&self.contents, 2);
        let page_id = (id_lo as u32) + 0x10000 * (id_hi as u32);
        let free_space_total = read_le16(&self.contents, 4);
        let offset_begin_free_space = read_le16(&self.contents, 6);
        let offset_end_free_space = read_le16(&self.contents, 8);
        PageHeader { page_id, free_space_total, offset_begin_free_space, offset_end_free_space }
    }

    /// Read the directory entry for `slot_id`, rejecting ids beyond the
    /// occupied slot directory.
    fn get_tuple_offset_and_length(&self, slot_id: u16) -> (r: Result<(u16, u16), PageError>)
        requires
            self.wf(),
        ensures
            match r {
                Ok((off, len)) => {
                    &&& (slot_id as int) < spec_num_slots(self@)
                    &&& off == spec_slot_offset(self@, slot_id as int)
                    &&& len == spec_slot_len(self@, slot_id as int)
                },
                Err(e) => {
                    &&& e == PageError::InvalidSlot
                    &&& slot_id as int >= spec_num_slots(self@)
                },
            },
    {
        proof {
            lemma_slot_pos_in_directory(self@, slot_id as int);
        }
        let slot_pos: usize = HEADER_SIZE + SLOT_SIZE * (slot_id as usize);
        let begin = read_le16(&self.contents, 6);
        if slot_pos + SLOT_SIZE > begin as usize {
            return Err(PageError::InvalidSlot);
        }
        let tuple_offset = read_le16(&self.contents, slot_pos);
        let tuple_length = read_le16(&self.contents, slot_pos + 2);
        Ok((tuple_offset, tuple_length))
    }

    /// Read the tuple stored under `slot_id`.
    ///
    /// Fails with `InvalidSlot` when the id lies beyond the slot directory,
    /// and with `TupleNotFound` when the slot is deleted (offset 0 points
    /// into the header) or its recorded range falls outside the live data
    /// region.
    pub fn get_data(&self, slot_id: u16) -> (r: Result<&[u8], PageError>)
        requires
            self.wf(),
        ensures
            match r {
                Ok(data) => spec_get_data(self@, slot_id as int) == Ok::<Seq<u8>, PageError>(
                    data@,
                ),
                Err(e) => spec_get_data(self@, slot_id as int) == Err::<Seq<u8>, PageError>(e),
            },
    {
        let header = self.get_header();
        let (tuple_offset, tuple_length) = match self.get_tuple_offset_and_length(slot_id) {
            Ok(pair) => pair,
            Err(e) => {
                return Err(e);
            },
        };
        if (tuple_offset as usize) + (tuple_length as usize) > PAGE_SIZE {
            return Err(PageError::TupleNotFound);
        } else if tuple_offset < header.offset_begin_free_space {
            return Err(PageError::TupleNotFound);
        }
        Ok(
            vstd::slice::slice_subrange(
                self.contents.as_slice(),
                tuple_offset as usize,
                (tuple_offset as usize) + (tuple_length as usize),
            ),
        )
    }

    /// Insert a tuple into the page.
    ///
    /// On success the tuple's bytes are written immediately before the data
    /// region, a fresh directory entry is appended, the header accounts for
    /// the tuple plus its 4-byte entry, and the new slot id — the next
    /// sequential index into the directory — is returned.  No existing slot
    /// or tuple is disturbed.  When the free-space count or the gap between
    /// directory and data region cannot absorb the tuple and its entry, the
    /// page is left byte-for-byte unchanged and `NotEnoughSpace` is
    /// returned.
    pub fn insert_tuple(&mut self, tuple: &[u8]) -> (r: Result<u16, PageError>)
        requires
            old(self).wf(),
        ensures
            final(self).wf(),
            spec_page_id(final(self)@) == spec_page_id(old(self)@),
            match r {
                Ok(slot_id) => {
                    &&& spec_insert_ok(old(self)@, tuple@)
                    &&& slot_id == spec_num_slots(old(self)@)
                    &&& final(self)@ == spec_insert(old(self)@, tuple@)
                    &&& spec_num_slots(final(self)@) == spec_num_slots(old(self)@) + 1
                    &&& spec_free_total(final(self)@) == spec_free_total(old(self)@) - (
                    tuple@.len() + 4)
                    &&& spec_begin(final(self)@) == spec_begin(old(self)@) + 4
                    &&& spec_end(final(self)@) == spec_end(old(self)@) - tuple@.len()
                    &&& slot_live(final(self)@, slot_id as int)
                    &&& spec_tuple_bytes(final(self)@, slot_id as int) == tuple@
                },
                Err(e) => {
                    &&& e == PageError::NotEnoughSpace
                    &&& !spec_insert_ok(old(self)@, tuple@)
                    &&& final(self)@ == old(self)@
                },
            },
    {
        proof {
            lemma_free_total_bounded(self@);
        }
        let header = self.get_header();
        let len = tuple.len();
        if len > PAGE_SIZE {
            return Err(PageError::NotEnoughSpace);
        }
        // The tuple needs its own bytes plus one 4-byte directory entry.
        let total_space_needed: u16 = (len as u16) + 4;
        if header.free_space_total < total_space_needed {
            return Err(PageError::NotEnoughSpace);
        }
        if header.offset_end_free_space - header.offset_begin_free_space < total_space_needed {
            return Err(PageError::NotEnoughSpace);
        }

        // The directory and the data region grow toward each other: the new
        // entry sits where free space begins, the new tuple ends where free
        // space ends.
        let slot_offset = header.offset_begin_free_space;
        let slot_id = (slot_offset - HEADER_SIZE as u16) / (SLOT_SIZE as u16);
        let tuple_offset_begin = header.offset_end_free_space - (len as u16);

        self.update_slot(slot_offset as usize, tuple_offset_begin, len as u16);
        self.modify_tuple_data(tuple_offset_begin as usize, tuple);
        self.update_header(
            header.free_space_total - total_space_needed,
            slot_offset + 4,
            tuple_offset_begin,
        );

        proof {
            assert(final(self)@ == spec_insert(old(self)@, tuple@));
            lemma_insert_wf(old(self)@, tuple@);
            lemma_fundamental_div_mod(spec_begin(old(self)@) - 16, 4);
        }
        Ok(slot_id)
    }

    /// Update the tuple under `slot_id` with new bytes.
    ///
    /// A tuple that did not grow is overwritten in place at its old offset
    /// and the slot's recorded length shrinks to match; a growing tuple is
    /// relocated to freshly carved bytes at the current data-region start,
    /// provided the free-space count and the directory/data gap can absorb
    /// it.  Either way, the free-space count moves by exactly the signed
    /// difference between the new and old lengths, and no other slot is
    /// disturbed.  On failure the page is left byte-for-byte unchanged:
    /// `InvalidSlot` beyond the directory, `TupleNotFound` on a deleted or
    /// inconsistent slot, `NotEnoughSpace` on a growth that does not fit.
    pub fn update_tuple(&mut self, slot_id: u16, tuple: &[u8]) -> (r: Result<u16, PageError>)
        requires
            old(self).wf(),
        ensures
            final(self).wf(),
            spec_page_id(final(self)@) == spec_page_id(old(self)@),
            match r {
                Ok(returned_id) => {
                    &&& returned_id == slot_id
                    &&& spec_update_err(old(self)@, slot_id as int, tuple@) is None
                    &&& final(self)@ == spec_update(old(self)@, slot_id as int, tuple@)
                    &&& spec_free_total(final(self)@) == spec_free_total(old(self)@)
                        + spec_slot_len(old(self)@, slot_id as int) - tuple@.len()
                    &&& spec_begin(final(self)@) == spec_begin(old(self)@)
                    &&& spec_num_slots(final(self)@) == spec_num_slots(old(self)@)
                    &&& slot_live(final(self)@, slot_id as int)
                    &&& spec_slot_len(final(self)@, slot_id as int) == tuple@.len()
                    &&& spec_tuple_bytes(final(self)@, slot_id as int) == tuple@
                    &&& if tuple@.len() <= spec_slot_len(old(self)@, slot_id as int) {
                        // In place: same offset, data region untouched.
                        &&& spec_slot_offset(final(self)@, slot_id as int) == spec_slot_offset(
                            old(self)@,
                            slot_id as int,
                        )
                        &&& spec_end(final(self)@) == spec_end(old(self)@)
                    } else {
                        // Relocated: freshly carved bytes at the old
                        // data-region start, which advances over them.
                        &&& spec_slot_offset(final(self)@, slot_id as int) == spec_end(old(self)@)
                            - tuple@.len()
                        &&& spec_end(final(self)@) == spec_end(old(self)@) - tuple@.len()
                    }
                },
                Err(e) => {
                    &&& spec_update_err(old(self)@, slot_id as int, tuple@) == Some(e)
                    &&& final(self)@ == old(self)@
                },
            },
    {
        let header = self.get_header();
        let (old_tuple_offset, old_tuple_length) = match self.get_tuple_offset_and_length(
            slot_id,
        ) {
            Ok(pair) => pair,
            Err(e) => {
                return Err(e);
            },
        };
        // Liveness check, exactly as in `get_data`: a deleted slot points
        // into the header, an inconsistent one outside the page.
        if (old_tuple_offset as usize) + (old_tuple_length as usize) > PAGE_SIZE {
            return Err(PageError::TupleNotFound);
        } else if old_tuple_offset < header.offset_begin_free_space {
            return Err(PageError::TupleNotFound);
        }

        let len = tuple.len();
        let slot_pos: usize = HEADER_SIZE + SLOT_SIZE * (slot_id as usize);
        proof {
            lemma_slot_pos_in_directory(self@, slot_id as int);
            lemma_sum_live_bound(self@, spec_num_slots(self@), slot_id as int);
            lemma_sum_live_nonneg(self@, spec_num_slots(self@));
        }

        if len <= old_tuple_length as usize {
            // The new bytes fit in the tuple's old place.
            self.modify_tuple_data(old_tuple_offset as usize, tuple);
            write_le16(&mut self.contents, slot_pos + 2, len as u16);
            // The shed bytes are credited back: the delta works uniformly
            // for growing and shrinking updates.
            let new_free_space_total = header.free_space_total + (old_tuple_length - len as u16);
            self.update_header(
                new_free_space_total,
                header.offset_begin_free_space,
                header.offset_end_free_space,
            );
            proof {
                assert(final(self)@ == spec_update_inplace(old(self)@, slot_id as int, tuple@));
                lemma_update_inplace_wf(old(self)@, slot_id as int, tuple@);
            }
            Ok(slot_id)
        } else {
            // The tuple grew: it must be relocated into freshly carved
            // bytes, so both the free-space count and the gap between the
            // directory and the data region must absorb the new length.
            if len > header.free_space_total as usize {
                return Err(PageError::NotEnoughSpace);
            }
            if len > (header.offset_end_free_space - header.offset_begin_free_space) as usize {
                return Err(PageError::NotEnoughSpace);
            }
            let new_tuple_offset = header.offset_end_free_space - len as u16;
            self.modify_tuple_data(new_tuple_offset as usize, tuple);
            self.update_slot(slot_pos, new_tuple_offset, len as u16);
            let new_free_space_total = header.free_space_total - (len as u16 - old_tuple_length);
            self.update_header(
                new_free_space_total,
                header.offset_begin_free_space,
                new_tuple_offset,
            );
            proof {
                assert(final(self)@ == spec_update_relocate(old(self)@, slot_id as int, tuple@));
                lemma_update_relocate_wf(old(self)@, slot_id as int, tuple@);
            }
            Ok(slot_id)
        }
    }

    /// Delete the tuple under `slot_id` by rewriting its directory entry to
    /// the `(0, 0)` sentinel.
    ///
    /// This is a logical delete: the directory entry is not reclaimed and
    /// the tuple bytes stay in place until a future compaction pass.  Both
    /// `get_data` and `update_tuple` deterministically fail with
    /// `TupleNotFound` on a deleted slot, and no other slot is altered.
    /// Deleting beyond the directory fails with `InvalidSlot`.
    pub fn delete_tuple(&mut self, slot_id: u16) -> (r: Result<(), PageError>)
        requires
            old(self).wf(),
        ensures
            final(self).wf(),
            spec_page_id(final(self)@) == spec_page_id(old(self)@),
            match r {
                Ok(u) => {
                    &&& (slot_id as int) < spec_num_slots(old(self)@)
                    &&& final(self)@ == spec_delete(old(self)@, slot_id as int)
                    &&& !slot_live(final(self)@, slot_id as int)
                    &&& spec_free_total(final(self)@) == spec_free_total(old(self)@)
                    &&& spec_begin(final(self)@) == spec_begin(old(self)@)
                    &&& spec_end(final(self)@) == spec_end(old(self)@)
                    &&& spec_num_slots(final(self)@) == spec_num_slots(old(self)@)
                },
                Err(e) => {
                    &&& e == PageError::InvalidSlot
                    &&& slot_id as int >= spec_num_slots(old(self)@)
                    &&& final(self)@ == old(self)@
                },
            },
    {
        proof {
            lemma_slot_pos_in_directory(self@, slot_id as int);
        }
        let slot_pos: usize = HEADER_SIZE + SLOT_SIZE * (slot_id as usize);
        let begin = read_le16(&self.contents, 6);
        if slot_pos + SLOT_SIZE > begin as usize {
            return Err(PageError::InvalidSlot);
        }
        // Offset 0 points into the header, which both readers and updaters
        // treat as "no tuple here".
        self.update_slot(slot_pos, 0, 0);
        proof {
            lemma_delete_wf(old(self)@, slot_id as int);
        }
        Ok(())
    }

    /// A read-only view of the page's raw bytes, exactly as they would sit
    /// on disk.
    pub fn bytes(&self) -> (r: &[u8])
        ensures
            r@ == self@,
    {
        self.contents.as_slice()
    }

    /// Reinterpret raw bytes as a page.
    ///
    /// Accepts exactly the well-formed page images: 4096 bytes whose header
    /// fields order the three regions correctly, whose directory is a whole
    /// number of entries, whose live slots lie inside the data region
    /// without overlapping one another, and whose free-space count does not
    /// exceed what the buffer can still absorb.  Returns `None` for
    /// anything else.
    pub fn from_bytes(bytes: Vec<u8>) -> (r: Option<Page>)
        ensures
            match r {
                Some(p) => p.wf() && p@ == bytes@,
                None => !page_wf(bytes@),
            },
    {
        let ghost s = bytes@;
        if bytes.len() != PAGE_SIZE {
            return None;
        }
        let free = read_le16(&bytes, 4);
        let begin = read_le16(&bytes, 6);
        let end = read_le16(&bytes, 8);
        if begin < 16 || begin > end || end > 4096 {
            return None;
        }
        if (begin - 16) % 4 != 0 {
            return None;
        }
        let n: usize = ((begin - 16) / 4) as usize;
        proof {
            lemma_fundamental_div_mod(spec_begin(s) - 16, 4);
            assert(n == spec_num_slots(s));
            assert(spec_begin(s) - 16 == 4 * n);
        }

        // First pass: every live slot must lie inside the data region, and
        // the free-space count plus the live bytes must fit past the
        // directory.
        let mut sum: u32 = 0;
        let mut i: usize = 0;
        while i < n
            invariant
                s == bytes@,
                s.len() == 4096,
                free == spec_free_total(s),
                begin == spec_begin(s),
                end == spec_end(s),
                16 <= begin <= end <= 4096,
                spec_begin(s) - 16 == 4 * n,
                n == spec_num_slots(s),
                i <= n,
                sum == sum_live(s, i as int),
                sum <= 4096 * i,
                forall|id: int|
                    0 <= id < i && slot_live(s, id) ==> #[trigger] spec_slot_offset(s, id)
                        >= spec_end(s),
            decreases n - i,
        {
            let (tuple_offset, tuple_length, live) = Self::read_slot_entry(&bytes, begin, i);
            if live {
                if tuple_offset < end {
                    proof {
                        assert(!page_wf(s)) by {
                            if page_wf(s) {
                                assert(spec_slot_offset(s, i as int) >= spec_end(s));
                            }
                        }
                    }
                    return None;
                }
                sum = sum + tuple_length as u32;
            }
            i = i + 1;
        }
        if (free as u32) + sum > 4096 - (begin as u32) {
            return None;
        }

        // Second pass: live slots must not overlap one another.
        let mut a: usize = 0;
        while a < n
            invariant
                s == bytes@,
                s.len() == 4096,
                begin == spec_begin(s),
                16 <= begin <= 4096,
                spec_begin(s) - 16 == 4 * n,
                n == spec_num_slots(s),
                a <= n,
                forall|i2: int, j2: int|
                    0 <= i2 < a && 0 <= j2 < a && i2 != j2 && slot_live(s, i2) && slot_live(
                        s,
                        j2,
                    ) ==> #[trigger] slots_disjoint(s, i2, j2),
            decreases n - a,
        {
            let (off_a, len_a, live_a) = Self::read_slot_entry(&bytes, begin, a);
            let mut b: usize = 0;
            while b < a
                invariant
                    s == bytes@,
                    s.len() == 4096,
                    begin == spec_begin(s),
                    16 <= begin <= 4096,
                    spec_begin(s) - 16 == 4 * n,
                    n == spec_num_slots(s),
                    b <= a < n,
                    off_a == spec_slot_offset(s, a as int),
                    len_a == spec_slot_len(s, a as int),
                    live_a == slot_live(s, a as int),
                    forall|j2: int|
                        0 <= j2 < b && slot_live(s, a as int) && slot_live(s, j2)
                            ==> #[trigger] slots_disjoint(s, a as int, j2),
                decreases a - b,
            {
                let (off_b, len_b, live_b) = Self::read_slot_entry(&bytes, begin, b);
                if live_a && live_b {
                    let fits_before = (off_a as u32) + (len_a as u32) <= off_b as u32;
                    let fits_after = (off_b as u32) + (len_b as u32) <= off_a as u32;
                    if !fits_before && !fits_after {
                        proof {
                            assert(!page_wf(s)) by {
                                if page_wf(s) {
                                    assert(slots_disjoint(s, a as int, b as int));
                                }
                            }
                        }
                        return None;
                    }
                }
                b = b + 1;
            }
            proof {
                assert forall|i2: int, j2: int|
                    0 <= i2 < a + 1 && 0 <= j2 < a + 1 && i2 != j2 && slot_live(s, i2)
                        && slot_live(s, j2) implies #[trigger] slots_disjoint(s, i2, j2) by {
                    if i2 == a {
                        assert(slots_disjoint(s, a as int, j2));
                    } else if j2 == a {
                        assert(slots_disjoint(s, a as int, i2));
                    }
                }
            }
            a = a + 1;
        }

        proof {
            assert forall|i2: int, j2: int|
                0 <= i2 < n && 0 <= j2 < n && i2 != j2 && slot_live(s, i2) && slot_live(
                    s,
                    j2,
                ) implies #[trigger] slots_disjoint(s, i2, j2) by {}
            assert(page_wf(s));
        }
        Some(Page { contents: bytes })
    }

    /// Read the directory entry for slot `i` and decide whether it is live.
    fn read_slot_entry(bytes: &Vec<u8>, begin: u16, i: usize) -> (r: (u16, u16, bool))
        requires
            bytes@.len() == 4096,
            begin == spec_begin(bytes@),
            begin <= 4096,
            spec_slot_pos(i as int) + 4 <= spec_begin(bytes@),
        ensures
            r.0 == spec_slot_offset(bytes@, i as int),
            r.1 == spec_slot_len(bytes@, i as int),
            r.2 == slot_live(bytes@, i as int),
    {
        let pos: usize = HEADER_SIZE + SLOT_SIZE * i;
        let tuple_offset = read_le16(bytes, pos);
        let tuple_length = read_le16(bytes, pos + 2);
        let live = tuple_offset >= begin && (tuple_offset as u32) + (tuple_length as u32) <= 4096;
        (tuple_offset, tuple_length, live)
    }

    /// Overwrite the directory entry at byte position `slot_pos`.
    fn update_slot(&mut self, slot_pos: usize, tuple_offset_begin: u16, tuple_length: u16)
        requires
            old(self)@.len() == 4096,
            slot_pos + 4 <= 4096,
        ensures
            final(self)@ == store_le16(
                store_le16(old(self)@, slot_pos as int, tuple_offset_begin),
                slot_pos + 2,
                tuple_length,
            ),
    {
        write_le16(&mut self.contents, slot_pos, tuple_offset_begin);
        write_le16(&mut self.contents, slot_pos + 2, tuple_length);
    }

    /// Overwrite the three mutable header fields, leaving the page id alone.
    fn update_header(
        &mut self,
        new_free_space_total: u16,
        new_offset_begin_free_space: u16,
        new_offset_end_free_space: u16,
    )
        requires
            old(self)@.len() == 4096,
        ensures
            final(self)@ == store_le16(
                store_le16(
                    store_le16(old(self)@, 4, new_free_space_total),
                    6,
                    new_offset_begin_free_space,
                ),
                8,
                new_offset_end_free_space,
            ),
    {
        write_le16(&mut self.contents, 4, new_free_space_total);
        write_le16(&mut self.contents, 6, new_offset_begin_free_space);
        write_le16(&mut self.contents, 8, new_offset_end_free_space);
    }

    /// Copy `tuple` into the buffer at `tuple_offset`.
    fn modify_tuple_data(&mut self, tuple_offset: usize, tuple: &[u8])
        requires
            old(self)@.len() == 4096,
            tuple_offset + tuple@.len() <= 4096,
        ensures
            final(self)@ == store_bytes(old(self)@, tuple_offset as int, tuple@),
    {
        let count = tuple.len();
        let mut k: usize = 0;
        while k < count
            invariant
                self@.len() == 4096,
                count == tuple@.len(),
                tuple_offset + count <= 4096,
                k <= count,
                forall|j: int|
                    0 <= j < 4096 && !(tuple_offset <= j < tuple_offset + k) ==> self@[j]
                        == old(self)@[j],
                forall|j: int| 0 <= j < k ==> self@[tuple_offset + j] == tuple@[j],
            decreases count - k,
        {
            let b = tuple[k];
            self.contents[tuple_offset + k] = b;
            k = k + 1;
        }
        proof {
            assert(self@ =~= store_bytes(old(self)@, tuple_offset as int, tuple@));
        }
    }
}

} // verus!
