//! Frame cells holding little-endian counters of 1, 2, 4 or 8 bytes that stop
//! at their largest value.
use vstd::prelude::*;

verus! {

/// The value of a little-endian counter.
pub open spec fn le_value(s: Seq<u8>) -> nat
    decreases s.len(),
{
    if s.len() == 0 {
        0
    } else {
        s[0] as nat + 256 * le_value(s.drop_first())
    }
}

/// Whether every byte is at its largest value.
pub open spec fn all_max(s: Seq<u8>) -> bool {
    forall|i: int| 0 <= i < s.len() ==> s[i] == 255
}

/// Adds one with the carry running to higher bytes.
pub open spec fn carry_inc(s: Seq<u8>) -> Seq<u8>
    decreases s.len(),
{
    if s.len() == 0 {
        s
    } else if s[0] < 255 {
        s.update(0, (s[0] + 1) as u8)
    } else {
        seq![0u8] + carry_inc(s.drop_first())
    }
}

/// Adds one unless the counter is full.
pub open spec fn sat_inc(s: Seq<u8>) -> Seq<u8> {
    if all_max(s) { s } else { carry_inc(s) }
}

/// Whether a byte depth is one that counters can have.
pub open spec fn valid_depth(bytedepth: usize) -> bool {
    bytedepth == 1 || bytedepth == 2 || bytedepth == 4 || bytedepth == 8
}

/// The bytes of cell `index`.
pub open spec fn cell(data: Seq<u8>, index: int, bytedepth: int) -> Seq<u8> {
    data.subrange(index * bytedepth, index * bytedepth + bytedepth)
}

/// A frame after one count in cell `index`.
pub open spec fn frame_inc(data: Seq<u8>, index: int, bytedepth: int) -> Seq<u8> {
    data.subrange(0, index * bytedepth) + sat_inc(cell(data, index, bytedepth))
        + data.subrange(index * bytedepth + bytedepth, data.len() as int)
}

/// Counting one more raises the value of a counter that is not full by one.
pub proof fn lemma_carry_inc_value(s: Seq<u8>)
    requires
        !all_max(s),
    ensures
        le_value(carry_inc(s)) == le_value(s) + 1,
        carry_inc(s).len() == s.len(),
    decreases s.len(),
{
    if s[0] < 255 {
        let t = carry_inc(s);
        assert(t.drop_first() =~= s.drop_first());
    } else {
        let rest = s.drop_first();
        assert(!all_max(rest)) by {
            let i = choose|i: int| 0 <= i < s.len() && s[i] != 255;
            assert(rest[i - 1] != 255);
        }
        lemma_carry_inc_value(rest);
        let t = carry_inc(s);
        assert(t.drop_first() =~= carry_inc(rest));
    }
}

proof fn lemma_carry_inc_len(s: Seq<u8>)
    ensures
        carry_inc(s).len() == s.len(),
    decreases s.len(),
{
    if s.len() > 0 && s[0] == 255 {
        lemma_carry_inc_len(s.drop_first());
    }
}

/// One count in a cell leaves the length of the frame and every other byte as
/// they were.
pub proof fn lemma_frame_inc_frame(data: Seq<u8>, index: int, bytedepth: int)
    requires
        0 <= index,
        0 < bytedepth,
        index * bytedepth + bytedepth <= data.len(),
    ensures
        frame_inc(data, index, bytedepth).len() == data.len(),
        forall|i: int|
            0 <= i < data.len() && !(index * bytedepth <= i < index * bytedepth + bytedepth)
                ==> #[trigger] frame_inc(data, index, bytedepth)[i] == data[i],
{
    assert(0 <= index * bytedepth) by (nonlinear_arith)
        requires
            0 <= index,
            0 < bytedepth,
    ;
    lemma_carry_inc_len(cell(data, index, bytedepth));
}

/// Carrying over `k` full bytes into a byte that is not full.
proof fn lemma_carry_inc_at(s: Seq<u8>, k: int)
    requires
        0 <= k < s.len(),
        forall|j: int| 0 <= j < k ==> s[j] == 255,
        s[k] < 255,
    ensures
        carry_inc(s) =~= Seq::new(k as nat, |j: int| 0u8) + seq![(s[k] + 1) as u8] + s.subrange(k + 1, s.len() as int),
    decreases k,
{
    if k > 0 {
        lemma_carry_inc_at(s.drop_first(), k - 1);
        assert(s.drop_first().subrange(k, s.len() - 1) =~= s.subrange(k + 1, s.len() as int));
    }
}

/// A buffer after one count in the counter of `bytedepth` bytes starting at
/// byte `base`.
pub open spec fn bytes_inc(data: Seq<u8>, base: int, bytedepth: int) -> Seq<u8> {
    data.subrange(0, base) + sat_inc(data.subrange(base, base + bytedepth))
        + data.subrange(base + bytedepth, data.len() as int)
}

/// Counts one in the little-endian counter of `bytedepth` bytes that starts at
/// byte `base`; a full counter stays full.
pub fn increment_at(data: &mut Vec<u8>, base: usize, bytedepth: usize)
    requires
        0 < bytedepth,
        base + bytedepth <= old(data).len(),
    ensures
        final(data)@ == bytes_inc(old(data)@, base as int, bytedepth as int),
{
    let ghost c = old(data)@.subrange(base as int, base + bytedepth);
    let mut k: usize = 0;
    while k < bytedepth && data[base + k] == 255
        invariant
            base + bytedepth <= data.len(),
            k <= bytedepth,
            data@ == old(data)@,
            c == data@.subrange(base as int, base + bytedepth),
            forall|j: int| 0 <= j < k ==> c[j] == 255,
        decreases bytedepth - k,
    {
        k = k + 1;
    }
    if k == bytedepth {
        assert(all_max(c));
        assert(data@ =~= bytes_inc(old(data)@, base as int, bytedepth as int));
        return;
    }
    proof {
        lemma_carry_inc_at(c, k as int);
    }
    let mut j: usize = 0;
    while j < k
        invariant
            base + bytedepth <= data.len(),
            k < bytedepth,
            j <= k,
            data@.len() == old(data)@.len(),
            forall|i: int| base <= i < base + j ==> #[trigger] data@[i] == 0,
            forall|i: int| 0 <= i < data@.len() && !(base <= i < base + j) ==> data@[i] == old(data)@[i],
        decreases k - j,
    {
        data.set(base + j, 0);
        j = j + 1;
    }
    let v = data[base + k];
    data.set(base + k, v + 1);
    proof {
        assert(!all_max(c));
        assert(data@ =~= bytes_inc(old(data)@, base as int, bytedepth as int));
    }
}

/// Counts one in cell `index` of a frame whose cells have `bytedepth` bytes; a
/// full counter stays full.
pub fn append_to_array(data: &mut Vec<u8>, index: usize, bytedepth: usize)
    requires
        valid_depth(bytedepth),
        index * bytedepth + bytedepth <= old(data).len(),
    ensures
        final(data)@ == frame_inc(old(data)@, index as int, bytedepth as int),
{
    increment_at(data, index * bytedepth, bytedepth);
}

/// The sum of the values of the first `n` cells.
pub open spec fn frame_total(data: Seq<u8>, bytedepth: int, n: int) -> int
    decreases n,
{
    if n <= 0 {
        0
    } else {
        frame_total(data, bytedepth, n - 1) + le_value(cell(data, n - 1, bytedepth))
    }
}

/// Changing one cell changes the total by the change of that cell.
proof fn lemma_total_update(f: Seq<u8>, g: Seq<u8>, bytedepth: int, n: int, c: int)
    requires
        0 <= c,
        forall|i: int| 0 <= i < n && i != c ==> cell(g, i, bytedepth) == cell(f, i, bytedepth),
    ensures
        frame_total(g, bytedepth, n) == frame_total(f, bytedepth, n) + (if c < n {
            le_value(cell(g, c, bytedepth)) - le_value(cell(f, c, bytedepth))
        } else {
            0
        }),
    decreases n,
{
    if n > 0 {
        lemma_total_update(f, g, bytedepth, n - 1, c);
    }
}

/// One count in a cell that is not full raises the total of the frame by one;
/// in a full cell it changes nothing.
pub proof fn lemma_frame_inc_total(data: Seq<u8>, index: int, bytedepth: int, n: int)
    requires
        0 <= index < n,
        0 < bytedepth,
        n * bytedepth <= data.len(),
    ensures
        frame_total(frame_inc(data, index, bytedepth), bytedepth, n) == frame_total(data, bytedepth, n)
            + (if all_max(cell(data, index, bytedepth)) { 0int } else { 1 }),
{
    assert(index * bytedepth + bytedepth <= n * bytedepth) by (nonlinear_arith)
        requires
            index < n,
            bytedepth > 0,
    ;
    lemma_frame_inc_frame(data, index, bytedepth);
    let g = frame_inc(data, index, bytedepth);
    let c = cell(data, index, bytedepth);
    lemma_carry_inc_len(c);
    assert forall|i: int| 0 <= i < n && i != index implies cell(g, i, bytedepth) == cell(data, i, bytedepth) by {
        assert(0 <= i * bytedepth && i * bytedepth + bytedepth <= n * bytedepth) by (nonlinear_arith)
            requires
                0 <= i < n,
                bytedepth > 0,
        ;
        assert(i * bytedepth + bytedepth <= index * bytedepth || index * bytedepth + bytedepth <= i * bytedepth)
            by (nonlinear_arith)
            requires
                i != index,
                bytedepth > 0,
        ;
        assert(cell(g, i, bytedepth) =~= cell(data, i, bytedepth));
    }
    assert(0 <= index * bytedepth) by (nonlinear_arith)
        requires
            0 <= index,
            bytedepth > 0,
    ;
    assert(cell(g, index, bytedepth) =~= sat_inc(c));
    lemma_total_update(data, g, bytedepth, n, index);
    if !all_max(c) {
        lemma_carry_inc_value(c);
    }
}

} // verus!
