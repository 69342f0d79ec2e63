//! Narrowing 16-bit counters to one byte each, carrying what does not fit into
//! the next byte.
use vstd::prelude::*;

verus! {

/// Byte `k` of the narrowed counters: a counter over 255 keeps its remainder
/// modulo 255; one that fits gets the carry (the quotient by 255) of the
/// counter before it, when that one did not fit.
pub open spec fn narrowed(d: Seq<u16>, k: int) -> int {
    if d[k] > 255 {
        d[k] as int % 255
    } else if k > 0 && d[k - 1] > 255 {
        d[k] as int + d[k - 1] as int / 255
    } else {
        d[k] as int
    }
}

/// Whether every carry has a next byte to go to and fits there.
pub open spec fn narrowable(d: Seq<u16>) -> bool {
    &&& (d.len() > 0 ==> d.last() <= 255)
    &&& forall|k: int| 0 < k < d.len() && d[k - 1] > 255 ==> (#[trigger] d[k]) % 256 + d[k - 1] / 255 <= 255
}

/// One byte per counter, carries moved to the next byte.
pub fn from_16_to_8(data: &[u16]) -> (r: Vec<u8>)
    requires
        narrowable(data@),
    ensures
        r@.len() == data@.len(),
        forall|k: int| 0 <= k < data@.len() ==> #[trigger] r@[k] == narrowed(data@, k),
{
    let mut out: Vec<u8> = Vec::new();
    let mut k: usize = 0;
    while k < data.len()
        invariant
            k <= data@.len(),
            narrowable(data@),
            out@.len() == k,
            forall|j: int| 0 <= j < k ==> #[trigger] out@[j] == narrowed(data@, j),
        decreases data@.len() - k,
    {
        let v = data[k];
        let b: u8 = if v > 255 {
            (v % 255) as u8
        } else if k > 0 && data[k - 1] > 255 {
            assert(v % 256 == v);
            (v + data[k - 1] / 255) as u8
        } else {
            v as u8
        };
        out.push(b);
        k = k + 1;
    }
    out
}

/// Adds two counter lists element by element (over the shorter length), then
/// narrows the sums.
pub fn double_from_16_to_8(data: &[u16], data2: &[u16]) -> (r: Vec<u8>)
    requires
        forall|k: int| 0 <= k < data@.len() && k < data2@.len() ==> #[trigger] data@[k] + data2@[k] <= u16::MAX,
        narrowable(Seq::new(
            (if data@.len() < data2@.len() { data@.len() } else { data2@.len() }) as nat,
            |k: int| (data@[k] + data2@[k]) as u16,
        )),
    ensures
        ({
            let sums = Seq::new(
                (if data@.len() < data2@.len() { data@.len() } else { data2@.len() }) as nat,
                |k: int| (data@[k] + data2@[k]) as u16,
            );
            &&& r@.len() == sums.len()
            &&& forall|k: int| 0 <= k < sums.len() ==> #[trigger] r@[k] == narrowed(sums, k)
        }),
{
    let n = if data.len() < data2.len() { data.len() } else { data2.len() };
    let ghost sums = Seq::new(n as nat, |k: int| (data@[k] + data2@[k]) as u16);
    let mut s: Vec<u16> = Vec::new();
    let mut k: usize = 0;
    while k < n
        invariant
            k <= n,
            n <= data@.len(),
            n <= data2@.len(),
            sums == Seq::new(n as nat, |k: int| (data@[k] + data2@[k]) as u16),
            forall|k: int| 0 <= k < data@.len() && k < data2@.len() ==> #[trigger] data@[k] + data2@[k] <= u16::MAX,
            s@ == sums.subrange(0, k as int),
        decreases n - k,
    {
        s.push(data[k] + data2[k]);
        k = k + 1;
        assert(s@ =~= sums.subrange(0, k as int));
    }
    assert(s@ =~= sums);
    from_16_to_8(s.as_slice())
}

} // verus!
