//! The MAC controller's ring logic: finding a received frame, finding and
//! reclaiming transmit buffers, the gather/scatter tokens, and decoding the
//! interrupt flags.
use vstd::prelude::*;
use crate::dma::{
    rx_wrap_of, BufferDescriptor, BufferDescriptorListWrap, BufferDescriptorOwnership, RxBuffer,
    RxBufferDescriptor, TxBuffer, TxBufferDescriptor, BUFFER_SIZE, RX_ADDRESS_MASK,
    TX_LENGTH_MASK,
};

verus! {

/// Index `m` steps after index `s` in a ring of `n`, for `s < n` and `m < n`.
pub open spec fn ring_index(s: int, m: int, n: int) -> int {
    if s + m < n {
        s + m
    } else {
        s + m - n
    }
}

/// How many steps forward index `e` lies from index `s` in a ring of `n`.
pub open spec fn ring_distance(s: int, e: int, n: int) -> int {
    if e >= s {
        e - s
    } else {
        e + n - s
    }
}

/// The ring index that step `t` of a two-pass scan visits.
pub open spec fn step_index(t: int, n: int) -> int {
    if t < n {
        t
    } else {
        t - n
    }
}

pub open spec fn rx_software(d: RxBufferDescriptor) -> bool {
    d.spec_ownership() == BufferDescriptorOwnership::Software
}

/// The receive window scan from step `t` on, with `start` the most recent
/// software-owned start of frame not yet invalidated. The scan visits the
/// ring at most twice from index 0; a hardware-owned descriptor forgets the
/// start; a software-owned end of frame after a start ends the scan with
/// that pair; the second pass only runs when the first ended with a start.
pub open spec fn rx_scan(descs: Seq<RxBufferDescriptor>, t: int, start: Option<int>) -> Option<(int, int)>
    decreases 2 * descs.len() - t,
{
    let n = descs.len() as int;
    if t < 0 || t >= 2 * n || (t == n && start is None) {
        None
    } else {
        let i = step_index(t, n);
        let d = descs[i];
        let start1 = if d.spec_start_of_frame() && rx_software(d) {
            Some(i)
        } else {
            start
        };
        if d.spec_end_of_frame() && rx_software(d) && start1 is Some {
            Some((start1->0, i))
        } else if !rx_software(d) {
            rx_scan(descs, t + 1, None)
        } else {
            rx_scan(descs, t + 1, start1)
        }
    }
}

/// The receive window of a ring: first and last descriptor of a complete
/// received frame, if one is ready.
pub open spec fn rx_window(descs: Seq<RxBufferDescriptor>) -> Option<(int, int)> {
    rx_scan(descs, 0, None)
}

proof fn lemma_rx_scan_run(
    descs: Seq<RxBufferDescriptor>,
    t: int,
    start: Option<int>,
    t0: int,
    s: int,
    e: int,
)
    requires
        0 <= t,
        rx_scan(descs, t, start) == Some((s, e)),
        start matches Some(s0) ==> {
            &&& 0 <= t0 < t
            &&& t - t0 <= descs.len()
            &&& step_index(t0, descs.len() as int) == s0
            &&& descs[s0].spec_start_of_frame()
            &&& forall|u: int|
                t0 <= u < t ==> rx_software(#[trigger] descs[step_index(u, descs.len() as int)])
        },
    ensures
        0 <= s < descs.len(),
        0 <= e < descs.len(),
        descs[s].spec_start_of_frame(),
        descs[e].spec_end_of_frame(),
        ring_distance(s, e, descs.len() as int) < descs.len(),
        forall|m: int|
            0 <= m <= ring_distance(s, e, descs.len() as int) ==> rx_software(
                #[trigger] descs[ring_index(s, m, descs.len() as int)],
            ),
    decreases 2 * descs.len() - t,
{
    let n = descs.len() as int;
    let i = step_index(t, n);
    let d = descs[i];
    let sw = rx_software(d);
    let fresh = d.spec_start_of_frame() && sw;
    let start1 = if fresh {
        Some(i)
    } else {
        start
    };
    let t1 = if fresh {
        t
    } else {
        t0
    };
    if !fresh && start is Some && t - t0 == n {
        assert(i == step_index(t0, n));
    }
    if d.spec_end_of_frame() && sw && start1 is Some {
        let s1 = start1->0;
        assert(s == s1 && e == i);
        assert(ring_distance(s1, i, n) == t - t1);
        assert forall|m: int| 0 <= m <= ring_distance(s, e, n) implies rx_software(
            #[trigger] descs[ring_index(s, m, n)],
        ) by {
            let u = t1 + m;
            assert(step_index(u, n) == ring_index(s, m, n));
            if u < t {
                assert(rx_software(descs[step_index(u, n)]));
            }
        }
    } else if !sw {
        lemma_rx_scan_run(descs, t + 1, None, t0, s, e);
    } else {
        if start1 is Some {
            assert forall|u: int| t1 <= u < t + 1 implies rx_software(
                #[trigger] descs[step_index(u, n)],
            ) by {
                if u < t {
                    assert(rx_software(descs[step_index(u, n)]));
                }
            }
        }
        lemma_rx_scan_run(descs, t + 1, start1, t1, s, e);
    }
}

/// A receive window is never reported across a hardware-owned descriptor:
/// from its start of frame to its end of frame, going forward round the
/// ring, every descriptor is software-owned, and the run is shorter than
/// the ring.
pub proof fn lemma_rx_window_all_software(descs: Seq<RxBufferDescriptor>, s: int, e: int)
    requires
        rx_window(descs) == Some((s, e)),
    ensures
        0 <= s < descs.len(),
        0 <= e < descs.len(),
        descs[s].spec_start_of_frame(),
        descs[e].spec_end_of_frame(),
        ring_distance(s, e, descs.len() as int) < descs.len(),
        forall|m: int|
            0 <= m <= ring_distance(s, e, descs.len() as int) ==> rx_software(
                #[trigger] descs[ring_index(s, m, descs.len() as int)],
            ),
{
    lemma_rx_scan_run(descs, 0, None, 0, s, e);
}

pub open spec fn window_start(start: Option<usize>) -> Option<int> {
    match start {
        Some(s) => Some(s as int),
        None => None,
    }
}

pub open spec fn window_as_int(w: Option<(usize, usize)>) -> Option<(int, int)> {
    match w {
        Some((a, b)) => Some((a as int, b as int)),
        None => None,
    }
}

pub open spec fn tx_software(d: TxBufferDescriptor) -> bool {
    d.spec_ownership() == BufferDescriptorOwnership::Software
}

/// The first software-owned descriptor at or after `qp` going forward,
/// looking from `m` steps on.
pub open spec fn first_software_from(descs: Seq<TxBufferDescriptor>, qp: int, m: int) -> Option<int>
    decreases descs.len() - m,
{
    let n = descs.len() as int;
    if m < 0 || m >= n {
        None
    } else if tx_software(descs[ring_index(qp, m, n)]) {
        Some(ring_index(qp, m, n))
    } else {
        first_software_from(descs, qp, m + 1)
    }
}

/// The index that the reclaim walk visits at its step `k`: `k` places
/// before the queue pointer.
pub open spec fn back_index(qp: int, k: int, n: int) -> int {
    ring_index(qp, n - k, n)
}

/// The step at which the reclaim walk visits index `j`.
pub open spec fn back_step(qp: int, j: int, n: int) -> int {
    if qp >= j {
        qp - j
    } else {
        qp - j + n
    }
}

/// Whether the reclaim walk is at the end of a frame when it reaches step
/// `k`: at the start, or right after a software-owned descriptor.
pub open spec fn walk_end_of_buffer(descs: Seq<TxBufferDescriptor>, qp: int, k: int) -> bool {
    k == 1 || tx_software(descs[back_index(qp, k - 1, descs.len() as int)])
}

/// The reclaim walk stops at step `k`: a software-owned descriptor where a
/// frame should have ended.
pub open spec fn walk_stops_at(descs: Seq<TxBufferDescriptor>, qp: int, k: int) -> bool {
    tx_software(descs[back_index(qp, k, descs.len() as int)]) && walk_end_of_buffer(descs, qp, k)
}

/// The step at which the reclaim walk stops, looking from step `k` on; the
/// ring length when it runs out.
pub open spec fn walk_end_from(descs: Seq<TxBufferDescriptor>, qp: int, k: int) -> int
    decreases descs.len() - k,
{
    if k < 1 || k >= descs.len() {
        descs.len() as int
    } else if walk_stops_at(descs, qp, k) {
        k
    } else {
        walk_end_from(descs, qp, k + 1)
    }
}

pub open spec fn walk_end(descs: Seq<TxBufferDescriptor>, qp: int) -> int {
    walk_end_from(descs, qp, 1)
}

/// The ring after the first `k - 1` steps of the reclaim walk from `qp`:
/// each hardware-owned descriptor visited is claimed back.
pub open spec fn reclaimed_upto(descs: Seq<TxBufferDescriptor>, qp: int, k: int) -> Seq<TxBufferDescriptor> {
    let n = descs.len() as int;
    Seq::new(
        descs.len(),
        |j: int|
            {
                let step = back_step(qp, j, n);
                if 1 <= step < k && !tx_software(descs[j]) {
                    descs[j].claimed()
                } else {
                    descs[j]
                }
            },
    )
}

/// The ring after the whole reclaim walk from `qp`.
pub open spec fn reclaimed(descs: Seq<TxBufferDescriptor>, qp: int) -> Seq<TxBufferDescriptor> {
    reclaimed_upto(descs, qp, walk_end(descs, qp))
}

/// What the reclaim walk observed at one descriptor.
#[derive(Clone, Copy, Debug, PartialEq, Eq, Structural)]
pub enum TxReclaimNote {
    /// A hardware-owned descriptor where a frame should end does not end
    /// one; it was claimed anyway.
    Dangling(usize),
    /// A hardware-owned descriptor inside a frame ends a frame: that frame
    /// may not have been sent; it was claimed anyway.
    Unsent(usize),
    /// A software-owned descriptor that the DMA engine has finished with.
    Completed(usize),
    /// A software-owned descriptor where a frame should end: the walk
    /// stopped there, on what may be a duplicate.
    Duplicate(usize),
}

/// The notes of step `k` of the reclaim walk.
pub open spec fn note_at(descs: Seq<TxBufferDescriptor>, qp: int, k: int) -> Seq<TxReclaimNote> {
    let j = back_index(qp, k, descs.len() as int);
    let d = descs[j];
    let eob = walk_end_of_buffer(descs, qp, k);
    if !tx_software(d) {
        if eob && !d.spec_end_of_frame() {
            seq![TxReclaimNote::Dangling(j as usize)]
        } else if !eob && d.spec_end_of_frame() {
            seq![TxReclaimNote::Unsent(j as usize)]
        } else {
            seq![]
        }
    } else if eob {
        seq![TxReclaimNote::Duplicate(j as usize)]
    } else {
        seq![TxReclaimNote::Completed(j as usize)]
    }
}

/// The notes of steps 1 to `k - 1` of the reclaim walk.
pub open spec fn notes_upto(descs: Seq<TxBufferDescriptor>, qp: int, k: int) -> Seq<TxReclaimNote>
    decreases k,
{
    if k <= 1 {
        seq![]
    } else {
        notes_upto(descs, qp, k - 1) + note_at(descs, qp, k - 1)
    }
}

/// The notes of the whole reclaim walk, its stopping step included.
pub open spec fn reclaim_notes(descs: Seq<TxBufferDescriptor>, qp: int) -> Seq<TxReclaimNote> {
    let end = walk_end(descs, qp);
    if end < descs.len() {
        notes_upto(descs, qp, end + 1)
    } else {
        notes_upto(descs, qp, descs.len() as int)
    }
}

/// The `len` descriptors from `s` on are all software-owned.
pub open spec fn software_run(descs: Seq<TxBufferDescriptor>, s: int, len: int) -> bool {
    forall|m: int|
        0 <= m < len ==> tx_software(#[trigger] descs[ring_index(s, m, descs.len() as int)])
}

/// `len` is the length of the run of software-owned descriptors from `s`.
pub open spec fn is_software_run(descs: Seq<TxBufferDescriptor>, s: int, len: int) -> bool {
    &&& 1 <= len <= descs.len()
    &&& software_run(descs, s, len)
    &&& len < descs.len() ==> !tx_software(descs[ring_index(s, len, descs.len() as int)])
}

proof fn lemma_walk_end(descs: Seq<TxBufferDescriptor>, qp: int, j: int, k: int)
    requires
        1 <= j <= k <= descs.len(),
        forall|i: int| j <= i < k ==> !walk_stops_at(descs, qp, i),
        k == descs.len() || walk_stops_at(descs, qp, k),
    ensures
        walk_end_from(descs, qp, j) == k,
    decreases k - j,
{
    if j < k {
        lemma_walk_end(descs, qp, j + 1, k);
    }
}

proof fn lemma_first_software(descs: Seq<TxBufferDescriptor>, qp: int, j: int, m: int)
    requires
        0 <= j <= m < descs.len(),
        forall|i: int| j <= i < m ==> !tx_software(#[trigger] descs[ring_index(qp, i, descs.len() as int)]),
        tx_software(descs[ring_index(qp, m, descs.len() as int)]),
    ensures
        first_software_from(descs, qp, j) == Some(ring_index(qp, m, descs.len() as int)),
    decreases m - j,
{
    if j < m {
        lemma_first_software(descs, qp, j + 1, m);
    }
}

proof fn lemma_first_software_found(descs: Seq<TxBufferDescriptor>, qp: int, m: int)
    requires
        0 <= qp < descs.len(),
        first_software_from(descs, qp, m) is Some,
    ensures
        0 <= first_software_from(descs, qp, m)->0 < descs.len(),
        tx_software(descs[first_software_from(descs, qp, m)->0]),
    decreases descs.len() - m,
{
    let n = descs.len() as int;
    if 0 <= m < n && !tx_software(descs[ring_index(qp, m, n)]) {
        lemma_first_software_found(descs, qp, m + 1);
    }
}

proof fn lemma_no_software(descs: Seq<TxBufferDescriptor>, qp: int, j: int)
    requires
        0 <= j <= descs.len(),
        forall|i: int| j <= i < descs.len() ==> !tx_software(#[trigger] descs[ring_index(qp, i, descs.len() as int)]),
    ensures
        first_software_from(descs, qp, j) is None,
    decreases descs.len() - j,
{
    if j < descs.len() {
        lemma_no_software(descs, qp, j + 1);
    }
}

/// The first software-owned descriptor at or after `queue_ptr`, going
/// forward round the ring.
fn first_software(tx: &TxBuffer, queue_ptr: usize) -> (r: Option<usize>)
    requires
        tx.wf(),
        queue_ptr < tx.spec_descriptors().len(),
    ensures
        window_start(r) == first_software_from(tx.spec_descriptors(), queue_ptr as int, 0),
        r matches Some(s) ==> s < tx.spec_descriptors().len(),
{
    let n = tx.len();
    let descriptors = tx.descriptors();
    let ghost descs = tx.spec_descriptors();
    let mut m: usize = 0;
    while m < n
        invariant
            descriptors@ == descs,
            descs == tx.spec_descriptors(),
            n == descs.len(),
            queue_ptr < n,
            m <= n,
            forall|i: int|
                0 <= i < m ==> !tx_software(#[trigger] descs[ring_index(queue_ptr as int, i, n as int)]),
        decreases n - m,
    {
        let d = if queue_ptr < n - m {
            queue_ptr + m
        } else {
            queue_ptr - (n - m)
        };
        if descriptors[d].ownership() == BufferDescriptorOwnership::Software {
            proof {
                lemma_first_software(descs, queue_ptr as int, 0, m as int);
            }
            return Some(d);
        }
        m = m + 1;
    }
    proof {
        lemma_no_software(descs, queue_ptr as int, 0);
    }
    None
}

/// Walks backward from `queue_ptr` over the previously used transmit
/// buffers, claiming back those that the DMA engine still marks as its own:
/// it clears that mark only on the first buffer of a frame it has sent.
/// Frame extents are inferred from the last-buffer flags on the way.
fn reclaim(tx: &mut TxBuffer, queue_ptr: usize) -> (notes: Vec<TxReclaimNote>)
    requires
        old(tx).wf(),
        queue_ptr < old(tx).spec_descriptors().len(),
    ensures
        final(tx).spec_descriptors() == reclaimed(old(tx).spec_descriptors(), queue_ptr as int),
        final(tx).spec_region() == old(tx).spec_region(),
        final(tx).spec_list_address() == old(tx).spec_list_address(),
        notes@ == reclaim_notes(old(tx).spec_descriptors(), queue_ptr as int),
{
    let n = tx.len();
    let ghost descs = tx.spec_descriptors();
    let ghost qp = queue_ptr as int;
    let mut notes: Vec<TxReclaimNote> = Vec::new();
    let mut end_of_buffer = true;
    let mut k: usize = 1;
    assert(tx.spec_descriptors() =~= reclaimed_upto(descs, qp, 1));
    while k < n
        invariant
            tx.wf(),
            n == descs.len(),
            n >= 2,
            qp == queue_ptr,
            queue_ptr < n,
            1 <= k <= n,
            descs == old(tx).spec_descriptors(),
            tx.spec_region() == old(tx).spec_region(),
            tx.spec_list_address() == old(tx).spec_list_address(),
            tx.spec_descriptors() == reclaimed_upto(descs, qp, k as int),
            end_of_buffer == walk_end_of_buffer(descs, qp, k as int),
            forall|i: int| 1 <= i < k ==> !walk_stops_at(descs, qp, i),
            notes@ == notes_upto(descs, qp, k as int),
        decreases n - k,
    {
        let i = if queue_ptr >= k {
            queue_ptr - k
        } else {
            queue_ptr + (n - k)
        };
        assert(i == back_index(qp, k as int, n as int));
        assert(back_step(qp, i as int, n as int) == k);
        let d = tx.descriptors()[i];
        assert(d == descs[i as int]);
        if d.ownership() == BufferDescriptorOwnership::Hardware {
            if end_of_buffer && !d.end_of_frame() {
                notes.push(TxReclaimNote::Dangling(i));
            } else if !end_of_buffer && d.end_of_frame() {
                notes.push(TxReclaimNote::Unsent(i));
            }
            end_of_buffer = false;
            tx.claim_at(i);
            assert(tx.spec_descriptors() =~= reclaimed_upto(descs, qp, k + 1));
        } else {
            if end_of_buffer {
                notes.push(TxReclaimNote::Duplicate(i));
                proof {
                    lemma_walk_end(descs, qp, 1, k as int);
                }
                assert(notes@ =~= notes_upto(descs, qp, k + 1));
                return notes;
            }
            notes.push(TxReclaimNote::Completed(i));
            end_of_buffer = true;
            assert(tx.spec_descriptors() =~= reclaimed_upto(descs, qp, k + 1));
        }
        assert(notes@ =~= notes_upto(descs, qp, k + 1));
        k = k + 1;
    }
    proof {
        lemma_walk_end(descs, qp, 1, n as int);
    }
    notes
}

/// The length of the run of software-owned descriptors from `start`.
fn software_run_length(tx: &TxBuffer, start: usize) -> (len: usize)
    requires
        tx.wf(),
        start < tx.spec_descriptors().len(),
        tx_software(tx.spec_descriptors()[start as int]),
    ensures
        is_software_run(tx.spec_descriptors(), start as int, len as int),
{
    let n = tx.len();
    let descriptors = tx.descriptors();
    let ghost descs = tx.spec_descriptors();
    let mut len: usize = 1;
    assert(software_run(descs, start as int, 1)) by {
        assert(ring_index(start as int, 0, n as int) == start);
    }
    while len < n
        invariant
            descriptors@ == descs,
            descs == tx.spec_descriptors(),
            n == descs.len(),
            start < n,
            1 <= len <= n,
            software_run(descs, start as int, len as int),
        decreases n - len,
    {
        let j = if start < n - len {
            start + len
        } else {
            start - (n - len)
        };
        if descriptors[j].ownership() != BufferDescriptorOwnership::Software {
            return len;
        }
        assert(software_run(descs, start as int, len + 1)) by {
            assert forall|m: int| 0 <= m < len + 1 implies tx_software(
                #[trigger] descs[ring_index(start as int, m, n as int)],
            ) by {
                if m < len {
                    assert(tx_software(descs[ring_index(start as int, m, n as int)]));
                }
            }
        }
        len = len + 1;
    }
    len
}

/// The ring after a receive window from `s` to `e` has been consumed: its
/// descriptors handed back to the DMA engine.
pub open spec fn rx_released_window(descs: Seq<RxBufferDescriptor>, s: int, e: int) -> Seq<RxBufferDescriptor> {
    let n = descs.len() as int;
    Seq::new(
        descs.len(),
        |j: int|
            if ring_distance(s, j, n) <= ring_distance(s, e, n) {
                descs[j].released()
            } else {
                descs[j]
            },
    )
}

/// The number of 128-byte buffers that a frame of `len` bytes spans.
pub open spec fn buffer_count(len: int) -> int {
    (len + 127) / 128
}

/// A transmit descriptor after it has carried buffer `q` of the `k` buffers
/// of a frame of `len` bytes: the length is written on the first buffer
/// only, the last-buffer flag is set on the last one and cleared on the
/// others, and the buffer is queued for the DMA engine.
pub open spec fn scattered_descriptor(d: TxBufferDescriptor, q: int, k: int, len: int) -> TxBufferDescriptor {
    let d1 = if q == 0 {
        d.with_length(
            if len < 128 {
                len as u32
            } else {
                128
            },
        )
    } else {
        d
    };
    d1.with_last_buffer(q == k - 1).released()
}

/// The transmit ring after a frame of `len` bytes was written from `start`.
pub open spec fn scattered(descs: Seq<TxBufferDescriptor>, start: int, len: int) -> Seq<TxBufferDescriptor> {
    let n = descs.len() as int;
    Seq::new(
        descs.len(),
        |j: int|
            {
                let q = ring_distance(start, j, n);
                if q < buffer_count(len) {
                    scattered_descriptor(descs[j], q, buffer_count(len), len)
                } else {
                    descs[j]
                }
            },
    )
}

/// Byte `b` of buffer `q` of a frame: its data, then zero padding.
pub open spec fn frame_byte(data: Seq<u8>, q: int, b: int) -> u8 {
    if 128 * q + b < data.len() {
        data[128 * q + b]
    } else {
        0
    }
}

proof fn lemma_scattered_descriptor(d: TxBufferDescriptor, q: int, k: int, len: int)
    requires
        0 <= q < k,
        1 <= len,
    ensures
        !tx_software(scattered_descriptor(d, q, k, len)),
        scattered_descriptor(d, q, k, len).spec_last_buffer() == (q == k - 1),
        q == 0 ==> scattered_descriptor(d, q, k, len).spec_length() == if len < 128 {
            len
        } else {
            128
        },
        q > 0 ==> scattered_descriptor(d, q, k, len).spec_length() == d.spec_length(),
        scattered_descriptor(d, q, k, len).word0 == d.word0,
{
    let w = d.word1;
    let l: u32 = if len < 128 {
        len as u32
    } else {
        128
    };
    let last = q == k - 1;
    let f: u32 = if last {
        0x8000
    } else {
        0
    };
    let w1 = if q == 0 {
        (w & !0x3FFFu32) | l
    } else {
        w
    };
    assert(w1 == if q == 0 {
        d.with_length(l).word1
    } else {
        d.word1
    });
    let out = ((w1 & !0x8000u32) | f) & !0x8000_0000u32;
    assert(out == scattered_descriptor(d, q, k, len).word1);
    assert(out & 0x8000_0000 == 0 && ((out & 0x8000 != 0) == (f != 0)) && out & 0x3FFF == w1
        & 0x3FFF) by (bit_vector)
        requires
            out == ((w1 & !0x8000u32) | f) & !0x8000_0000u32,
            f == 0 || f == 0x8000,
    ;
    if q == 0 {
        assert(((w & !0x3FFFu32) | l) & 0x3FFF == l) by (bit_vector)
            requires
                l <= 128,
        ;
    }
}

/// Writing a frame of `len` bytes from `start` queues exactly the buffers
/// it spans for the DMA engine and leaves the others as they were; among
/// those buffers the last-buffer flag is set on the last one alone, and a
/// length, that of the first buffer's data, is written on the first one
/// alone.
pub proof fn lemma_scatter_marks(descs: Seq<TxBufferDescriptor>, start: int, len: int)
    requires
        0 <= start < descs.len(),
        1 <= len,
        buffer_count(len) <= descs.len(),
    ensures
        forall|j: int|
            0 <= j < descs.len() ==> {
                let after = #[trigger] scattered(descs, start, len)[j];
                let q = ring_distance(start, j, descs.len() as int);
                let k = buffer_count(len);
                &&& q < k ==> !tx_software(after)
                &&& q < k ==> (after.spec_last_buffer() <==> q == k - 1)
                &&& q == 0 ==> after.spec_length() == if len < 128 {
                    len
                } else {
                    128
                }
                &&& 0 < q < k ==> after.spec_length() == descs[j].spec_length()
                &&& q >= k ==> after == descs[j]
            },
{
    let n = descs.len() as int;
    let k = buffer_count(len);
    assert forall|j: int| 0 <= j < descs.len() implies {
        let after = #[trigger] scattered(descs, start, len)[j];
        let q = ring_distance(start, j, n);
        &&& q < k ==> !tx_software(after)
        &&& q < k ==> (after.spec_last_buffer() <==> q == k - 1)
        &&& q == 0 ==> after.spec_length() == if len < 128 {
            len
        } else {
            128
        }
        &&& 0 < q < k ==> after.spec_length() == descs[j].spec_length()
        &&& q >= k ==> after == descs[j]
    } by {
        let q = ring_distance(start, j, n);
        if q < k {
            lemma_scattered_descriptor(descs[j], q, k, len);
        }
    }
}

/// Only the physically last receive descriptor carries the wrap marker.
pub open spec fn rx_wraps_only_at_end(descs: Seq<RxBufferDescriptor>) -> bool {
    forall|i: int|
        0 <= i < descs.len() ==> (#[trigger] descs[i].spec_wrapping() == BufferDescriptorListWrap::Wrap
            <==> i == descs.len() - 1)
}

/// Only the physically last transmit descriptor carries the wrap marker.
pub open spec fn tx_wraps_only_at_end(descs: Seq<TxBufferDescriptor>) -> bool {
    forall|i: int|
        0 <= i < descs.len() ==> (#[trigger] descs[i].spec_wrapping() == BufferDescriptorListWrap::Wrap
            <==> i == descs.len() - 1)
}

proof fn lemma_rx_release_keeps_wrap(d: RxBufferDescriptor)
    ensures
        d.released().spec_wrapping() == d.spec_wrapping(),
{
    let w = d.word0;
    let a = w & RX_ADDRESS_MASK;
    assert(a % 4 == 0) by (bit_vector)
        requires
            a == w & 0xFFFF_FFFC,
    ;
    crate::dma::lemma_rx_word0_round_trip(a, rx_wrap_of(w), BufferDescriptorOwnership::Hardware);
}

proof fn lemma_tx_marks_keep_wrap(d: TxBufferDescriptor, length: u32, last: bool)
    requires
        length <= TX_LENGTH_MASK,
    ensures
        d.released().spec_wrapping() == d.spec_wrapping(),
        d.claimed().spec_wrapping() == d.spec_wrapping(),
        d.with_length(length).spec_wrapping() == d.spec_wrapping(),
        d.with_last_buffer(last).spec_wrapping() == d.spec_wrapping(),
{
    let w = d.word1;
    let f: u32 = if last {
        0x8000
    } else {
        0
    };
    assert(((w & !0x8000_0000u32) & 0x4000_0000 == 0) == (w & 0x4000_0000 == 0) && ((w
        | 0x8000_0000u32) & 0x4000_0000 == 0) == (w & 0x4000_0000 == 0) && (((w & !0x3FFFu32)
        | length) & 0x4000_0000 == 0) == (w & 0x4000_0000 == 0) && (((w & !0x8000u32) | f)
        & 0x4000_0000 == 0) == (w & 0x4000_0000 == 0)) by (bit_vector)
        requires
            length <= 0x3FFF,
            f == 0 || f == 0x8000,
    ;
}

/// Consuming a receive window keeps the ring's wrap layout.
pub proof fn lemma_rx_release_keeps_layout(descs: Seq<RxBufferDescriptor>, s: int, e: int)
    requires
        rx_wraps_only_at_end(descs),
    ensures
        rx_wraps_only_at_end(rx_released_window(descs, s, e)),
{
    assert forall|i: int| 0 <= i < descs.len() implies (#[trigger] rx_released_window(
        descs,
        s,
        e,
    )[i].spec_wrapping() == BufferDescriptorListWrap::Wrap <==> i == descs.len() - 1) by {
        lemma_rx_release_keeps_wrap(descs[i]);
        assert(descs[i].spec_wrapping() == BufferDescriptorListWrap::Wrap <==> i == descs.len() - 1);
    }
}

/// Reclaiming transmit buffers keeps the ring's wrap layout.
pub proof fn lemma_reclaim_keeps_layout(descs: Seq<TxBufferDescriptor>, qp: int)
    requires
        tx_wraps_only_at_end(descs),
    ensures
        tx_wraps_only_at_end(reclaimed(descs, qp)),
{
    assert forall|i: int| 0 <= i < descs.len() implies (#[trigger] reclaimed(descs, qp)[i].spec_wrapping()
        == BufferDescriptorListWrap::Wrap <==> i == descs.len() - 1) by {
        lemma_tx_marks_keep_wrap(descs[i], 0, false);
        assert(descs[i].spec_wrapping() == BufferDescriptorListWrap::Wrap <==> i == descs.len() - 1);
    }
}

/// Writing a frame into transmit buffers keeps the ring's wrap layout.
pub proof fn lemma_scatter_keeps_layout(descs: Seq<TxBufferDescriptor>, start: int, len: int)
    requires
        tx_wraps_only_at_end(descs),
        1 <= len,
    ensures
        tx_wraps_only_at_end(scattered(descs, start, len)),
{
    assert forall|i: int| 0 <= i < descs.len() implies (#[trigger] scattered(descs, start, len)[i].spec_wrapping()
        == BufferDescriptorListWrap::Wrap <==> i == descs.len() - 1) by {
        let d = descs[i];
        let l: u32 = if len < 128 {
            len as u32
        } else {
            128
        };
        lemma_tx_marks_keep_wrap(d, l, false);
        let d1 = if ring_distance(start, i, descs.len() as int) == 0 {
            d.with_length(l)
        } else {
            d
        };
        lemma_tx_marks_keep_wrap(d1, 0, false);
        let k = buffer_count(len);
        let d2 = d1.with_last_buffer(ring_distance(start, i, descs.len() as int) == k - 1);
        lemma_tx_marks_keep_wrap(d1, 0, ring_distance(start, i, descs.len() as int) == k - 1);
        lemma_tx_marks_keep_wrap(d2, 0, false);
        assert(descs[i].spec_wrapping() == BufferDescriptorListWrap::Wrap <==> i == descs.len() - 1);
    }
}

/// Copies the buffers of the window from `start` to `end` into one frame,
/// handing each descriptor back to the DMA engine as it is copied.
fn gather(ring: &mut RxBuffer, start: usize, end: usize) -> (frame: Vec<u8>)
    requires
        old(ring).wf(),
        start < old(ring).spec_descriptors().len(),
        end < old(ring).spec_descriptors().len(),
    ensures
        ({
            let n = old(ring).spec_descriptors().len() as int;
            let dist = ring_distance(start as int, end as int, n);
            &&& frame@.len() == 128 * (dist + 1)
            &&& forall|q: int, b: int|
                0 <= q <= dist && 0 <= b < 128 ==> #[trigger] frame@[128 * q + b]
                    == old(ring).spec_region()[128 * ring_index(start as int, q, n) + b]
            &&& final(ring).spec_descriptors() == rx_released_window(
                old(ring).spec_descriptors(),
                start as int,
                end as int,
            )
        }),
        final(ring).spec_region() == old(ring).spec_region(),
        final(ring).spec_list_address() == old(ring).spec_list_address(),
{
    let n = ring.len();
    let ghost descs = ring.spec_descriptors();
    let ghost region = ring.spec_region();
    let ghost nn = n as int;
    let dist = if end >= start {
        end - start
    } else {
        end + (n - start)
    };
    let mut frame: Vec<u8> = Vec::new();
    let mut q: usize = 0;
    while q <= dist
        invariant
            ring.wf(),
            n == descs.len(),
            nn == n,
            128 * n <= usize::MAX,
            start < n,
            end < n,
            dist == ring_distance(start as int, end as int, nn),
            q <= dist + 1,
            descs == old(ring).spec_descriptors(),
            region == old(ring).spec_region(),
            region.len() == 128 * n,
            ring.spec_region() == region,
            ring.spec_list_address() == old(ring).spec_list_address(),
            frame@.len() == 128 * q,
            forall|q1: int, b: int|
                0 <= q1 < q && 0 <= b < 128 ==> #[trigger] frame@[128 * q1 + b] == region[128
                    * ring_index(start as int, q1, nn) + b],
            ring.spec_descriptors() == Seq::new(
                descs.len(),
                |j: int|
                    if ring_distance(start as int, j, nn) < q {
                        descs[j].released()
                    } else {
                        descs[j]
                    },
            ),
        decreases dist + 1 - q,
    {
        let slot = if start < n - q {
            start + q
        } else {
            start - (n - q)
        };
        assert(slot == ring_index(start as int, q as int, nn));
        assert(ring_distance(start as int, slot as int, nn) == q);
        let base = slot * BUFFER_SIZE;
        let mut b: usize = 0;
        while b < BUFFER_SIZE
            invariant
                ring.wf(),
                n == descs.len(),
                ring.spec_region() == region,
                region.len() == 128 * n,
                slot < n,
                base == 128 * slot,
                128 * n <= usize::MAX,
                b <= 128,
                frame@.len() == 128 * q + b,
                forall|q1: int, b1: int|
                    0 <= q1 < q && 0 <= b1 < 128 ==> #[trigger] frame@[128 * q1 + b1] == region[128
                        * ring_index(start as int, q1, nn) + b1],
                forall|b1: int| 0 <= b1 < b ==> #[trigger] frame@[128 * q + b1] == region[base + b1],
            decreases 128 - b,
        {
            let byte = ring.region()[base + b];
            frame.push(byte);
            b = b + 1;
        }
        ring.release_at(slot);
        assert(ring.spec_descriptors() =~= Seq::new(
            descs.len(),
            |j: int|
                if ring_distance(start as int, j, nn) < q + 1 {
                    descs[j].released()
                } else {
                    descs[j]
                },
        ));
        q = q + 1;
    }
    assert(ring.spec_descriptors() =~= rx_released_window(descs, start as int, end as int));
    frame
}

/// Writes a frame into the buffers from `start` on and queues them for the
/// DMA engine, in order.
fn scatter(ring: &mut TxBuffer, start: usize, data: &[u8])
    requires
        old(ring).wf(),
        start < old(ring).spec_descriptors().len(),
        1 <= data@.len(),
        buffer_count(data@.len() as int) <= old(ring).spec_descriptors().len(),
    ensures
        final(ring).spec_descriptors() == scattered(
            old(ring).spec_descriptors(),
            start as int,
            data@.len() as int,
        ),
        final(ring).spec_region().len() == old(ring).spec_region().len(),
        forall|slot: int, b: int|
            0 <= slot < old(ring).spec_descriptors().len() && 0 <= b < 128 ==> {
                let q = ring_distance(start as int, slot, old(ring).spec_descriptors().len() as int);
                #[trigger] final(ring).spec_region()[128 * slot + b] == if q < buffer_count(
                    data@.len() as int,
                ) {
                    frame_byte(data@, q, b)
                } else {
                    old(ring).spec_region()[128 * slot + b]
                }
            },
        final(ring).spec_list_address() == old(ring).spec_list_address(),
{
    let n = ring.len();
    let len = data.len();
    let ghost descs = ring.spec_descriptors();
    let ghost region = ring.spec_region();
    let ghost nn = n as int;
    let ghost k = buffer_count(len as int);
    let last = (len - 1) / BUFFER_SIZE;
    assert(k == last + 1);
    let mut q: usize = 0;
    while q <= last
        invariant
            ring.wf(),
            n == descs.len(),
            nn == n,
            128 * n <= usize::MAX,
            start < n,
            len == data@.len(),
            len >= 1,
            k == buffer_count(len as int),
            k == last + 1,
            k <= n,
            q <= k,
            descs == old(ring).spec_descriptors(),
            region == old(ring).spec_region(),
            region.len() == 128 * n,
            ring.spec_region().len() == 128 * n,
            ring.spec_list_address() == old(ring).spec_list_address(),
            ring.spec_descriptors() == Seq::new(
                descs.len(),
                |j: int|
                    {
                        let qq = ring_distance(start as int, j, nn);
                        if qq < q {
                            scattered_descriptor(descs[j], qq, k, len as int)
                        } else {
                            descs[j]
                        }
                    },
            ),
            forall|slot: int, b: int|
                0 <= slot < n && 0 <= b < 128 ==> {
                    let qq = ring_distance(start as int, slot, nn);
                    #[trigger] ring.spec_region()[128 * slot + b] == if qq < q {
                        frame_byte(data@, qq, b)
                    } else {
                        region[128 * slot + b]
                    }
                },
        decreases k - q,
    {
        let slot = if start < n - q {
            start + q
        } else {
            start - (n - q)
        };
        assert(slot == ring_index(start as int, q as int, nn));
        assert(ring_distance(start as int, slot as int, nn) == q);
        let base = slot * BUFFER_SIZE;
        let mut b: usize = 0;
        while b < BUFFER_SIZE
            invariant
                ring.wf(),
                n == descs.len(),
                nn == n,
                128 * n <= usize::MAX,
                start < n,
                slot < n,
                ring_distance(start as int, slot as int, nn) == q,
                base == 128 * slot,
                len == data@.len(),
                q < k,
                b <= 128,
                region.len() == 128 * n,
                ring.spec_region().len() == 128 * n,
                ring.spec_descriptors().len() == n,
                ring.spec_list_address() == old(ring).spec_list_address(),
                ring.spec_descriptors() == Seq::new(
                    descs.len(),
                    |j: int|
                        {
                            let qq = ring_distance(start as int, j, nn);
                            if qq < q {
                                scattered_descriptor(descs[j], qq, k, len as int)
                            } else {
                                descs[j]
                            }
                        },
                ),
                forall|slot1: int, b1: int|
                    0 <= slot1 < n && 0 <= b1 < 128 ==> {
                        let qq = ring_distance(start as int, slot1, nn);
                        #[trigger] ring.spec_region()[128 * slot1 + b1] == if qq < q || (slot1
                            == slot && b1 < b) {
                            frame_byte(data@, qq, b1)
                        } else {
                            region[128 * slot1 + b1]
                        }
                    },
            decreases 128 - b,
        {
            let p = q * BUFFER_SIZE + b;
            let value: u8 = if p < len {
                data[p]
            } else {
                0
            };
            let ghost before = ring.spec_region();
            ring.write_byte(base + b, value);
            assert forall|slot1: int, b1: int|
                0 <= slot1 < n && 0 <= b1 < 128 implies {
                    let qq = ring_distance(start as int, slot1, nn);
                    #[trigger] ring.spec_region()[128 * slot1 + b1] == if qq < q || (slot1 == slot
                        && b1 < b + 1) {
                        frame_byte(data@, qq, b1)
                    } else {
                        region[128 * slot1 + b1]
                    }
                } by {
                if slot1 == slot && b1 == b {
                } else {
                    assert(128 * slot1 + b1 != base + b);
                    assert(ring.spec_region()[128 * slot1 + b1] == before[128 * slot1 + b1]);
                }
            }
            b = b + 1;
        }
        if q == 0 {
            let first_len: u32 = if len < BUFFER_SIZE {
                len as u32
            } else {
                BUFFER_SIZE as u32
            };
            ring.set_length_at(slot, first_len);
        }
        ring.set_last_buffer_at(slot, q == last);
        ring.release_at(slot);
        assert(ring.spec_descriptors() =~= Seq::new(
            descs.len(),
            |j: int|
                {
                    let qq = ring_distance(start as int, j, nn);
                    if qq < q + 1 {
                        scattered_descriptor(descs[j], qq, k, len as int)
                    } else {
                        descs[j]
                    }
                },
        ));
        q = q + 1;
    }
    assert(ring.spec_descriptors() =~= scattered(descs, start as int, len as int));
}

/// Why a transmit token could not take a frame.
#[derive(Clone, Copy, Debug, PartialEq, Eq, Structural)]
pub enum TokenError {
    /// The frame does not fit in the buffers of the token's window.
    Exhausted,
}

/// The right to consume one received frame: the window of receive
/// descriptors from `start` to `end`.
pub struct RxToken {
    start: usize,
    end: usize,
}

/// The right to write one frame into the window of `length` transmit
/// buffers from `start`.
pub struct TxToken {
    start: usize,
    length: usize,
}

impl RxToken {
    pub closed spec fn spec_start(&self) -> usize {
        self.start
    }

    pub closed spec fn spec_end(&self) -> usize {
        self.end
    }

    pub fn start(&self) -> (r: usize)
        ensures
            r == self.spec_start(),
    {
        self.start
    }

    pub fn end(&self) -> (r: usize)
        ensures
            r == self.spec_end(),
    {
        self.end
    }

    /// Copies the window's buffers, in ring order, into one frame of 128
    /// bytes per buffer, and hands each descriptor back to the DMA engine.
    pub fn consume(self, ring: &mut RxBuffer) -> (frame: Vec<u8>)
        requires
            old(ring).wf(),
            self.spec_start() < old(ring).spec_descriptors().len(),
            self.spec_end() < old(ring).spec_descriptors().len(),
        ensures
            ({
                let n = old(ring).spec_descriptors().len() as int;
                let dist = ring_distance(self.spec_start() as int, self.spec_end() as int, n);
                &&& frame@.len() == 128 * (dist + 1)
                &&& forall|q: int, b: int|
                    0 <= q <= dist && 0 <= b < 128 ==> #[trigger] frame@[128 * q + b]
                        == old(ring).spec_region()[128 * ring_index(self.spec_start() as int, q, n) + b]
                &&& final(ring).spec_descriptors() == rx_released_window(
                    old(ring).spec_descriptors(),
                    self.spec_start() as int,
                    self.spec_end() as int,
                )
            }),
            final(ring).spec_region() == old(ring).spec_region(),
            final(ring).spec_list_address() == old(ring).spec_list_address(),
            rx_wraps_only_at_end(old(ring).spec_descriptors()) ==> rx_wraps_only_at_end(
                final(ring).spec_descriptors(),
            ),
    {
        proof {
            if rx_wraps_only_at_end(ring.spec_descriptors()) {
                lemma_rx_release_keeps_layout(ring.spec_descriptors(), self.start as int, self.end as int);
            }
        }
        gather(ring, self.start, self.end)
    }
}

impl TxToken {
    pub closed spec fn spec_start(&self) -> usize {
        self.start
    }

    pub closed spec fn spec_length(&self) -> usize {
        self.length
    }

    pub fn start(&self) -> (r: usize)
        ensures
            r == self.spec_start(),
    {
        self.start
    }

    /// The number of buffers in the window.
    pub fn length(&self) -> (r: usize)
        ensures
            r == self.spec_length(),
    {
        self.length
    }

    /// Writes the frame `data` into the window: refused with
    /// [`TokenError::Exhausted`], the ring untouched, when it needs more
    /// than the window's buffers; otherwise spread over as many 128-byte
    /// buffers as it needs, each queued for the DMA engine in order.
    pub fn consume(self, ring: &mut TxBuffer, data: &[u8]) -> (r: Result<(), TokenError>)
        requires
            old(ring).wf(),
            self.spec_start() < old(ring).spec_descriptors().len(),
            1 <= self.spec_length() <= old(ring).spec_descriptors().len(),
            1 <= data@.len(),
        ensures
            data@.len() > 128 * self.spec_length() ==> r == Err::<(), TokenError>(
                TokenError::Exhausted,
            ) && *final(ring) == *old(ring),
            data@.len() <= 128 * self.spec_length() ==> {
                &&& r == Ok::<(), TokenError>(())
                &&& final(ring).spec_descriptors() == scattered(
                    old(ring).spec_descriptors(),
                    self.spec_start() as int,
                    data@.len() as int,
                )
                &&& final(ring).spec_region().len() == old(ring).spec_region().len()
                &&& forall|slot: int, b: int|
                    0 <= slot < old(ring).spec_descriptors().len() && 0 <= b < 128 ==> {
                        let q = ring_distance(
                            self.spec_start() as int,
                            slot,
                            old(ring).spec_descriptors().len() as int,
                        );
                        #[trigger] final(ring).spec_region()[128 * slot + b] == if q
                            < buffer_count(data@.len() as int) {
                            frame_byte(data@, q, b)
                        } else {
                            old(ring).spec_region()[128 * slot + b]
                        }
                    }
                &&& final(ring).spec_list_address() == old(ring).spec_list_address()
            },
            tx_wraps_only_at_end(old(ring).spec_descriptors()) ==> tx_wraps_only_at_end(
                final(ring).spec_descriptors(),
            ),
    {
        proof {
            if tx_wraps_only_at_end(ring.spec_descriptors()) {
                lemma_scatter_keeps_layout(ring.spec_descriptors(), self.start as int, data@.len() as int);
            }
        }
        let n = ring.len();
        if data.len() > self.length * BUFFER_SIZE {
            return Err(TokenError::Exhausted);
        }
        scatter(ring, self.start, data);
        Ok(())
    }
}

/// Interrupt flag register: a management frame completed.
pub const IRQ_MANAGEMENT_DONE: u32 = 1 << 0;
/// Interrupt flag register: a frame was received.
pub const IRQ_RX_COMPLETE: u32 = 1 << 1;
/// Interrupt flag register: the transmitter ran out of data mid-frame.
pub const IRQ_TX_UNDERRUN: u32 = 1 << 4;
/// Interrupt flag register: a bus error on the DMA's AMBA interface.
pub const IRQ_AMBA_ERROR: u32 = 1 << 6;
/// Interrupt flag register: a frame was transmitted.
pub const IRQ_TX_COMPLETE: u32 = 1 << 7;
/// Interrupt flag register: the receiver overran its buffers.
pub const IRQ_RX_OVERRUN: u32 = 1 << 10;
/// The interrupt sources that the driver understands, and enables.
pub const IRQ_HANDLED: u32 = IRQ_MANAGEMENT_DONE | IRQ_RX_COMPLETE | IRQ_TX_UNDERRUN | IRQ_AMBA_ERROR
    | IRQ_TX_COMPLETE | IRQ_RX_OVERRUN;

/// What one read of the interrupt flag register asks of the driver.
pub struct InterruptEvents {
    pub management_done: bool,
    pub rx_complete: bool,
    pub rx_overrun: bool,
    pub tx_complete: bool,
    pub tx_underrun: bool,
    pub amba_error: bool,
    /// The understood flags that were asserted, to be written back to clear
    /// them.
    pub acknowledge: u32,
    /// The asserted flags that the driver does not understand; they are
    /// reported, never dropped silently, and never fatal.
    pub unhandled: u32,
}

/// The hardware address of a station whose PHY has the given OUI.
pub fn station_address(oui: [u8; 3]) -> (r: [u8; 6])
    ensures
        r@ == seq![oui[0], oui[1], oui[2], 0u8, 0u8, 1u8],
{
    let r = [oui[0], oui[1], oui[2], 0x00, 0x00, 0x01];
    assert(r@ =~= seq![oui[0], oui[1], oui[2], 0u8, 0u8, 1u8]);
    r
}

/// The two words of the receive address filter for `addr`: its first four
/// bytes, least significant first, and its last two.
pub fn address_filter(addr: [u8; 6]) -> (r: (u32, u32))
    ensures
        r.0 == addr[0] + 0x100 * addr[1] + 0x1_0000 * addr[2] + 0x100_0000 * addr[3],
        r.1 == addr[4] + 0x100 * addr[5],
{
    let bottom = addr[0] as u32 + 0x100 * (addr[1] as u32) + 0x1_0000 * (addr[2] as u32) + 0x100_0000
        * (addr[3] as u32);
    let top = addr[4] as u32 + 0x100 * (addr[5] as u32);
    (bottom, top)
}

/// The MAC controller's view of its two descriptor rings.
pub struct Mac {
    pub rx_buffer: RxBuffer,
    pub tx_buffer: TxBuffer,
}

impl Mac {
    pub open spec fn wf(&self) -> bool {
        self.rx_buffer.wf() && self.tx_buffer.wf()
    }

    pub fn new(rx_buffer: RxBuffer, tx_buffer: TxBuffer) -> (r: Mac)
        ensures
            r.rx_buffer == rx_buffer,
            r.tx_buffer == tx_buffer,
    {
        Mac { rx_buffer, tx_buffer }
    }

    /// Finds where the next outgoing frame may be written, given the ring
    /// index at which the DMA engine's transmit queue pointer stands.
    /// The window starts at the first software-owned descriptor from the
    /// queue pointer on; the buffers of earlier transmissions behind the
    /// queue pointer are claimed back first, with what the walk observed
    /// returned as notes; the window's length is the run of software-owned
    /// descriptors from its start. Without a software-owned descriptor there
    /// is no window and nothing changes.
    pub fn find_tx_window(&mut self, queue_ptr: usize) -> (r: (Option<(usize, usize)>, Vec<TxReclaimNote>))
        requires
            old(self).wf(),
            queue_ptr < old(self).tx_buffer.spec_descriptors().len(),
        ensures
            final(self).wf(),
            final(self).rx_buffer == old(self).rx_buffer,
            final(self).tx_buffer.spec_region() == old(self).tx_buffer.spec_region(),
            final(self).tx_buffer.spec_list_address() == old(self).tx_buffer.spec_list_address(),
            ({
                let descs = old(self).tx_buffer.spec_descriptors();
                match first_software_from(descs, queue_ptr as int, 0) {
                    None => {
                        &&& r.0 is None
                        &&& r.1@ == Seq::<TxReclaimNote>::empty()
                        &&& final(self).tx_buffer.spec_descriptors() == descs
                    },
                    Some(s) => {
                        &&& final(self).tx_buffer.spec_descriptors() == reclaimed(descs, queue_ptr as int)
                        &&& r.1@ == reclaim_notes(descs, queue_ptr as int)
                        &&& s < descs.len()
                        &&& r.0 matches Some((start, len)) && start == s && is_software_run(
                            final(self).tx_buffer.spec_descriptors(),
                            s,
                            len as int,
                        )
                    },
                }
            }),
            tx_software(old(self).tx_buffer.spec_descriptors()[queue_ptr as int]) ==> (r.0 matches Some(
                (start, len),
            ) && start == queue_ptr && is_software_run(
                final(self).tx_buffer.spec_descriptors(),
                queue_ptr as int,
                len as int,
            )),
            tx_wraps_only_at_end(old(self).tx_buffer.spec_descriptors()) ==> tx_wraps_only_at_end(
                final(self).tx_buffer.spec_descriptors(),
            ),
    {
        let ghost descs = self.tx_buffer.spec_descriptors();
        proof {
            if tx_software(descs[queue_ptr as int]) {
                lemma_first_software(descs, queue_ptr as int, 0, 0);
            }
            if tx_wraps_only_at_end(descs) {
                lemma_reclaim_keeps_layout(descs, queue_ptr as int);
            }
        }
        let start = match first_software(&self.tx_buffer, queue_ptr) {
            Some(s) => s,
            None => {
                return (None, Vec::new());
            },
        };
        proof {
            lemma_first_software_found(descs, queue_ptr as int, 0);
        }
        let notes = reclaim(&mut self.tx_buffer, queue_ptr);
        assert(tx_software(self.tx_buffer.spec_descriptors()[start as int]));
        let length = software_run_length(&self.tx_buffer, start);
        (Some((start, length)), notes)
    }

    /// A receive opportunity: a complete received frame and, for an
    /// immediate reply, a transmit window; none unless both are there. The
    /// transmit side is searched, and reclaimed, only when a frame is there.
    pub fn receive(&mut self, queue_ptr: usize) -> (r: (Option<(RxToken, TxToken)>, Vec<TxReclaimNote>))
        requires
            old(self).wf(),
            queue_ptr < old(self).tx_buffer.spec_descriptors().len(),
        ensures
            final(self).wf(),
            final(self).rx_buffer == old(self).rx_buffer,
            final(self).tx_buffer.spec_region() == old(self).tx_buffer.spec_region(),
            final(self).tx_buffer.spec_list_address() == old(self).tx_buffer.spec_list_address(),
            (r.0 is Some) == (rx_window(old(self).rx_buffer.spec_descriptors()) is Some
                && first_software_from(old(self).tx_buffer.spec_descriptors(), queue_ptr as int, 0) is Some),
            rx_window(old(self).rx_buffer.spec_descriptors()) is None ==> r.1@ == Seq::<
                TxReclaimNote,
            >::empty() && *final(self) == *old(self),
            rx_window(old(self).rx_buffer.spec_descriptors()) is Some ==> match first_software_from(
                old(self).tx_buffer.spec_descriptors(),
                queue_ptr as int,
                0,
            ) {
                None => r.1@ == Seq::<TxReclaimNote>::empty() && final(self).tx_buffer.spec_descriptors()
                    == old(self).tx_buffer.spec_descriptors(),
                Some(_) => r.1@ == reclaim_notes(old(self).tx_buffer.spec_descriptors(), queue_ptr as int)
                    && final(self).tx_buffer.spec_descriptors() == reclaimed(
                    old(self).tx_buffer.spec_descriptors(),
                    queue_ptr as int,
                ),
            },
            r.0 matches Some((rx, tx)) ==> {
                &&& rx_window(old(self).rx_buffer.spec_descriptors()) == Some(
                    (rx.spec_start() as int, rx.spec_end() as int),
                )
                &&& first_software_from(old(self).tx_buffer.spec_descriptors(), queue_ptr as int, 0)
                    == Some(tx.spec_start() as int)
                &&& is_software_run(
                    final(self).tx_buffer.spec_descriptors(),
                    tx.spec_start() as int,
                    tx.spec_length() as int,
                )
                &&& tx.spec_start() < final(self).tx_buffer.spec_descriptors().len()
            },
    {
        let (rx_start, rx_end) = match self.find_rx_window() {
            Some(w) => w,
            None => {
                return (None, Vec::new());
            },
        };
        let (window, notes) = self.find_tx_window(queue_ptr);
        match window {
            Some((tx_start, tx_length)) => (
                Some(
                    (
                        RxToken { start: rx_start, end: rx_end },
                        TxToken { start: tx_start, length: tx_length },
                    ),
                ),
                notes,
            ),
            None => (None, notes),
        }
    }

    /// A transmit opportunity: a window of free transmit buffers, found as
    /// [`Mac::find_tx_window`] finds it.
    pub fn transmit(&mut self, queue_ptr: usize) -> (r: (Option<TxToken>, Vec<TxReclaimNote>))
        requires
            old(self).wf(),
            queue_ptr < old(self).tx_buffer.spec_descriptors().len(),
        ensures
            final(self).wf(),
            final(self).rx_buffer == old(self).rx_buffer,
            final(self).tx_buffer.spec_region() == old(self).tx_buffer.spec_region(),
            final(self).tx_buffer.spec_list_address() == old(self).tx_buffer.spec_list_address(),
            match first_software_from(old(self).tx_buffer.spec_descriptors(), queue_ptr as int, 0) {
                None => r.0 is None && r.1@ == Seq::<TxReclaimNote>::empty()
                    && final(self).tx_buffer.spec_descriptors() == old(self).tx_buffer.spec_descriptors(),
                Some(s) => {
                    &&& r.1@ == reclaim_notes(old(self).tx_buffer.spec_descriptors(), queue_ptr as int)
                    &&& final(self).tx_buffer.spec_descriptors() == reclaimed(
                        old(self).tx_buffer.spec_descriptors(),
                        queue_ptr as int,
                    )
                    &&& r.0 matches Some(tx) && tx.spec_start() == s && is_software_run(
                        final(self).tx_buffer.spec_descriptors(),
                        s,
                        tx.spec_length() as int,
                    )
                    &&& s < old(self).tx_buffer.spec_descriptors().len()
                },
            },
    {
        let (window, notes) = self.find_tx_window(queue_ptr);
        match window {
            Some((start, length)) => (Some(TxToken { start, length }), notes),
            None => (None, notes),
        }
    }

    /// Decodes one read of the interrupt flag register.
    pub fn irq(flags: u32) -> (r: InterruptEvents)
        ensures
            r.management_done == (flags & IRQ_MANAGEMENT_DONE != 0),
            r.rx_complete == (flags & IRQ_RX_COMPLETE != 0),
            r.rx_overrun == (flags & IRQ_RX_OVERRUN != 0),
            r.tx_complete == (flags & IRQ_TX_COMPLETE != 0),
            r.tx_underrun == (flags & IRQ_TX_UNDERRUN != 0),
            r.amba_error == (flags & IRQ_AMBA_ERROR != 0),
            r.acknowledge == flags & IRQ_HANDLED,
            r.unhandled == flags & !IRQ_HANDLED,
    {
        InterruptEvents {
            management_done: flags & IRQ_MANAGEMENT_DONE != 0,
            rx_complete: flags & IRQ_RX_COMPLETE != 0,
            rx_overrun: flags & IRQ_RX_OVERRUN != 0,
            tx_complete: flags & IRQ_TX_COMPLETE != 0,
            tx_underrun: flags & IRQ_TX_UNDERRUN != 0,
            amba_error: flags & IRQ_AMBA_ERROR != 0,
            acknowledge: flags & IRQ_HANDLED,
            unhandled: flags & !IRQ_HANDLED,
        }
    }

    /// Finds one complete received frame as a run of descriptors, scanning
    /// the ring at most twice so that a frame may wrap past its end.
    pub fn find_rx_window(&self) -> (r: Option<(usize, usize)>)
        requires
            self.wf(),
        ensures
            window_as_int(r) == rx_window(self.rx_buffer.spec_descriptors()),
    {
        let descriptors = self.rx_buffer.descriptors();
        let n = self.rx_buffer.len();
        let ghost descs = self.rx_buffer.spec_descriptors();
        let mut start: Option<usize> = None;
        let mut t: usize = 0;
        while t < 2 * n
            invariant
                descriptors@ == descs,
                descs == self.rx_buffer.spec_descriptors(),
                n == descs.len(),
                n >= 2,
                2 * n <= usize::MAX,
                t <= 2 * n,
                start matches Some(s) ==> s < n,
                rx_window(descs) == rx_scan(descs, t as int, window_start(start)),
            decreases 2 * n - t,
        {
            if t == n && start.is_none() {
                return None;
            }
            let i = if t < n {
                t
            } else {
                t - n
            };
            let d = &descriptors[i];
            let software = d.ownership() == BufferDescriptorOwnership::Software;
            assert(rx_scan(descs, t as int, window_start(start)) == {
                let start1 = if d.spec_start_of_frame() && software {
                    Some(i as int)
                } else {
                    window_start(start)
                };
                if d.spec_end_of_frame() && software && start1 is Some {
                    Some((start1->0, i as int))
                } else if !software {
                    rx_scan(descs, t + 1, None)
                } else {
                    rx_scan(descs, t + 1, start1)
                }
            });
            if d.start_of_frame() && software {
                start = Some(i);
            }
            if d.end_of_frame() && software && start.is_some() {
                return Some((start.unwrap(), i));
            }
            if !software {
                start = None;
            }
            t = t + 1;
        }
        None
    }
}

} // verus!
