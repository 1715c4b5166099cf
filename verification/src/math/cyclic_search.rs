//! Searching a cyclically partitioned list for the ends of its two blocks.
//!
//! A list of booleans is cyclically partitioned when its `true` entries form
//! one contiguous run if the list is read as a cycle. The searches here return
//! the index of the last entry of the first `false` run and of the first
//! `true` run, in that order.

use core::ops::Range;
use vstd::arithmetic::div_mod::{lemma_div_denominator, lemma_fundamental_div_mod};
use vstd::arithmetic::power2::{lemma2_to64, lemma_pow2_pos, lemma_pow2_strictly_increases, lemma_pow2_unfold, pow2};
use vstd::prelude::*;

verus! {

/// Every index in `bounds` can be handed to `eval`.
pub open spec fn evaluable<EF: Fn(usize) -> bool>(eval: EF, bounds: Range<usize>) -> bool {
    forall|i: usize| bounds.start <= i < bounds.end ==> call_requires(eval, (i,))
}

/// `eval` gives one answer per index in `bounds`.
pub open spec fn deterministic<EF: Fn(usize) -> bool>(eval: EF, bounds: Range<usize>) -> bool {
    forall|i: usize, b1: bool, b2: bool|
        #![trigger call_ensures(eval, (i,), b1), call_ensures(eval, (i,), b2)]
        bounds.start <= i < bounds.end && call_ensures(eval, (i,), b1) && call_ensures(eval, (i,), b2)
            ==> b1 == b2
}

/// `vals[k]` is the answer that `eval` gives for index `start + k`.
pub open spec fn agrees<EF: Fn(usize) -> bool>(eval: EF, start: usize, vals: Seq<bool>) -> bool {
    forall|i: usize, b: bool|
        #![trigger call_ensures(eval, (i,), b)]
        start <= i < start + vals.len() && call_ensures(eval, (i,), b) ==> vals[i - start] == b
}

/// Position `i` lies in the cyclic interval of `count` positions that starts at `offset`
/// on a cycle of `n` positions.
pub open spec fn in_cyclic_interval(i: int, offset: int, count: int, n: int) -> bool {
    if i >= offset {
        i - offset < count
    } else {
        i + n - offset < count
    }
}

/// The `true` entries of `vals` are exactly the `count` positions of the cyclic interval
/// that starts at `offset`.
pub open spec fn partition_witness(vals: Seq<bool>, offset: int, count: int) -> bool {
    &&& 0 <= offset < vals.len()
    &&& 0 <= count <= vals.len()
    &&& forall|i: int|
        0 <= i < vals.len() ==> vals[i] == #[trigger] in_cyclic_interval(
            i,
            offset,
            count,
            vals.len() as int,
        )
}

/// The `true` entries of `vals` form one run when `vals` is read as a cycle.
pub open spec fn is_cyclic_partition(vals: Seq<bool>) -> bool {
    exists|offset: int, count: int| #[trigger] partition_witness(vals, offset, count)
}

#[derive(Clone, Copy)]
pub enum TriState<T> {
    Nothing,
    Got(T),
    Fixed(T),
}

impl<T> Default for TriState<T> {
    fn default() -> (r: Self)
        ensures
            r is Nothing,
    {
        TriState::Nothing
    }
}

pub open spec fn tri_update<T>(t: TriState<T>, value: T) -> TriState<T> {
    match t {
        TriState::Fixed(_) => t,
        _ => TriState::Got(value),
    }
}

pub open spec fn tri_fix<T>(t: TriState<T>) -> TriState<T> {
    match t {
        TriState::Got(x) => TriState::Fixed(x),
        _ => t,
    }
}

pub open spec fn tri_option<T>(t: TriState<T>) -> Option<T> {
    match t {
        TriState::Nothing => None,
        TriState::Got(x) => Some(x),
        TriState::Fixed(x) => Some(x),
    }
}

impl<T> TriState<T> {
    fn update(&mut self, value: T) -> (r: bool)
        ensures
            *final(self) == tri_update(*old(self), value),
            r == !(*old(self) is Fixed),
    {
        if self.is_fixed() {
            false
        } else {
            *self = TriState::Got(value);
            true
        }
    }

    fn fix(&mut self)
        ensures
            *final(self) == tri_fix(*old(self)),
    {
        let mut taken = TriState::default();
        core::mem::swap(self, &mut taken);
        *self = match taken {
            TriState::Got(x) => TriState::Fixed(x),
            x => x,
        };
    }

    fn is_fixed(&self) -> (r: bool)
        ensures
            r == (*self is Fixed),
    {
        matches!(self, TriState::Fixed(_))
    }
}

impl<T> From<TriState<T>> for Option<T> {
    fn from(x: TriState<T>) -> (r: Self)
        ensures
            r == tri_option(x),
    {
        match x {
            TriState::Nothing => None,
            TriState::Got(x) | TriState::Fixed(x) => Some(x),
        }
    }
}

impl<T> vstd::std_specs::convert::FromSpecImpl<TriState<T>> for Option<T> {
    open spec fn obeys_from_spec() -> bool {
        true
    }

    open spec fn from_spec(v: TriState<T>) -> Option<T> {
        tri_option(v)
    }
}

pub struct Discover {
    pub pos_false: TriState<usize>,
    pub pos_true: TriState<usize>,
}

pub open spec fn init_discover() -> Discover {
    Discover { pos_false: TriState::Nothing, pos_true: TriState::Nothing }
}

/// The block tracker for value `b`.
pub open spec fn tracker(d: Discover, b: bool) -> TriState<usize> {
    if b {
        d.pos_true
    } else {
        d.pos_false
    }
}

/// What `Discover::update` does with the answer `value` at `pos`.
pub open spec fn discover_step(d: Discover, pos: usize, value: bool) -> Discover {
    if value {
        Discover { pos_false: tri_fix(d.pos_false), pos_true: tri_update(d.pos_true, pos) }
    } else {
        Discover { pos_false: tri_update(d.pos_false, pos), pos_true: tri_fix(d.pos_true) }
    }
}

pub open spec fn discover_finished(d: Discover) -> bool {
    d.pos_false is Fixed && d.pos_true is Fixed
}

pub open spec fn discover_results(d: Discover) -> (Option<usize>, Option<usize>) {
    (tri_option(d.pos_false), tri_option(d.pos_true))
}

/// The tracker after `vals[0..k]` were fed in order at positions `start..start + k`.
pub open spec fn discover_scan(start: usize, vals: Seq<bool>, k: nat) -> Discover
    decreases k,
{
    if k == 0 {
        init_discover()
    } else {
        discover_step(
            discover_scan(start, vals, (k - 1) as nat),
            (start + k - 1) as usize,
            vals[k - 1],
        )
    }
}

/// The last positions of the first `false` run and of the first `true` run of `vals`,
/// whose entries sit at positions `start..start + vals.len()`.
pub open spec fn partition_bounds(start: usize, vals: Seq<bool>) -> (Option<usize>, Option<usize>) {
    discover_results(discover_scan(start, vals, vals.len()))
}

impl Discover {
    fn new() -> (r: Self)
        ensures
            r == init_discover(),
    {
        Self { pos_false: TriState::Nothing, pos_true: TriState::Nothing }
    }

    fn update(&mut self, pos: usize, value: bool)
        ensures
            *final(self) == discover_step(*old(self), pos, value),
    {
        match value {
            false => {
                self.pos_false.update(pos);
                self.pos_true.fix();
            },
            true => {
                self.pos_true.update(pos);
                self.pos_false.fix();
            },
        }
    }

    fn is_finished_minimal(&self) -> (r: bool)
        ensures
            r == (self.pos_false is Fixed || self.pos_true is Fixed),
    {
        self.pos_false.is_fixed() || self.pos_true.is_fixed()
    }

    fn is_finished(&self) -> (r: bool)
        ensures
            r == discover_finished(*self),
    {
        self.pos_false.is_fixed() && self.pos_true.is_fixed()
    }

    fn results(&self) -> (r: (Option<usize>, Option<usize>))
        ensures
            r == discover_results(*self),
    {
        (self.pos_false.into(), self.pos_true.into())
    }
}

/// Each tracker of a scan over `vals[0..k]` holds what its name promises: nothing when
/// the value was not seen, the last position while its first run is still open, and
/// the last position of its first run once the run was closed by the other value.
pub open spec fn tracker_ok(t: TriState<usize>, b: bool, start: usize, vals: Seq<bool>, k: nat) -> bool {
    match t {
        TriState::Nothing => forall|j: int| 0 <= j < k ==> vals[j] != b,
        TriState::Got(p) => k >= 1 && p == start + k - 1 && vals[k - 1] == b,
        TriState::Fixed(p) => start <= p && p - start + 1 < k && vals[p - start] == b && vals[p
            - start + 1] != b,
    }
}

proof fn lemma_scan_trackers(start: usize, vals: Seq<bool>, k: nat)
    requires
        k <= vals.len(),
        start + vals.len() <= usize::MAX,
    ensures
        tracker_ok(discover_scan(start, vals, k).pos_false, false, start, vals, k),
        tracker_ok(discover_scan(start, vals, k).pos_true, true, start, vals, k),
    decreases k,
{
    if k > 0 {
        lemma_scan_trackers(start, vals, (k - 1) as nat);
    }
}

proof fn lemma_scan_stable(start: usize, vals: Seq<bool>, k: nat, m: nat)
    requires
        k <= m <= vals.len(),
        discover_finished(discover_scan(start, vals, k)),
    ensures
        discover_scan(start, vals, m) == discover_scan(start, vals, k),
    decreases m,
{
    if m > k {
        lemma_scan_stable(start, vals, k, (m - 1) as nat);
    }
}

/// A linear scan over the whole of `bounds`, answering like
/// [`cyclic_breadth_partition_search`] on every list.
pub fn cbps_brute_force<EF>(bounds: Range<usize>, eval: &EF) -> (r: (Option<usize>, Option<usize>)) where
    EF: Fn(usize) -> bool,

    requires
        evaluable(*eval, bounds),
    ensures
        bounds.end <= bounds.start ==> r == (None::<usize>, None::<usize>),
        forall|vals: Seq<bool>|
            #![trigger agrees(*eval, bounds.start, vals)]
            agrees(*eval, bounds.start, vals) && vals.len() == bounds.end - bounds.start ==> r
                == partition_bounds(bounds.start, vals),
{
    let mut discover = Discover::new();
    let mut i = bounds.start;
    while i < bounds.end
        invariant_except_break
            evaluable(*eval, bounds),
            bounds.start <= i,
            bounds.start < bounds.end ==> i <= bounds.end,
            bounds.end <= bounds.start ==> i == bounds.start && discover == init_discover(),
            forall|vals: Seq<bool>|
                #![trigger agrees(*eval, bounds.start, vals)]
                agrees(*eval, bounds.start, vals) && vals.len() == bounds.end - bounds.start
                    ==> discover == discover_scan(bounds.start, vals, (i - bounds.start) as nat),
        ensures
            bounds.end <= bounds.start ==> discover == init_discover(),
            forall|vals: Seq<bool>|
                #![trigger agrees(*eval, bounds.start, vals)]
                agrees(*eval, bounds.start, vals) && vals.len() == bounds.end - bounds.start
                    ==> discover == discover_scan(bounds.start, vals, vals.len()),
        decreases bounds.end - i,
    {
        let value = eval(i);
        discover.update(i, value);
        if discover.is_finished() {
            assert forall|vals: Seq<bool>|
                #![trigger agrees(*eval, bounds.start, vals)]
                agrees(*eval, bounds.start, vals) && vals.len() == bounds.end - bounds.start
                    implies discover == discover_scan(bounds.start, vals, vals.len()) by {
                assert(call_ensures(*eval, (i,), value));
                lemma_scan_stable(bounds.start, vals, (i + 1 - bounds.start) as nat, vals.len());
            }
            break;
        }
        i += 1;
    }
    discover.results()
}

/// The base 2 logarithm of `n`, rounded down.
fn ilog2(n: usize) -> (r: u32)
    requires
        n > 0,
    ensures
        pow2(r as nat) <= n < pow2(r as nat + 1),
        r < usize::BITS,
{
    let mut m = n;
    let mut r: u32 = 0;
    proof {
        lemma2_to64();
        assert(usize::MAX < pow2(usize::BITS as nat));
    }
    while m > 1
        invariant
            1 <= m <= n,
            m == n as nat / pow2(r as nat),
            pow2(r as nat) <= n,
            r < usize::BITS,
            usize::MAX < pow2(usize::BITS as nat),
        decreases m,
    {
        proof {
            let p = pow2(r as nat) as int;
            let q = pow2(r as nat + 1) as int;
            lemma_pow2_pos(r as nat);
            lemma_pow2_unfold(r as nat + 1);
            lemma_div_denominator(n as int, p, 2);
            assert(m as int / 2 == n as int / q);
            lemma_fundamental_div_mod(n as int, q);
            assert(q <= n) by (nonlinear_arith)
                requires
                    n == q * (n as int / q) + n as int % q,
                    n as int / q >= 1,
                    n as int % q >= 0,
                    q > 0,
            ;
            if r + 1 >= usize::BITS {
                if r + 1 > usize::BITS {
                    lemma_pow2_strictly_increases(usize::BITS as nat, r as nat + 1);
                }
                assert(false);
            }
        }
        m = m / 2;
        r = r + 1;
    }
    proof {
        lemma_pow2_pos(r as nat);
        lemma_pow2_unfold(r as nat + 1);
        lemma_fundamental_div_mod(n as int, pow2(r as nat) as int);
    }
    r
}

/// Search for the largest index inside the bounds which still fulfills the condition:
/// returns the end of the run of `expected_value` that starts at `bounds.start`, provided
/// the entries of `bounds` are that run followed by the other value only.
fn binary_search<EF>(eval: &EF, expected_value: bool, bounds: Range<usize>) -> (r: Option<usize>) where
    EF: Fn(usize) -> bool,

    requires
        bounds.start <= bounds.end,
        evaluable(*eval, bounds),
    ensures
        r is None ==> bounds.start == bounds.end || call_ensures(
            *eval,
            (bounds.start,),
            !expected_value,
        ),
        r matches Some(p) ==> {
            &&& bounds.start <= p < bounds.end
            &&& call_ensures(*eval, (p,), expected_value)
            &&& p + 1 == bounds.end || call_ensures(*eval, ((p + 1) as usize,), !expected_value)
        },
{
    let ghost initial = bounds;
    let mut bounds = bounds;
    if bounds.start >= bounds.end || eval(bounds.start) != expected_value {
        return None;
    }
    while bounds.start + 1 < bounds.end
        invariant
            initial.start <= bounds.start < bounds.end <= initial.end,
            evaluable(*eval, initial),
            call_ensures(*eval, (bounds.start,), expected_value),
            bounds.end == initial.end || call_ensures(*eval, (bounds.end,), !expected_value),
        decreases bounds.end - bounds.start,
    {
        let middle = bounds.start + (bounds.end - bounds.start) / 2;
        assert(middle != bounds.start && middle != bounds.end);
        // binary search for partition bounds
        if eval(middle) == expected_value {
            bounds.start = middle;
        } else {
            bounds.end = middle;
        }
    }
    Some(bounds.start)
}

/// The length of each block that `breadth4level` cuts on `level`.
pub open spec fn block_length(len: usize, level: u8) -> usize {
    len >> level
}

/// Generate a breadth-first search list for given bounds and level: the bounds cut into
/// `2^level` blocks of equal length, the last block taking what is left over.
fn breadth4level(bounds: Range<usize>, level: u8) -> (blocks: Vec<Range<usize>>)
    requires
        bounds.start <= bounds.end,
        level < 64,
        level < usize::BITS,
        block_length((bounds.end - bounds.start) as usize, level) > 0,
    ensures
        ({
            let len = (bounds.end - bounds.start) as usize;
            let bl = block_length(len, level) as int;
            &&& blocks.len() == len as int / bl
            &&& forall|k: int|
                0 <= k < blocks.len() ==> {
                    &&& #[trigger] blocks@[k].start == bounds.start + k * bl
                    &&& blocks@[k].end == if k + 1 < blocks.len() {
                        bounds.start + (k + 1) * bl
                    } else {
                        bounds.end as int
                    }
                }
        }),
        forall|k: int|
            0 <= k < blocks.len() ==> bounds.start <= #[trigger] blocks@[k].start < blocks@[k].end
                <= bounds.end,
{
    // level is the exponent of 2
    let block_length = (bounds.end - bounds.start) >> level;
    let blocks_count = (bounds.end - bounds.start) / block_length;
    let ghost len = (bounds.end - bounds.start) as int;
    let ghost bl = block_length as int;
    let mut blocks: Vec<Range<usize>> = Vec::new();
    if blocks_count == 0 {
        return blocks;
    }
    proof {
        lemma_fundamental_div_mod(len, bl);
        assert(blocks_count * bl <= len) by (nonlinear_arith)
            requires
                len == bl * (len / bl) + len % bl,
                0 <= len % bl,
                blocks_count == len / bl,
        ;
    }
    let mut i: usize = 0;
    while i < blocks_count - 1
        invariant
            0 <= i <= blocks_count - 1,
            bl == block_length,
            bl > 0,
            blocks_count * bl <= len,
            blocks_count == len / bl,
            len == bounds.end - bounds.start,
            blocks.len() == i,
            forall|k: int|
                0 <= k < i ==> {
                    &&& #[trigger] blocks@[k].start == bounds.start + k * bl
                    &&& blocks@[k].end == bounds.start + (k + 1) * bl
                },
            forall|k: int|
                0 <= k < i ==> bounds.start <= #[trigger] blocks@[k].start < blocks@[k].end
                    <= bounds.end,
        decreases blocks_count - 1 - i,
    {
        proof {
            assert((i + 1) * bl <= (blocks_count - 1) * bl) by (nonlinear_arith)
                requires
                    i + 1 <= blocks_count - 1,
                    bl > 0,
            ;
            assert((blocks_count - 1) * bl + bl == blocks_count * bl) by (nonlinear_arith);
            assert((i + 1) * bl == i * bl + bl) by (nonlinear_arith);
        }
        let block_start = bounds.start + i * block_length;
        assert(block_start + block_length < bounds.end);
        blocks.push(block_start..(block_start + block_length));
        i += 1;
    }
    proof {
        assert((blocks_count - 1) * bl + bl == blocks_count * bl) by (nonlinear_arith);
    }
    let block_start = bounds.start + (blocks_count - 1) * block_length;
    assert(block_start + block_length <= bounds.end);
    blocks.push(block_start..bounds.end);
    blocks
}

/// `p`, when present, is the end of a run of `b` in `vals` (whose entries sit at positions
/// `start..start + vals.len()`): the entry there is `b` and the next one, if any, is not.
/// When `p` is absent, `b` occurs nowhere in `vals`.
pub open spec fn ends_run_or_absent(p: Option<usize>, b: bool, start: usize, vals: Seq<bool>) -> bool {
    match p {
        None => forall|k: int| 0 <= k < vals.len() ==> vals[k] != b,
        Some(p) => {
            &&& start <= p < start + vals.len()
            &&& vals[p - start] == b
            &&& p + 1 == start + vals.len() || vals[p + 1 - start] != b
        },
    }
}

/// A tracker that holds a position holds one whose answer is `b`.
pub open spec fn found_ok<EF: Fn(usize) -> bool>(
    t: TriState<usize>,
    b: bool,
    eval: EF,
    bounds: Range<usize>,
) -> bool {
    match t {
        TriState::Nothing => true,
        TriState::Got(p) => bounds.start <= p < bounds.end && call_ensures(eval, (p,), b),
        TriState::Fixed(p) => bounds.start <= p < bounds.end && call_ensures(eval, (p,), b),
    }
}

/// Each position that `partition_bounds` reports ends a run of its value, and a value
/// that it reports no position for occurs nowhere.
pub proof fn lemma_partition_bounds_end_runs(start: usize, vals: Seq<bool>)
    requires
        start + vals.len() <= usize::MAX,
    ensures
        ends_run_or_absent(partition_bounds(start, vals).0, false, start, vals),
        ends_run_or_absent(partition_bounds(start, vals).1, true, start, vals),
{
    lemma_scan_trackers(start, vals, vals.len());
}

/// A cyclic partition that starts with `b` and also holds `!b` is a run of `b`,
/// a run of `!b` of length `c` starting at `a`, and a run of `b` again (possibly empty).
proof fn lemma_partition_runs(vals: Seq<bool>, b: bool, w: int) -> (ac: (int, int))
    requires
        is_cyclic_partition(vals),
        vals[0] == b,
        0 <= w < vals.len(),
        vals[w] != b,
    ensures
        1 <= ac.0,
        1 <= ac.1,
        ac.0 + ac.1 <= vals.len(),
        forall|k: int|
            0 <= k < vals.len() ==> vals[k] == if ac.0 <= k < ac.0 + ac.1 {
                !b
            } else {
                b
            },
{
    let n = vals.len() as int;
    let (off, cnt) = choose|offset: int, count: int| partition_witness(vals, offset, count);
    assert(vals[0] == in_cyclic_interval(0, off, cnt, n));
    assert(vals[w] == in_cyclic_interval(w, off, cnt, n));
    if !b {
        let r = (off, cnt);
        assert forall|k: int| 0 <= k < vals.len() implies vals[k] == if r.0 <= k < r.0 + r.1 {
            !b
        } else {
            b
        } by {
            assert(vals[k] == in_cyclic_interval(k, off, cnt, n));
        }
        r
    } else if off == 0 {
        let r = (cnt, n - cnt);
        assert forall|k: int| 0 <= k < vals.len() implies vals[k] == if r.0 <= k < r.0 + r.1 {
            !b
        } else {
            b
        } by {
            assert(vals[k] == in_cyclic_interval(k, off, cnt, n));
        }
        r
    } else {
        let r = (off + cnt - n, n - cnt);
        assert forall|k: int| 0 <= k < vals.len() implies vals[k] == if r.0 <= k < r.0 + r.1 {
            !b
        } else {
            b
        } by {
            assert(vals[k] == in_cyclic_interval(k, off, cnt, n));
        }
        r
    }
}

/// The scan over a list of three runs `b^a (!b)^c b^rest`.
proof fn lemma_three_runs_scan(start: usize, vals: Seq<bool>, b: bool, a: int, c: int, k: nat)
    requires
        1 <= a,
        1 <= c,
        a + c <= vals.len(),
        k <= vals.len(),
        start + vals.len() <= usize::MAX,
        forall|j: int|
            0 <= j < vals.len() ==> vals[j] == if a <= j < a + c {
                !b
            } else {
                b
            },
    ensures
        k == 0 ==> discover_scan(start, vals, k) == init_discover(),
        1 <= k <= a ==> tracker(discover_scan(start, vals, k), b) == TriState::Got(
            (start + k - 1) as usize,
        ) && tracker(discover_scan(start, vals, k), !b) is Nothing,
        a < k <= a + c ==> tracker(discover_scan(start, vals, k), b) == TriState::Fixed(
            (start + a - 1) as usize,
        ) && tracker(discover_scan(start, vals, k), !b) == TriState::Got(
            (start + k - 1) as usize,
        ),
        a + c < k ==> tracker(discover_scan(start, vals, k), b) == TriState::Fixed(
            (start + a - 1) as usize,
        ) && tracker(discover_scan(start, vals, k), !b) == TriState::Fixed(
            (start + a + c - 1) as usize,
        ),
    decreases k,
{
    if k > 0 {
        lemma_three_runs_scan(start, vals, b, a, c, (k - 1) as nat);
        assert(vals[k - 1] == if a <= k - 1 < a + c {
            !b
        } else {
            b
        });
    }
}

/// Perform a breadth-first search on an induced binary tree on the list,
/// searching for the bounds of the partition induced by `eval`,
/// returning the last item indices in the `false` and `true` blocks.
///
/// On a cyclically partitioned list the result is that of [`cbps_brute_force`];
/// on any list, each index returned ends a run of its value, and an absent
/// index means that the value does not occur.
pub fn cyclic_breadth_partition_search<EF>(bounds: Range<usize>, eval: EF) -> (r: (
    Option<usize>,
    Option<usize>,
)) where EF: Fn(usize) -> bool
    requires
        evaluable(eval, bounds),
        deterministic(eval, bounds),
    ensures
        bounds.end <= bounds.start ==> r == (None::<usize>, None::<usize>),
        forall|vals: Seq<bool>|
            #![trigger agrees(eval, bounds.start, vals)]
            agrees(eval, bounds.start, vals) && vals.len() == bounds.end - bounds.start ==> {
                &&& is_cyclic_partition(vals) ==> r == partition_bounds(bounds.start, vals)
                &&& ends_run_or_absent(r.0, false, bounds.start, vals)
                &&& ends_run_or_absent(r.1, true, bounds.start, vals)
            },
{
    if bounds.start >= bounds.end {
        return (None, None);
    }
    // discover gaps (true is a gap for false and vice versa)

    let mut discover = Discover::new();
    let levels = ilog2(bounds.end - bounds.start) as u8;
    let mut level: u8 = 0;
    while level < levels
        invariant
            bounds.start < bounds.end,
            evaluable(eval, bounds),
            pow2(levels as nat) <= bounds.end - bounds.start,
            levels < usize::BITS,
            found_ok(discover.pos_false, false, eval, bounds),
            found_ok(discover.pos_true, true, eval, bounds),
        decreases levels - level,
    {
        let len = bounds.end - bounds.start;
        proof {
            vstd::bits::lemma_usize_shr_is_div(len, level as usize);
            assert(len >> level == len >> (level as usize)) by (bit_vector);
            lemma_pow2_strictly_increases(level as nat, levels as nat);
            lemma_pow2_pos(level as nat);
            vstd::arithmetic::div_mod::lemma_div_non_zero(len as int, pow2(level as nat) as int);
        }
        let blocks = breadth4level(bounds.start..bounds.end, level);
        let mut j: usize = 0;
        while j < blocks.len()
            invariant
                bounds.start < bounds.end,
                evaluable(eval, bounds),
                found_ok(discover.pos_false, false, eval, bounds),
                found_ok(discover.pos_true, true, eval, bounds),
                forall|k: int|
                    0 <= k < blocks.len() ==> bounds.start <= #[trigger] blocks@[k].start
                        < blocks@[k].end <= bounds.end,
            decreases blocks.len() - j,
        {
            let middle = blocks[j].start + (blocks[j].end - blocks[j].start) / 2;
            let value = eval(middle);
            discover.update(middle, value);
            if discover.is_finished_minimal() {
                break;
            }
            j += 1;
        }
        if discover.is_finished_minimal() {
            break;
        }
        level += 1;
    }

    // brute force on failure
    if !discover.is_finished() {
        let r = cbps_brute_force(bounds, &eval);
        proof {
            assert forall|vals: Seq<bool>|
                #![trigger agrees(eval, bounds.start, vals)]
                agrees(eval, bounds.start, vals) && vals.len() == bounds.end - bounds.start
                    implies ends_run_or_absent(r.0, false, bounds.start, vals)
                && ends_run_or_absent(r.1, true, bounds.start, vals) by {
                lemma_partition_bounds_end_runs(bounds.start, vals);
            }
        }
        return r;
    }
    let (pos_false, pos_true) = discover.results();
    let (mut pos_false, mut pos_true) = (pos_false.unwrap(), pos_true.unwrap());

    // whatever block is at the beginning has
    // its end somewhere strictly before the other block
    // either:
    // - the later block continues at the beginning
    //   format: L...!L...L...
    // - or the later block doesn't continue at the beginning
    //   format: !L...L...
    let val_start = eval(bounds.start);
    let ghost next_found = if val_start { pos_false } else { pos_true };
    assert(next_found != bounds.start);
    let ghost pos_start;
    let ghost pos_next;
    if !val_start {
        pos_false = binary_search(&eval, val_start, bounds.start..pos_true).unwrap();
        pos_true = binary_search(&eval, !val_start, pos_false + 1..bounds.end).unwrap();
        proof {
            pos_start = pos_false;
            pos_next = pos_true;
        }
    } else {
        pos_true = binary_search(&eval, val_start, bounds.start..pos_false).unwrap();
        pos_false = binary_search(&eval, !val_start, pos_true + 1..bounds.end).unwrap();
        proof {
            pos_start = pos_true;
            pos_next = pos_false;
        }
    }
    proof {
        assert forall|vals: Seq<bool>|
            #![trigger agrees(eval, bounds.start, vals)]
            agrees(eval, bounds.start, vals) && vals.len() == bounds.end - bounds.start implies {
            &&& is_cyclic_partition(vals) ==> (Some(pos_false), Some(pos_true)) == partition_bounds(
                bounds.start,
                vals,
            )
            &&& ends_run_or_absent(Some(pos_false), false, bounds.start, vals)
            &&& ends_run_or_absent(Some(pos_true), true, bounds.start, vals)
        } by {
            let s = bounds.start as int;
            assert(call_ensures(eval, (bounds.start,), val_start));
            assert(call_ensures(eval, (next_found,), !val_start));
            assert(call_ensures(eval, (pos_start,), val_start));
            assert(call_ensures(eval, (pos_next,), !val_start));
            assert(vals[0] == val_start);
            assert(vals[next_found - s] == !val_start);
            assert(vals[pos_start - s] == val_start);
            assert(vals[pos_next - s] == !val_start);
            if pos_start + 1 != next_found {
                assert(call_ensures(eval, ((pos_start + 1) as usize,), !val_start));
            }
            assert(vals[pos_start + 1 - s] == !val_start);
            if pos_next + 1 != bounds.end {
                assert(call_ensures(eval, ((pos_next + 1) as usize,), val_start));
                assert(vals[pos_next + 1 - s] == val_start);
            }
            if is_cyclic_partition(vals) {
                let (a, c) = lemma_partition_runs(vals, val_start, next_found - s);
                lemma_three_runs_scan(bounds.start, vals, val_start, a, c, vals.len());
                assert(vals[pos_start - s] == if a <= pos_start - s < a + c {
                    !val_start
                } else {
                    val_start
                });
                assert(vals[pos_start + 1 - s] == if a <= pos_start + 1 - s < a + c {
                    !val_start
                } else {
                    val_start
                });
                assert(vals[next_found - s] == if a <= next_found - s < a + c {
                    !val_start
                } else {
                    val_start
                });
                assert(vals[pos_next - s] == if a <= pos_next - s < a + c {
                    !val_start
                } else {
                    val_start
                });
                if pos_next + 1 != bounds.end {
                    assert(vals[pos_next + 1 - s] == if a <= pos_next + 1 - s < a + c {
                        !val_start
                    } else {
                        val_start
                    });
                }
                assert(pos_start - s == a - 1);
                assert(pos_next - s == a + c - 1);
            }
        }
    }
    (Some(pos_false), Some(pos_true))
}

} // verus!
