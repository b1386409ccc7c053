//! Clock-skew table: the last clock fit of each GPU of each node.
//!
//! Agents correct their own events, but those sent before an agent's first fit
//! carry raw source times; the server maps them once more.

use crate::clock::{affine, div_toward_zero, host_realtime_ns, ClockOffset};
use crate::model::ClockOffsetRecord;
use crate::table::{holds, Table};
use vstd::prelude::*;

verus! {

/// A node and a GPU as one number.
pub open spec fn gpu_key(node_id: u32, gpu_id: u32) -> u128 {
    (node_id * 0x1_0000_0000 + gpu_id) as u128
}

fn pack(node_id: u32, gpu_id: u32) -> (key: u128)
    ensures
        key == gpu_key(node_id, gpu_id),
{
    (node_id as u128) * 0x1_0000_0000 + gpu_id as u128
}

/// GPUs of different nodes, and different GPUs of one node, do not share a key.
pub proof fn gpu_keys_are_distinct(node: u32, gpu: u32, other_node: u32, other_gpu: u32)
    requires
        gpu_key(node, gpu) == gpu_key(other_node, other_gpu),
    ensures
        node == other_node,
        gpu == other_gpu,
{
}

/// A fit as it is kept: the denominator is at least one.
pub open spec fn kept_fit(c: ClockOffsetRecord, updated_at_host_ns: u64) -> ClockOffset {
    ClockOffset {
        offset_ns: c.offset_ns as i128,
        slope_num: c.slope_num as i128,
        slope_den: if c.slope_den >= 1 {
            c.slope_den as i128
        } else {
            1
        },
        residual_max_ns: c.residual_max_ns,
        fitted_at_host_ns: updated_at_host_ns,
    }
}

/// A fit whose numbers fit 64 bits.
pub open spec fn is_narrow(c: ClockOffset) -> bool {
    &&& i64::MIN <= c.offset_ns <= i64::MAX
    &&& i64::MIN <= c.slope_num <= i64::MAX
    &&& 1 <= c.slope_den <= i64::MAX
}

/// Mapping with 64-bit numbers never overflows 128 bits.
proof fn lemma_narrow_fits_map(c: ClockOffset, src: u64)
    requires
        is_narrow(c),
    ensures
        c.can_map(src as int),
{
    let (n, d, s) = (c.slope_num as int, c.slope_den as int, src as int);
    assert(-0x8000_0000_0000_0000 * 0xffff_ffff_ffff_ffff <= n * s <= 0x7fff_ffff_ffff_ffff
        * 0xffff_ffff_ffff_ffff) by (nonlinear_arith)
        requires
            -0x8000_0000_0000_0000 <= n <= 0x7fff_ffff_ffff_ffff,
            0 <= s <= 0xffff_ffff_ffff_ffff,
    ;
    let p = n * s;
    let q = div_toward_zero(p, d);
    if p >= 0 {
        assert(0 <= p / d <= p) by (nonlinear_arith)
            requires
                p >= 0,
                d >= 1,
        ;
    } else {
        assert(0 <= (-p) / d <= -p) by (nonlinear_arith)
            requires
                p < 0,
                d >= 1,
        ;
    }
}

/// The last clock fit of every GPU.
pub struct SkewTable {
    inner: Table<ClockOffset>,
}

impl View for SkewTable {
    type V = Map<u128, ClockOffset>;

    /// The fits by [`gpu_key`].
    closed spec fn view(&self) -> Map<u128, ClockOffset> {
        self.inner@
    }
}

/// What the table of fits sends a timestamp to: where there is no fit, to itself.
pub open spec fn corrected(
    fits: Map<u128, ClockOffset>,
    node_id: u32,
    gpu_id: u32,
    src_ns: u64,
) -> u64 {
    let key = gpu_key(node_id, gpu_id);
    if fits.contains_key(key) {
        let c = fits[key];
        affine(c.offset_ns as int, c.slope_num as int, c.slope_den as int, src_ns as int) as u64
    } else {
        src_ns
    }
}

/// `m` is the largest `field` of the fits; there is none if there are no fits.
pub open spec fn is_largest(
    fits: Map<u128, ClockOffset>,
    field: spec_fn(ClockOffset) -> u64,
    m: Option<u64>,
) -> bool {
    match m {
        Some(v) => {
            &&& exists|k: u128| #[trigger] fits.contains_key(k) && field(fits[k]) == v
            &&& forall|k: u128| #[trigger] fits.contains_key(k) ==> field(fits[k]) <= v
        },
        None => forall|k: u128| !#[trigger] fits.contains_key(k),
    }
}

impl SkewTable {
    pub closed spec fn wf(self) -> bool {
        &&& self.inner.wf()
        &&& forall|k: u128| #[trigger] self@.contains_key(k) ==> is_narrow(self@[k])
    }

    pub fn new() -> (t: Self)
        ensures
            t.wf(),
            t@ == Map::<u128, ClockOffset>::empty(),
    {
        SkewTable { inner: Table::new() }
    }

    /// Takes the latest fit of a GPU; the time it is taken at is recorded with
    /// it.
    pub fn upsert(&mut self, c: &ClockOffsetRecord)
        requires
            old(self).wf(),
        ensures
            final(self).wf(),
            exists|now: u64|
                final(self)@ == old(self)@.insert(
                    gpu_key(c.node_id, c.gpu_id),
                    #[trigger] kept_fit(*c, now),
                ),
    {
        let now: u64 = host_realtime_ns();
        self.upsert_at(c, now);
        assert(self@ == old(self)@.insert(gpu_key(c.node_id, c.gpu_id), kept_fit(*c, now)));
    }

    /// Takes the latest fit of a GPU at `now_ns`.
    pub fn upsert_at(&mut self, c: &ClockOffsetRecord, now_ns: u64)
        requires
            old(self).wf(),
        ensures
            final(self).wf(),
            final(self)@ == old(self)@.insert(gpu_key(c.node_id, c.gpu_id), kept_fit(*c, now_ns)),
    {
        let entry = ClockOffset {
            offset_ns: c.offset_ns as i128,
            slope_num: c.slope_num as i128,
            slope_den: if c.slope_den >= 1 {
                c.slope_den as i128
            } else {
                1
            },
            residual_max_ns: c.residual_max_ns,
            fitted_at_host_ns: now_ns,
        };
        self.inner.put(pack(c.node_id, c.gpu_id), entry);
        proof {
            assert(entry == kept_fit(*c, now_ns));
            assert forall|k: u128| #[trigger] self@.contains_key(k) implies is_narrow(self@[k]) by {
                if k != gpu_key(c.node_id, c.gpu_id) {
                    assert(old(self)@.contains_key(k));
                }
            }
        }
    }

    /// Maps a source timestamp to host time, or leaves it as it is where there
    /// is no fit yet.
    #[inline]
    pub fn map(&self, node_id: u32, gpu_id: u32, src_ns: u64) -> (host_ns: u64)
        requires
            self.wf(),
        ensures
            host_ns == corrected(self@, node_id, gpu_id, src_ns),
    {
        match self.inner.get(pack(node_id, gpu_id)) {
            Some(fit) => {
                proof {
                    assert(self@.contains_key(gpu_key(node_id, gpu_id)));
                    lemma_narrow_fits_map(*fit, src_ns);
                }
                fit.map(src_ns)
            },
            None => src_ns,
        }
    }

    /// The largest residual of any fit.
    pub fn latest_residual_ns(&self) -> (m: Option<u64>)
        requires
            self.wf(),
        ensures
            is_largest(self@, |c: ClockOffset| c.residual_max_ns, m),
    {
        let vs = self.inner.values();
        let mut best: Option<u64> = None;
        let mut i: usize = 0;
        while i < vs.len()
            invariant
                0 <= i <= vs.len(),
                match best {
                    Some(b) => {
                        &&& exists|j: int| 0 <= j < i && #[trigger] vs@[j].residual_max_ns == b
                        &&& forall|j: int| 0 <= j < i ==> #[trigger] vs@[j].residual_max_ns <= b
                    },
                    None => i == 0,
                },
            decreases vs.len() - i,
        {
            let here: u64 = vs[i].residual_max_ns;
            let better = match best {
                Some(b) => here > b,
                None => true,
            };
            if better {
                best = Some(here);
                assert(vs@[i as int].residual_max_ns == here);
            }
            i = i + 1;
        }
        proof {
            lemma_largest(self@, vs@, |c: ClockOffset| c.residual_max_ns, best);
        }
        best
    }

    /// When the newest fit was taken, in host time.
    pub fn newest_update_host_ns(&self) -> (m: Option<u64>)
        requires
            self.wf(),
        ensures
            is_largest(self@, |c: ClockOffset| c.fitted_at_host_ns, m),
    {
        let vs = self.inner.values();
        let mut best: Option<u64> = None;
        let mut i: usize = 0;
        while i < vs.len()
            invariant
                0 <= i <= vs.len(),
                match best {
                    Some(b) => {
                        &&& exists|j: int| 0 <= j < i && #[trigger] vs@[j].fitted_at_host_ns == b
                        &&& forall|j: int| 0 <= j < i ==> #[trigger] vs@[j].fitted_at_host_ns <= b
                    },
                    None => i == 0,
                },
            decreases vs.len() - i,
        {
            let here: u64 = vs[i].fitted_at_host_ns;
            let better = match best {
                Some(b) => here > b,
                None => true,
            };
            if better {
                best = Some(here);
                assert(vs@[i as int].fitted_at_host_ns == here);
            }
            i = i + 1;
        }
        proof {
            lemma_largest(self@, vs@, |c: ClockOffset| c.fitted_at_host_ns, best);
        }
        best
    }
}

/// The largest of the listed values is the largest in the table.
proof fn lemma_largest(
    fits: Map<u128, ClockOffset>,
    vs: Seq<ClockOffset>,
    field: spec_fn(ClockOffset) -> u64,
    best: Option<u64>,
)
    requires
        forall|i: int| 0 <= i < vs.len() ==> holds(fits, #[trigger] vs[i]),
        forall|k: u128| #[trigger] fits.contains_key(k) ==> vs.contains(fits[k]),
        match best {
            Some(b) => {
                &&& exists|j: int| 0 <= j < vs.len() && field(#[trigger] vs[j]) == b
                &&& forall|j: int| 0 <= j < vs.len() ==> field(#[trigger] vs[j]) <= b
            },
            None => vs.len() == 0,
        },
    ensures
        is_largest(fits, field, best),
{
    if let Some(b) = best {
        let j = choose|j: int| 0 <= j < vs.len() && field(#[trigger] vs[j]) == b;
        let k = choose|k: u128| #[trigger] fits.contains_key(k) && fits[k] == vs[j];
        assert(fits.contains_key(k) && field(fits[k]) == b);
        assert forall|k: u128| #[trigger] fits.contains_key(k) implies field(fits[k]) <= b by {
            assert(vs.contains(fits[k]));
            let i = choose|i: int| 0 <= i < vs.len() && vs[i] == fits[k];
            assert(field(vs[i]) <= b);
        }
    } else {
        assert forall|k: u128| !#[trigger] fits.contains_key(k) by {
            if fits.contains_key(k) {
                assert(vs.contains(fits[k]));
            }
        }
    }
}

/// Until a GPU's first fit arrives its timestamps are left alone, however often
/// they are mapped.
pub proof fn timestamps_wait_for_a_fit(
    fits: Map<u128, ClockOffset>,
    node_id: u32,
    gpu_id: u32,
    src_ns: u64,
)
    requires
        !fits.contains_key(gpu_key(node_id, gpu_id)),
    ensures
        corrected(fits, node_id, gpu_id, src_ns) == src_ns,
        corrected(fits, node_id, gpu_id, corrected(fits, node_id, gpu_id, src_ns)) == src_ns,
{
}

/// Under a fit that leaves host time alone, mapping again changes nothing.
pub proof fn mapping_host_time_again_changes_nothing(
    fits: Map<u128, ClockOffset>,
    node_id: u32,
    gpu_id: u32,
    src_ns: u64,
)
    requires
        fits.contains_key(gpu_key(node_id, gpu_id)),
        fits[gpu_key(node_id, gpu_id)].offset_ns == 0,
        fits[gpu_key(node_id, gpu_id)].slope_num == fits[gpu_key(node_id, gpu_id)].slope_den,
        fits[gpu_key(node_id, gpu_id)].slope_den > 0,
    ensures
        corrected(fits, node_id, gpu_id, src_ns) == src_ns,
{
    let d = fits[gpu_key(node_id, gpu_id)].slope_den as int;
    let s = src_ns as int;
    assert(d * s >= 0 && (d * s) / d == s) by (nonlinear_arith)
        requires
            d > 0,
            s >= 0,
    ;
}

/// A new fit governs its own GPU and no other.
pub proof fn fits_do_not_leak(
    fits: Map<u128, ClockOffset>,
    c: ClockOffsetRecord,
    now: u64,
    node_id: u32,
    gpu_id: u32,
    src_ns: u64,
)
    requires
        node_id != c.node_id || gpu_id != c.gpu_id,
    ensures
        corrected(
            fits.insert(gpu_key(c.node_id, c.gpu_id), kept_fit(c, now)),
            node_id,
            gpu_id,
            src_ns,
        ) == corrected(fits, node_id, gpu_id, src_ns),
{
}

/// Mapping follows the fit of the timestamp's own GPU: it gives the offset plus
/// the slope times the timestamp, rounded toward zero, and never less than zero.
/// The key of a GPU is its node and its own number side by side.
pub proof fn timestamps_follow_the_fit(
    fits: Map<u128, ClockOffset>,
    node_id: u32,
    gpu_id: u32,
    src_ns: u64,
)
    ensures
        ({
            let key = (node_id * 0x1_0000_0000 + gpu_id) as u128;
            let mapped = corrected(fits, node_id, gpu_id, src_ns) as int;
            &&& !fits.contains_key(key) ==> mapped == src_ns
            &&& fits.contains_key(key) && fits[key].slope_den > 0 ==> {
                let c = fits[key];
                let product = c.slope_num * src_ns;
                let whole: int = if product >= 0 {
                    product / (c.slope_den as int)
                } else {
                    -((-product) / (c.slope_den as int))
                };
                &&& c.offset_ns + whole < 0 ==> mapped == 0
                &&& 0 <= c.offset_ns + whole <= u64::MAX ==> mapped == c.offset_ns + whole
                &&& c.offset_ns + whole > u64::MAX ==> mapped == (c.offset_ns + whole)
                    % 0x1_0000_0000_0000_0000
            }
        }),
{
}

/// A fit is kept as it was sent, with a denominator of at least one.
pub proof fn fits_are_kept_as_sent(c: ClockOffsetRecord, now: u64)
    ensures
        ({
            let kept = kept_fit(c, now);
            &&& kept.offset_ns == c.offset_ns
            &&& kept.slope_num == c.slope_num
            &&& c.slope_den > 0 ==> kept.slope_den == c.slope_den
            &&& c.slope_den <= 0 ==> kept.slope_den == 1
            &&& kept.residual_max_ns == c.residual_max_ns
            &&& kept.fitted_at_host_ns == now
        }),
{
}

} // verus!
