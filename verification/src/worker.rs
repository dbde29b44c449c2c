//! The sampling worker: Markov-chain state, contribution counting, and the
//! batch loop that fills one histogram per batch.

use vstd::prelude::*;
use crate::accept::{accept_prob, alpha_spec, LIMIT_MAX};
use crate::buffer::{Buffer, Cell, CHANNELS, ZOOM_MIN, ZOOM_MAX};
use crate::complex::{Complex, CMAX};
use crate::draws::{DrawStream, rand_complex, rand_complex_spec, stream_next};
use crate::fixed::SCALE;
use crate::mutate::{mutate, mutate_spec};
use crate::orbit::iterate;

verus! {

/// One Markov-chain sub-state: the accepted seed and its contribution,
/// stored as the exact fraction count/limit.
#[derive(Clone, Copy, PartialEq, Eq, Structural, Debug)]
pub struct Sample {
    pub seed: Complex,
    pub count: u32,
    pub limit: u32,
}

impl Sample {
    pub open spec fn wf(self) -> bool {
        &&& self.seed.bounded(CMAX)
        &&& self.count <= self.limit
        &&& 1 <= self.limit <= LIMIT_MAX
    }
}

/// Every chain sub-state is well formed.
pub open spec fn chains_wf(chains: Seq<Sample>) -> bool {
    forall|k: int| 0 <= k < chains.len() ==> (#[trigger] chains[k]).wf()
}

/// The first step index in [j, cap) whose next iterate escapes.
pub open spec fn escape_scan(c: Complex, j: nat, cap: nat) -> Option<nat>
    decreases cap - j,
{
    if j >= cap {
        None
    } else if iterate(c, j + 1).escaped_spec() {
        Some(j)
    } else {
        escape_scan(c, (j + 1) as nat, cap)
    }
}

/// The step index `evaluate` reports for this seed and cap.
pub open spec fn escape_of(c: Complex, cap: nat) -> Option<nat> {
    escape_scan(c, 0, cap)
}

/// The length of the orbit `evaluate` leaves behind.
pub open spec fn orbit_len_of(c: Complex, cap: nat) -> nat {
    match escape_of(c, cap) {
        Some(i) => i + 1,
        None => cap,
    }
}

/// The orbit as a sequence of iterates.
pub open spec fn orbit_of(c: Complex, len: nat) -> Seq<Complex> {
    Seq::new(len, |k: int| iterate(c, k as nat))
}

/// A reported escape at step i pins the scan: no earlier iterate escaped.
proof fn lemma_escape_scan_some(c: Complex, j: nat, i: nat, cap: nat)
    requires
        j <= i < cap,
        iterate(c, (i + 1) as nat).escaped_spec(),
        forall|t: int| j + 1 <= t <= i ==> !(#[trigger] iterate(c, t as nat)).escaped_spec(),
    ensures
        escape_scan(c, j, cap) == Some(i),
    decreases i - j,
{
    if j == i {
    } else {
        assert(!iterate(c, (j + 1) as nat).escaped_spec());
        lemma_escape_scan_some(c, (j + 1) as nat, i, cap);
    }
}

/// No escape within the cap pins the scan to None.
proof fn lemma_escape_scan_none(c: Complex, j: nat, cap: nat)
    requires
        j <= cap,
        forall|t: int| j + 1 <= t <= cap ==> !(#[trigger] iterate(c, t as nat)).escaped_spec(),
    ensures
        escape_scan(c, j, cap) is None,
    decreases cap - j,
{
    if j < cap {
        assert(!iterate(c, (j + 1) as nat).escaped_spec());
        lemma_escape_scan_none(c, (j + 1) as nat, cap);
    }
}

/// Evaluate an orbit and relate the result to the functional scan.
pub fn evaluate_scan(c: Complex, cap: u32, orbit: &mut Vec<Complex>) -> (res: Option<u32>)
    requires
        c.bounded(CMAX),
    ensures
        match res {
            Some(i) => escape_of(c, cap as nat) == Some(i as nat),
            None => escape_of(c, cap as nat) is None,
        },
        final(orbit)@ == orbit_of(c, orbit_len_of(c, cap as nat)),
        final(orbit)@.len() == orbit_len_of(c, cap as nat),
        final(orbit)@.len() <= cap,
        cap >= 1 ==> final(orbit)@.len() >= 1,
        forall|k: int| 0 <= k < final(orbit)@.len() ==> (#[trigger] final(orbit)@[k]).bounded(
            CMAX,
        ),
{
    let res = crate::orbit::evaluate(c, cap, orbit);
    proof {
        match res {
            Some(i) => {
                lemma_escape_scan_some(c, 0, i as nat, cap as nat);
            },
            None => {
                lemma_escape_scan_none(c, 0, cap as nat);
            },
        }
        assert(orbit@ =~= orbit_of(c, orbit_len_of(c, cap as nat)));
    }
    res
}

/// A seed clearly outside the bailout radius is reported at step 0, for
/// any cap.
pub proof fn lemma_big_seed_reported(c: Complex, cap: nat)
    requires
        c.bounded(CMAX),
        c.norm2_spec() >= 4 * (crate::fixed::SCALE as int) * (crate::fixed::SCALE as int)
            + crate::orbit::ESCAPE_MARGIN,
        cap >= 1,
    ensures
        escape_of(c, cap) == Some(0nat),
{
    crate::orbit::lemma_big_seed_escapes(c);
}

/// How many of these points land inside the frame.
pub open spec fn count_spec(frame: Buffer, pts: Seq<Complex>) -> int
    decreases pts.len(),
{
    if pts.len() == 0 {
        0
    } else {
        count_spec(frame, pts.drop_last()) + if frame.in_frame(pts.last()) {
            1int
        } else {
            0int
        }
    }
}

pub proof fn lemma_count_spec_bounds(frame: Buffer, pts: Seq<Complex>)
    ensures
        0 <= count_spec(frame, pts) <= pts.len(),
    decreases pts.len(),
{
    if pts.len() > 0 {
        lemma_count_spec_bounds(frame, pts.drop_last());
    }
}

/// Projection depends on the viewport alone, not on the stored counts.
pub proof fn lemma_frame_equiv(b1: Buffer, b2: Buffer, p: Complex)
    requires
        b1.same_frame(b2),
    ensures
        b1.in_frame(p) == b2.in_frame(p),
        b1.pos_spec(p) == b2.pos_spec(p),
{
}

/// The in-frame count of these points with respect to equal viewports.
pub proof fn lemma_count_frame_equiv(b1: Buffer, b2: Buffer, pts: Seq<Complex>)
    requires
        b1.same_frame(b2),
    ensures
        count_spec(b1, pts) == count_spec(b2, pts),
    decreases pts.len(),
{
    if pts.len() > 0 {
        lemma_count_frame_equiv(b1, b2, pts.drop_last());
        lemma_frame_equiv(b1, b2, pts.last());
    }
}

/// Count a candidate orbit's contribution: how many points check in frame.
pub fn count_in_frame(frame: &Buffer, pts: &Vec<Complex>) -> (n: u32)
    requires
        frame.wf(),
        pts@.len() <= LIMIT_MAX,
        forall|k: int| 0 <= k < pts@.len() ==> (#[trigger] pts@[k]).bounded(CMAX),
    ensures
        n == count_spec(*frame, pts@),
        n <= pts@.len(),
{
    let mut n: u32 = 0;
    let mut k: usize = 0;
    let len = pts.len();
    while k < len
        invariant
            k <= len,
            len == pts@.len(),
            len <= LIMIT_MAX,
            frame.wf(),
            forall|j: int| 0 <= j < pts@.len() ==> (#[trigger] pts@[j]).bounded(CMAX),
            n <= k,
            n == count_spec(*frame, pts@.take(k as int)),
        decreases len - k,
    {
        proof {
            assert(pts@.take(k as int + 1).drop_last() =~= pts@.take(k as int));
            assert(pts@.take(k as int + 1).last() == pts@[k as int]);
        }
        if frame.check(pts[k]) {
            n = n + 1;
        }
        k = k + 1;
    }
    proof {
        assert(pts@.take(len as int) =~= pts@);
    }
    n
}

/// Accumulate a run of points into the cells of a histogram, one saturating
/// increment per in-frame point, on the given channel.
pub open spec fn apply_points(frame: Buffer, cells: Seq<Cell>, ch: int, pts: Seq<Complex>) -> Seq<
    Cell,
>
    decreases pts.len(),
{
    if pts.len() == 0 {
        cells
    } else {
        let prev = apply_points(frame, cells, ch, pts.drop_last());
        if 0 <= ch < CHANNELS && frame.in_frame(pts.last()) {
            prev.update(
                frame.pos_spec(pts.last()),
                prev[frame.pos_spec(pts.last())].bump_spec(ch),
            )
        } else {
            prev
        }
    }
}

pub proof fn lemma_apply_points_len(frame: Buffer, cells: Seq<Cell>, ch: int, pts: Seq<Complex>)
    requires
        frame.wf(),
        cells.len() == (frame.width as int) * (frame.height as int),
    ensures
        apply_points(frame, cells, ch, pts).len() == cells.len(),
    decreases pts.len(),
{
    if pts.len() > 0 {
        lemma_apply_points_len(frame, cells, ch, pts.drop_last());
        let prev = apply_points(frame, cells, ch, pts.drop_last());
        if 0 <= ch < CHANNELS && frame.in_frame(pts.last()) {
            lemma_pos_in_range(frame, pts.last());
        }
    }
}

/// An in-frame point indexes a cell inside the grid.
pub proof fn lemma_pos_in_range(frame: Buffer, p: Complex)
    requires
        frame.wf(),
        frame.in_frame(p),
    ensures
        0 <= frame.pos_spec(p) < (frame.width as int) * (frame.height as int),
{
    let px = frame.px_spec(p);
    let py = frame.py_spec(p);
    assert(0 <= px + py * (frame.width as int) < (frame.width as int) * (frame.height as int))
        by (nonlinear_arith)
        requires
            0 <= px < frame.width,
            0 <= py < frame.height,
            0 < frame.width,
            0 < frame.height,
    ;
}

pub proof fn lemma_apply_frame_equiv(b1: Buffer, b2: Buffer, cells: Seq<Cell>, ch: int, pts: Seq<Complex>)
    requires
        b1.same_frame(b2),
    ensures
        apply_points(b1, cells, ch, pts) == apply_points(b2, cells, ch, pts),
    decreases pts.len(),
{
    if pts.len() > 0 {
        lemma_apply_frame_equiv(b1, b2, cells, ch, pts.drop_last());
        lemma_frame_equiv(b1, b2, pts.last());
    }
}

/// A cell count never decreases while an orbit is accumulated.
pub proof fn lemma_apply_points_monotone(
    frame: Buffer,
    cells: Seq<Cell>,
    ch: int,
    pts: Seq<Complex>,
    k: int,
    ch2: int,
)
    requires
        frame.wf(),
        cells.len() == (frame.width as int) * (frame.height as int),
        0 <= k < cells.len(),
    ensures
        apply_points(frame, cells, ch, pts)[k].chan(ch2) >= cells[k].chan(ch2),
    decreases pts.len(),
{
    if pts.len() > 0 {
        lemma_apply_points_monotone(frame, cells, ch, pts.drop_last(), k, ch2);
        lemma_apply_points_len(frame, cells, ch, pts.drop_last());
        let prev = apply_points(frame, cells, ch, pts.drop_last());
        if 0 <= ch < CHANNELS && frame.in_frame(pts.last()) {
            lemma_pos_in_range(frame, pts.last());
        }
    }
}

/// Accumulate every in-frame point of an accepted orbit after the first
/// (the seed point itself is left out of the histogram).
pub fn apply_orbit(buf: &mut Buffer, ch: usize, pts: &Vec<Complex>)
    requires
        old(buf).wf(),
        ch < CHANNELS,
        pts@.len() >= 1,
        forall|k: int| 0 <= k < pts@.len() ==> (#[trigger] pts@[k]).bounded(CMAX),
    ensures
        final(buf).wf(),
        final(buf).same_frame(*old(buf)),
        final(buf).buffer@ == apply_points(
            *old(buf),
            old(buf).buffer@,
            ch as int,
            pts@.skip(1),
        ),
{
    let len = pts.len();
    let mut k: usize = 1;
    while k < len
        invariant
            1 <= k <= len,
            len == pts@.len(),
            old(buf).wf(),
            buf.wf(),
            buf.same_frame(*old(buf)),
            ch < CHANNELS,
            forall|j: int| 0 <= j < pts@.len() ==> (#[trigger] pts@[j]).bounded(CMAX),
            buf.buffer@ == apply_points(
                *old(buf),
                old(buf).buffer@,
                ch as int,
                pts@.subrange(1, k as int),
            ),
        decreases len - k,
    {
        proof {
            assert(pts@.subrange(1, k as int + 1).drop_last() =~= pts@.subrange(1, k as int));
            assert(pts@.subrange(1, k as int + 1).last() == pts@[k as int]);
            lemma_apply_points_len(
                *old(buf),
                old(buf).buffer@,
                ch as int,
                pts@.subrange(1, k as int),
            );
            lemma_frame_equiv(*buf, *old(buf), pts@[k as int]);
        }
        let ghost pre = *buf;
        self_increment(buf, ch, pts, k);
        proof {
            lemma_frame_equiv(pre, *old(buf), pts@[k as int]);
        }
        k = k + 1;
    }
    proof {
        assert(pts@.subrange(1, len as int) =~= pts@.skip(1));
    }
}

/// One increment step, factored out to keep the loop body small.
fn self_increment(buf: &mut Buffer, ch: usize, pts: &Vec<Complex>, k: usize)
    requires
        old(buf).wf(),
        ch < CHANNELS,
        k < pts@.len(),
        pts@[k as int].bounded(CMAX),
    ensures
        final(buf).wf(),
        final(buf).same_frame(*old(buf)),
        final(buf).buffer@ == if old(buf).in_frame(pts@[k as int]) {
            old(buf).buffer@.update(
                old(buf).pos_spec(pts@[k as int]),
                old(buf).buffer@[old(buf).pos_spec(pts@[k as int])].bump_spec(ch as int),
            )
        } else {
            old(buf).buffer@
        },
{
    let p = pts[k];
    let _ = buf.increment(ch, p);
}

/// A chain sub-state produced by an accepted proposal at this channel cap:
/// its seed's orbit escapes, its stored contribution is the in-frame count
/// of that orbit, and the count is positive.  A sub-state either keeps its
/// incoming value or satisfies this, whatever the draws were.
pub open spec fn sample_consistent(frame: Buffer, s: Sample, limit: nat) -> bool {
    &&& s.limit == limit
    &&& escape_of(s.seed, limit) is Some
    &&& s.count == count_spec(frame, orbit_of(s.seed, orbit_len_of(s.seed, limit)))
    &&& s.count > 0
}

pub proof fn lemma_sample_consistent_equiv(f1: Buffer, f2: Buffer, s: Sample, limit: nat)
    requires
        f1.same_frame(f2),
    ensures
        sample_consistent(f1, s, limit) == sample_consistent(f2, s, limit),
{
    lemma_count_frame_equiv(f1, f2, orbit_of(s.seed, orbit_len_of(s.seed, limit)));
}

/// A history of accumulations: the cells that result from applying each
/// (channel, points) run in turn, starting from `cells`.
pub open spec fn apply_log(frame: Buffer, cells: Seq<Cell>, log: Seq<(int, Seq<Complex>)>) -> Seq<
    Cell,
>
    decreases log.len(),
{
    if log.len() == 0 {
        cells
    } else {
        let prev = apply_log(frame, cells, log.drop_last());
        apply_points(frame, prev, log.last().0, log.last().1)
    }
}

/// What one mutate/evaluate/accept/increment round does to one chain
/// sub-state: the new cells, the new sub-state, and the stream left behind.
/// The proposal is drawn by `mutate` (or from the whole domain when
/// Metropolis sampling is off); if its orbit escapes and touches the frame,
/// the acceptance test decides whether the chain moves, and on acceptance
/// every in-frame point of the accepted (now-current) orbit except its
/// first — the seed point itself is left out — is counted into the
/// histogram.
pub open spec fn step_spec(
    use_metropolis: bool,
    zoom: int,
    limit: nat,
    frame: Buffer,
    cells: Seq<Cell>,
    s: Sample,
    ch: int,
    stream: DrawStream,
) -> (Seq<Cell>, Sample, DrawStream) {
    let cur_len = orbit_len_of(s.seed, limit);
    let (oc, s1) = if use_metropolis {
        mutate_spec(stream, s.seed, zoom)
    } else {
        rand_complex_spec(stream)
    };
    match oc {
        None => (cells, s, s1),
        Some(c2) => match escape_of(c2, limit) {
            None => (cells, s, s1),
            Some(esc2) => {
                let plen = (esc2 + 1) as nat;
                let pcount = count_spec(frame, orbit_of(c2, plen));
                if pcount == 0 {
                    (cells, s, s1)
                } else if use_metropolis {
                    let alpha = alpha_spec(
                        s.count as int,
                        s.limit as int,
                        cur_len as int,
                        pcount,
                        limit as int,
                        plen as int,
                    );
                    let (ou, s2) = stream_next(s1);
                    match ou {
                        None => (cells, s, s2),
                        Some(u) => {
                            if (u as int) % (SCALE as int) < alpha {
                                (
                                    apply_points(frame, cells, ch, orbit_of(c2, plen).skip(1)),
                                    Sample { seed: c2, count: pcount as u32, limit: limit as u32 },
                                    s2,
                                )
                            } else {
                                (cells, s, s2)
                            }
                        },
                    }
                } else {
                    (
                        apply_points(frame, cells, ch, orbit_of(c2, plen).skip(1)),
                        Sample { seed: c2, count: pcount as u32, limit: limit as u32 },
                        s1,
                    )
                }
            },
        },
    }
}

/// Run one sampling round for one chain sub-state on one channel.
pub fn step_channel(
    use_metropolis: bool,
    zoom: i64,
    limit: u32,
    ch: usize,
    buf: &mut Buffer,
    s: &mut Sample,
    cur: &mut Vec<Complex>,
    prop: &mut Vec<Complex>,
    rng: &mut DrawStream,
)
    requires
        old(buf).wf(),
        old(s).wf(),
        ZOOM_MIN <= zoom <= ZOOM_MAX,
        1 <= limit <= LIMIT_MAX,
        ch < CHANNELS,
    ensures
        final(buf).wf(),
        final(buf).same_frame(*old(buf)),
        final(s).wf(),
        (*final(s) == *old(s) && final(buf).buffer@ == old(buf).buffer@) || (
        sample_consistent(*old(buf), *final(s), limit as nat) && final(buf).buffer@
            == apply_points(
            *old(buf),
            old(buf).buffer@,
            ch as int,
            orbit_of(final(s).seed, orbit_len_of(final(s).seed, limit as nat)).skip(1),
        )),
        old(rng).is_fixed() ==> (final(buf).buffer@, *final(s), *final(rng)) == step_spec(
            use_metropolis,
            zoom as int,
            limit as nat,
            *old(buf),
            old(buf).buffer@,
            *old(s),
            ch as int,
            *old(rng),
        ),
        old(rng).is_fixed() ==> final(rng).is_fixed(),
        (!old(rng).is_fixed() ==> (*final(rng)) is Live),
{
    let _cur_res = evaluate_scan(s.seed, limit, cur);
    let cand = if use_metropolis {
        mutate(s.seed, zoom, rng)
    } else {
        rand_complex(rng)
    };
    match cand {
        None => {},
        Some(c2) => {
            match evaluate_scan(c2, limit, prop) {
                None => {},
                Some(esc2) => {
                    proof {
                        lemma_count_spec_bounds(*buf, prop@);
                    }
                    let pcount = count_in_frame(buf, prop);
                    if pcount > 0 {
                        let cur_len: u32 = cur.len() as u32;
                        let prop_len: u32 = prop.len() as u32;
                        let alpha = accept_prob(
                            s.count,
                            s.limit,
                            cur_len,
                            pcount,
                            limit,
                            prop_len,
                        );
                        let mut accept: bool = true;
                        let mut dry: bool = false;
                        if use_metropolis {
                            match rng.next() {
                                None => {
                                    dry = true;
                                },
                                Some(u) => {
                                    accept = ((u % (SCALE as u64)) as i64) < alpha;
                                },
                            }
                        }
                        if !dry && accept {
                            s.seed = c2;
                            s.count = pcount;
                            s.limit = limit;
                            apply_orbit(buf, ch, prop);
                        }
                    }
                },
            }
        },
    }
}

/// One pass over all chain sub-states from index k on: sub-state k works on
/// channel k mod 3 with that channel's iteration cap.
pub open spec fn round_spec(
    use_metropolis: bool,
    zoom: int,
    limits: Seq<u32>,
    frame: Buffer,
    cells: Seq<Cell>,
    chains: Seq<Sample>,
    k: nat,
    stream: DrawStream,
) -> (Seq<Cell>, Seq<Sample>, DrawStream)
    decreases chains.len() - k,
{
    if k >= chains.len() {
        (cells, chains, stream)
    } else {
        let ch = k as int % (CHANNELS as int);
        let r = step_spec(
            use_metropolis,
            zoom,
            limits[ch] as nat,
            frame,
            cells,
            chains[k as int],
            ch,
            stream,
        );
        round_spec(
            use_metropolis,
            zoom,
            limits,
            frame,
            r.0,
            chains.update(k as int, r.1),
            k + 1,
            r.2,
        )
    }
}

/// `t` full passes over the chain sub-states.
pub open spec fn rounds_spec(
    use_metropolis: bool,
    zoom: int,
    limits: Seq<u32>,
    frame: Buffer,
    cells: Seq<Cell>,
    chains: Seq<Sample>,
    t: nat,
    stream: DrawStream,
) -> (Seq<Cell>, Seq<Sample>, DrawStream)
    decreases t,
{
    if t == 0 {
        (cells, chains, stream)
    } else {
        let r = round_spec(use_metropolis, zoom, limits, frame, cells, chains, 0, stream);
        rounds_spec(use_metropolis, zoom, limits, frame, r.0, r.1, (t - 1) as nat, r.2)
    }
}

/// One step reads the frame only through its viewport fields.
pub proof fn lemma_step_frame_equiv(
    f1: Buffer,
    f2: Buffer,
    use_metropolis: bool,
    zoom: int,
    limit: nat,
    cells: Seq<Cell>,
    s: Sample,
    ch: int,
    stream: DrawStream,
)
    requires
        f1.same_frame(f2),
    ensures
        step_spec(use_metropolis, zoom, limit, f1, cells, s, ch, stream) == step_spec(
            use_metropolis,
            zoom,
            limit,
            f2,
            cells,
            s,
            ch,
            stream,
        ),
{
    let r = if use_metropolis {
        mutate_spec(stream, s.seed, zoom)
    } else {
        rand_complex_spec(stream)
    };
    match r.0 {
        None => {},
        Some(c2) => {
            match escape_of(c2, limit) {
                None => {},
                Some(esc2) => {
                    lemma_count_frame_equiv(f1, f2, orbit_of(c2, (esc2 + 1) as nat));
                    lemma_apply_frame_equiv(
                        f1,
                        f2,
                        cells,
                        ch,
                        orbit_of(c2, (esc2 + 1) as nat).skip(1),
                    );
                },
            }
        },
    }
}

/// A whole pass reads the frame only through its viewport fields.
pub proof fn lemma_round_frame_equiv(
    f1: Buffer,
    f2: Buffer,
    use_metropolis: bool,
    zoom: int,
    limits: Seq<u32>,
    cells: Seq<Cell>,
    chains: Seq<Sample>,
    k: nat,
    stream: DrawStream,
)
    requires
        f1.same_frame(f2),
    ensures
        round_spec(use_metropolis, zoom, limits, f1, cells, chains, k, stream) == round_spec(
            use_metropolis,
            zoom,
            limits,
            f2,
            cells,
            chains,
            k,
            stream,
        ),
    decreases chains.len() - k,
{
    if k < chains.len() {
        let ch = k as int % (CHANNELS as int);
        lemma_step_frame_equiv(
            f1,
            f2,
            use_metropolis,
            zoom,
            limits[ch] as nat,
            cells,
            chains[k as int],
            ch,
            stream,
        );
        let r = step_spec(
            use_metropolis,
            zoom,
            limits[ch] as nat,
            f1,
            cells,
            chains[k as int],
            ch,
            stream,
        );
        lemma_round_frame_equiv(
            f1,
            f2,
            use_metropolis,
            zoom,
            limits,
            r.0,
            chains.update(k as int, r.1),
            k + 1,
            r.2,
        );
    }
}

/// A batch reads the histogram it fills only through its viewport: with the
/// same configuration, the same chain state and the same draws, the result
/// of a batch is the same, whatever buffer value carries the viewport.
/// Together with the exact batch contract below, two runs with Metropolis
/// sampling off (or on) and identical scripted draws produce bit-identical
/// batch histograms.
pub proof fn lemma_rounds_frame_equiv(
    f1: Buffer,
    f2: Buffer,
    use_metropolis: bool,
    zoom: int,
    limits: Seq<u32>,
    cells: Seq<Cell>,
    chains: Seq<Sample>,
    t: nat,
    stream: DrawStream,
)
    requires
        f1.same_frame(f2),
    ensures
        rounds_spec(use_metropolis, zoom, limits, f1, cells, chains, t, stream) == rounds_spec(
            use_metropolis,
            zoom,
            limits,
            f2,
            cells,
            chains,
            t,
            stream,
        ),
    decreases t,
{
    if t > 0 {
        lemma_round_frame_equiv(f1, f2, use_metropolis, zoom, limits, cells, chains, 0, stream);
        let r = round_spec(use_metropolis, zoom, limits, f1, cells, chains, 0, stream);
        lemma_rounds_frame_equiv(
            f1,
            f2,
            use_metropolis,
            zoom,
            limits,
            r.0,
            r.1,
            (t - 1) as nat,
            r.2,
        );
    }
}

/// A history of accumulations reads the frame only through its viewport.
pub proof fn lemma_apply_log_frame_equiv(
    f1: Buffer,
    f2: Buffer,
    cells: Seq<Cell>,
    log: Seq<(int, Seq<Complex>)>,
)
    requires
        f1.same_frame(f2),
    ensures
        apply_log(f1, cells, log) == apply_log(f2, cells, log),
    decreases log.len(),
{
    if log.len() > 0 {
        lemma_apply_log_frame_equiv(f1, f2, cells, log.drop_last());
        lemma_apply_frame_equiv(
            f1,
            f2,
            apply_log(f1, cells, log.drop_last()),
            log.last().0,
            log.last().1,
        );
    }
}

/// The all-zero grid of a fresh histogram.
pub open spec fn zero_cells(len: nat) -> Seq<Cell> {
    Seq::new(len, |k: int| crate::buffer::zero_cell())
}

/// Produce one batch: allocate a fresh histogram for this viewport, run
/// `batch_steps` rounds over every (chain, channel) pair, and hand the
/// filled histogram back.  With a scripted stream the entire result is a
/// function of the configuration, the incoming chain state and the draws.
pub fn run_batch(cfg: &crate::config::Config, chains: &mut Vec<Sample>, rng: &mut DrawStream) -> (
    buf: Buffer)
    requires
        cfg.wf(),
        chains_wf(old(chains)@),
    ensures
        buf.wf(),
        buf.width == cfg.width && buf.height == cfg.height && buf.origin == cfg.origin
            && buf.zoom == cfg.zoom,
        chains_wf(final(chains)@),
        final(chains)@.len() == old(chains)@.len(),
        forall|k: int|
            0 <= k < old(chains)@.len() ==> #[trigger] final(chains)@[k] == old(chains)@[k]
                || sample_consistent(
                buf,
                final(chains)@[k],
                cfg.limits@[k % (CHANNELS as int)] as nat,
            ),
        exists|log: Seq<(int, Seq<Complex>)>|
            buf.buffer@ == #[trigger] apply_log(
                buf,
                zero_cells((cfg.width as nat) * (cfg.height as nat)),
                log,
            ),
        old(rng).is_fixed() ==> (buf.buffer@, final(chains)@, *final(rng)) == rounds_spec(
            cfg.use_metropolis,
            cfg.zoom as int,
            cfg.limits@,
            buf,
            zero_cells((cfg.width as nat) * (cfg.height as nat)),
            old(chains)@,
            cfg.batch_steps as nat,
            *old(rng),
        ),
        old(rng).is_fixed() ==> final(rng).is_fixed(),
        (!old(rng).is_fixed() ==> (*final(rng)) is Live),
{
    let mut buf = Buffer::new(cfg.width, cfg.height, cfg.origin, cfg.zoom);
    proof {
        assert(buf.buffer@ =~= zero_cells((cfg.width as nat) * (cfg.height as nat)));
    }
    let ghost frame0 = buf;
    let ghost cells0 = buf.buffer@;
    let ghost chains0 = chains@;
    let ghost stream0 = *rng;
    proof {
        assert(buf.buffer@ == apply_log(frame0, cells0, Seq::<(int, Seq<Complex>)>::empty()));
    }
    let mut cur: Vec<Complex> = Vec::new();
    let mut prop: Vec<Complex> = Vec::new();
    let n = chains.len();
    let steps = cfg.batch_steps;
    let mut t: u32 = 0;
    while t < steps
        invariant
            t <= steps,
            cfg.wf(),
            n == chains@.len(),
            chains@.len() == chains0.len(),
            chains_wf(chains@),
            buf.wf(),
            buf.same_frame(frame0),
            frame0.wf(),
            old(rng).is_fixed() ==> *old(rng) == stream0,
            old(rng).is_fixed() ==> rng.is_fixed(),
            (!old(rng).is_fixed() ==> (*rng) is Live),
            chains0 == old(chains)@,
            forall|q: int|
                0 <= q < chains@.len() ==> #[trigger] chains@[q] == chains0[q]
                    || sample_consistent(
                    frame0,
                    chains@[q],
                    cfg.limits@[q % (CHANNELS as int)] as nat,
                ),
            exists|log: Seq<(int, Seq<Complex>)>|
                buf.buffer@ == #[trigger] apply_log(frame0, cells0, log),
            old(rng).is_fixed() ==> rounds_spec(
                cfg.use_metropolis,
                cfg.zoom as int,
                cfg.limits@,
                frame0,
                buf.buffer@,
                chains@,
                (steps - t) as nat,
                *rng,
            ) == rounds_spec(
                cfg.use_metropolis,
                cfg.zoom as int,
                cfg.limits@,
                frame0,
                cells0,
                chains0,
                steps as nat,
                stream0,
            ),
        decreases steps - t,
    {
        let ghost round_cells = buf.buffer@;
        let ghost round_chains = chains@;
        let ghost round_stream = *rng;
        let mut k: usize = 0;
        while k < n
            invariant
                k <= n,
                n == chains@.len(),
                chains@.len() == chains0.len(),
                cfg.wf(),
                chains_wf(chains@),
                buf.wf(),
                buf.same_frame(frame0),
                frame0.wf(),
                old(rng).is_fixed() ==> rng.is_fixed(),
                (!old(rng).is_fixed() ==> (*rng) is Live),
                forall|q: int|
                    0 <= q < chains@.len() ==> #[trigger] chains@[q] == chains0[q]
                        || sample_consistent(
                        frame0,
                        chains@[q],
                        cfg.limits@[q % (CHANNELS as int)] as nat,
                    ),
                exists|log: Seq<(int, Seq<Complex>)>|
                    buf.buffer@ == #[trigger] apply_log(frame0, cells0, log),
                old(rng).is_fixed() ==> round_spec(
                    cfg.use_metropolis,
                    cfg.zoom as int,
                    cfg.limits@,
                    frame0,
                    buf.buffer@,
                    chains@,
                    k as nat,
                    *rng,
                ) == round_spec(
                    cfg.use_metropolis,
                    cfg.zoom as int,
                    cfg.limits@,
                    frame0,
                    round_cells,
                    round_chains,
                    0,
                    round_stream,
                ),
            decreases n - k,
        {
            let ch: usize = k % CHANNELS;
            let limit: u32 = cfg.limits[ch];
            let mut s: Sample = chains[k];
            let ghost pre_buf = buf;
            let ghost pre_s = s;
            let ghost pre_stream = *rng;
            let ghost log0 = choose|log: Seq<(int, Seq<Complex>)>|
                buf.buffer@ == #[trigger] apply_log(frame0, cells0, log);
            step_channel(cfg.use_metropolis, cfg.zoom, limit, ch, &mut buf, &mut s, &mut cur,
                &mut prop, rng);
            chains.set(k, s);
            proof {
                if old(rng).is_fixed() {
                    lemma_step_frame_equiv(
                        pre_buf,
                        frame0,
                        cfg.use_metropolis,
                        cfg.zoom as int,
                        limit as nat,
                        pre_buf.buffer@,
                        pre_s,
                        ch as int,
                        pre_stream,
                    );
                }
                assert(pre_buf.buffer@ == apply_log(frame0, cells0, log0));
                if buf.buffer@ == pre_buf.buffer@ {
                    assert(buf.buffer@ == apply_log(frame0, cells0, log0));
                } else {
                    let pts = orbit_of(s.seed, orbit_len_of(s.seed, limit as nat)).skip(1);
                    lemma_apply_frame_equiv(pre_buf, frame0, pre_buf.buffer@, ch as int, pts);
                    lemma_sample_consistent_equiv(pre_buf, frame0, s, limit as nat);
                    let nl = log0.push((ch as int, pts));
                    assert(nl.drop_last() =~= log0);
                    assert(nl.last() == (ch as int, pts));
                    assert(buf.buffer@ == apply_log(frame0, cells0, nl));
                }
                if s != pre_s {
                    lemma_sample_consistent_equiv(pre_buf, frame0, s, limit as nat);
                }
            }
            k = k + 1;
        }
        t = t + 1;
    }
    proof {
        if old(rng).is_fixed() {
            lemma_rounds_frame_equiv(
                frame0,
                buf,
                cfg.use_metropolis,
                cfg.zoom as int,
                cfg.limits@,
                cells0,
                chains0,
                steps as nat,
                stream0,
            );
        }
        assert forall|k: int|
            0 <= k < old(chains)@.len() implies #[trigger] chains@[k] == old(chains)@[k]
            || sample_consistent(
            buf,
            chains@[k],
            cfg.limits@[k % (CHANNELS as int)] as nat,
        ) by {
            if chains@[k] != old(chains)@[k] {
                lemma_sample_consistent_equiv(
                    frame0,
                    buf,
                    chains@[k],
                    cfg.limits@[k % (CHANNELS as int)] as nat,
                );
            }
        }
        let log1 = choose|log: Seq<(int, Seq<Complex>)>|
            buf.buffer@ == #[trigger] apply_log(frame0, cells0, log);
        assert(buf.buffer@ == apply_log(frame0, cells0, log1));
        lemma_apply_log_frame_equiv(frame0, buf, cells0, log1);
        assert(buf.buffer@ == apply_log(
            buf,
            zero_cells((cfg.width as nat) * (cfg.height as nat)),
            log1,
        ));
    }
    buf
}

/// Iteration cap of the initial-sample search and the warm-up phase.
pub const WARMUP_LIMIT: u32 = 50000;

/// Warm-up iterations per chain sub-state.
pub const WARMUP_ITERS: u32 = 10000;

/// Candidates drawn per shrinking-search round.
pub const FIND_TRIES: u32 = 200;

/// Depth bound of the shrinking search.
pub const FIND_DEPTH: u32 = 500;

/// What one warm-up iteration does to one chain sub-state.
pub open spec fn warm_spec(frame: Buffer, s: Sample, stream: DrawStream) -> (
    Sample,
    DrawStream,
) {
    let cur_len = orbit_len_of(s.seed, WARMUP_LIMIT as nat);
    let r = mutate_spec(stream, s.seed, frame.zoom as int);
    match r.0 {
        None => (s, r.1),
        Some(c2) => match escape_of(c2, WARMUP_LIMIT as nat) {
            None => (s, r.1),
            Some(esc2) => {
                let plen = (esc2 + 1) as nat;
                let pcount = count_spec(frame, orbit_of(c2, plen));
                if pcount == 0 {
                    (s, r.1)
                } else {
                    let alpha = alpha_spec(
                        s.count as int,
                        s.limit as int,
                        cur_len as int,
                        pcount,
                        WARMUP_LIMIT as int,
                        plen as int,
                    );
                    let (ou, s2) = stream_next(r.1);
                    match ou {
                        None => (s, s2),
                        Some(u) => {
                            if (u as int) % (SCALE as int) < alpha {
                                (
                                    Sample {
                                        seed: c2,
                                        count: pcount as u32,
                                        limit: WARMUP_LIMIT,
                                    },
                                    s2,
                                )
                            } else {
                                (s, s2)
                            }
                        },
                    }
                }
            },
        },
    }
}

/// The warm-up iterations of one chain sub-state, `it` of them remaining.
pub open spec fn warm_iters_spec(frame: Buffer, s: Sample, it: nat, stream: DrawStream) -> (
    Sample,
    DrawStream,
)
    decreases it,
{
    if it == 0 {
        (s, stream)
    } else {
        let r = warm_spec(frame, s, stream);
        warm_iters_spec(frame, r.0, (it - 1) as nat, r.1)
    }
}

/// The warm-up of every chain sub-state from index k on.
pub open spec fn warm_all_spec(frame: Buffer, chains: Seq<Sample>, k: nat, stream: DrawStream)
    -> (Seq<Sample>, DrawStream)
    decreases chains.len() - k,
{
    if k >= chains.len() {
        (chains, stream)
    } else {
        let r = warm_iters_spec(frame, chains[k as int], WARMUP_ITERS as nat, stream);
        warm_all_spec(frame, chains.update(k as int, r.0), k + 1, r.1)
    }
}

/// One warm-up iteration: like a sampling round, but nothing is written to
/// any histogram; only the chain's (seed, contribution) state advances.
fn step_warm(frame: &Buffer, s: &mut Sample, cur: &mut Vec<Complex>, prop: &mut Vec<Complex>,
    rng: &mut DrawStream)
    requires
        frame.wf(),
        old(s).wf(),
    ensures
        final(s).wf(),
        (*final(s) == *old(s)) || sample_consistent(*frame, *final(s), WARMUP_LIMIT as nat),
        old(rng).is_fixed() ==> (*final(s), *final(rng)) == warm_spec(*frame, *old(s), *old(rng)),
        old(rng).is_fixed() ==> final(rng).is_fixed(),
        (!old(rng).is_fixed() ==> (*final(rng)) is Live),
{
    let _ = evaluate_scan(s.seed, WARMUP_LIMIT, cur);
    match mutate(s.seed, frame.zoom, rng) {
        None => {},
        Some(c2) => {
            match evaluate_scan(c2, WARMUP_LIMIT, prop) {
                None => {},
                Some(_) => {
                    proof {
                        lemma_count_spec_bounds(*frame, prop@);
                    }
                    let count = count_in_frame(frame, prop);
                    if count > 0 {
                        let alpha = accept_prob(
                            s.count,
                            s.limit,
                            cur.len() as u32,
                            count,
                            WARMUP_LIMIT,
                            prop.len() as u32,
                        );
                        match rng.next() {
                            None => {},
                            Some(u) => {
                                if ((u % (SCALE as u64)) as i64) < alpha {
                                    s.seed = c2;
                                    s.count = count;
                                    s.limit = WARMUP_LIMIT;
                                }
                            },
                        }
                    }
                },
            }
        },
    }
}

/// Advance every chain sub-state through the warm-up iterations, so that the
/// chains reach their importance-weighted distribution before any output-
/// affecting sampling begins.
pub fn warmup(frame: &Buffer, chains: &mut Vec<Sample>, rng: &mut DrawStream)
    requires
        frame.wf(),
        chains_wf(old(chains)@),
    ensures
        chains_wf(final(chains)@),
        final(chains)@.len() == old(chains)@.len(),
        forall|k: int|
            0 <= k < old(chains)@.len() ==> #[trigger] final(chains)@[k] == old(chains)@[k]
                || sample_consistent(*frame, final(chains)@[k], WARMUP_LIMIT as nat),
        old(rng).is_fixed() ==> (final(chains)@, *final(rng)) == warm_all_spec(
            *frame,
            old(chains)@,
            0,
            *old(rng),
        ),
        old(rng).is_fixed() ==> final(rng).is_fixed(),
        (!old(rng).is_fixed() ==> (*final(rng)) is Live),
{
    let ghost chains0 = chains@;
    let ghost stream0 = *rng;
    let mut cur: Vec<Complex> = Vec::new();
    let mut prop: Vec<Complex> = Vec::new();
    let n = chains.len();
    let mut k: usize = 0;
    while k < n
        invariant
            k <= n,
            n == chains@.len(),
            chains@.len() == chains0.len(),
            frame.wf(),
            chains_wf(chains@),
            old(rng).is_fixed() ==> rng.is_fixed(),
            (!old(rng).is_fixed() ==> (*rng) is Live),
            forall|q: int|
                0 <= q < chains@.len() ==> #[trigger] chains@[q] == chains0[q]
                    || sample_consistent(*frame, chains@[q], WARMUP_LIMIT as nat),
            old(rng).is_fixed() ==> warm_all_spec(*frame, chains@, k as nat, *rng)
                == warm_all_spec(*frame, chains0, 0, stream0),
        decreases n - k,
    {
        let mut s: Sample = chains[k];
        let ghost iter_stream = *rng;
        let mut it: u32 = 0;
        while it < WARMUP_ITERS
            invariant
                it <= WARMUP_ITERS,
                frame.wf(),
                s.wf(),
                old(rng).is_fixed() ==> rng.is_fixed(),
                (!old(rng).is_fixed() ==> (*rng) is Live),
                k < n,
                n == chains@.len(),
                s == chains@[k as int] || sample_consistent(*frame, s, WARMUP_LIMIT as nat),
                old(rng).is_fixed() ==> warm_iters_spec(
                    *frame,
                    s,
                    (WARMUP_ITERS - it) as nat,
                    *rng,
                ) == warm_iters_spec(*frame, chains@[k as int], WARMUP_ITERS as nat, iter_stream),
            decreases WARMUP_ITERS - it,
        {
            step_warm(frame, &mut s, &mut cur, &mut prop, rng);
            it = it + 1;
        }
        chains.set(k, s);
        k = k + 1;
    }
}

/// Squared distance of a point from the viewport origin, in raw units
/// squared.
pub open spec fn dist2(frame: Buffer, p: Complex) -> int {
    (p.r - frame.origin.r) * (p.r - frame.origin.r) + (p.i - frame.origin.i) * (p.i
        - frame.origin.i)
}

/// The running minimum of the squared distances over the points, in order.
pub open spec fn fold_min_dist(frame: Buffer, pts: Seq<Complex>, acc: int) -> int
    decreases pts.len(),
{
    if pts.len() == 0 {
        acc
    } else {
        let d = dist2(frame, pts[0]);
        fold_min_dist(
            frame,
            pts.skip(1),
            if d < acc {
                d
            } else {
                acc
            },
        )
    }
}

/// A search candidate: a domain point scaled into the half-radius disk and
/// shifted to the center (components clamped into the working range).
pub open spec fn search_cand(center: Complex, rad_half: int, c: Complex) -> Complex {
    Complex {
        r: crate::mutate::clamp_comp_spec(
            crate::fixed::mul_q_spec(c.r as int, rad_half) + center.r,
        ),
        i: crate::mutate::clamp_comp_spec(
            crate::fixed::mul_q_spec(c.i as int, rad_half) + center.i,
        ),
    }
}

/// One round of the shrinking search, `t` candidates remaining: the first
/// escaping candidate with in-frame contribution is the result; otherwise
/// the round tracks the candidate whose orbit came closest to the viewport
/// origin.  The outcome is (found, best, closest, stream).
pub open spec fn find_round_spec(
    frame: Buffer,
    center: Complex,
    rad_half: int,
    best: Complex,
    closest: int,
    t: nat,
    s: DrawStream,
) -> (Option<Complex>, Complex, int, DrawStream)
    decreases t,
{
    if t == 0 {
        (None, best, closest, s)
    } else {
        let (oc, s1) = rand_complex_spec(s);
        match oc {
            None => find_round_spec(frame, center, rad_half, best, closest, (t - 1) as nat, s1),
            Some(c) => {
                let cand = search_cand(center, rad_half, c);
                match escape_of(cand, WARMUP_LIMIT as nat) {
                    None => find_round_spec(
                        frame,
                        center,
                        rad_half,
                        best,
                        closest,
                        (t - 1) as nat,
                        s1,
                    ),
                    Some(e) => {
                        let pts = orbit_of(cand, orbit_len_of(cand, WARMUP_LIMIT as nat));
                        if count_spec(frame, pts) > 0 {
                            (Some(cand), best, closest, s1)
                        } else {
                            let dm = fold_min_dist(frame, pts, closest);
                            let b2 = if dm < closest {
                                cand
                            } else {
                                best
                            };
                            find_round_spec(frame, center, rad_half, b2, dm, (t - 1) as nat, s1)
                        }
                    },
                }
            },
        }
    }
}

/// The shrinking search with `depth_left` rounds remaining: each round
/// halves the radius and re-centers on the best near-miss.
pub open spec fn find_spec_rec(
    frame: Buffer,
    center: Complex,
    rad: int,
    depth_left: nat,
    s: DrawStream,
) -> (Option<Complex>, DrawStream)
    decreases depth_left,
{
    if depth_left == 0 {
        (None, s)
    } else {
        let rh = rad / 2;
        let r = find_round_spec(
            frame,
            center,
            rh,
            crate::orbit::czero(),
            0x7fff_ffff_ffff_ffff_ffff_ffff_ffff_ffffint,
            FIND_TRIES as nat,
            s,
        );
        match r.0 {
            Some(c) => (Some(c), r.3),
            None => find_spec_rec(frame, r.1, rh, (depth_left - 1) as nat, r.3),
        }
    }
}

/// The whole search as a function of the scripted draws.
pub open spec fn find_spec(frame: Buffer, start: Complex, rad0: int, s: DrawStream) -> (
    Option<Complex>,
    DrawStream,
) {
    find_spec_rec(frame, start, rad0, (FIND_DEPTH + 1) as nat, s)
}

/// The adaptive shrinking search for a seed with nonzero contribution:
/// draw candidates from a disk around the center; if one escapes with an
/// orbit point inside the frame, take it; otherwise re-center on the
/// candidate whose orbit came closest to the viewport origin, halve the
/// radius, and try again, up to the depth bound.
pub fn find_initial_sample(frame: &Buffer, start: Complex, rad0: i64, rng: &mut DrawStream,
    orbit: &mut Vec<Complex>) -> (res: Option<Complex>)
    requires
        frame.wf(),
        start.bounded(CMAX),
        0 <= rad0 <= 0x200_0000,
    ensures
        (res matches Some(c) ==> {
            &&& c.bounded(CMAX)
            &&& escape_of(c, WARMUP_LIMIT as nat) is Some
            &&& count_spec(*frame, orbit_of(c, orbit_len_of(c, WARMUP_LIMIT as nat))) > 0
        }),
        old(rng).is_fixed() ==> (res, *final(rng)) == find_spec(
            *frame,
            start,
            rad0 as int,
            *old(rng),
        ),
        old(rng).is_fixed() ==> final(rng).is_fixed(),
        (!old(rng).is_fixed() ==> (*final(rng)) is Live),
{
    let ghost stream0 = *rng;
    let mut center = start;
    let mut rad = rad0;
    let mut depth: u32 = 0;
    while depth <= FIND_DEPTH
        invariant
            center.bounded(CMAX),
            0 <= rad <= 0x200_0000,
            frame.wf(),
            start.bounded(CMAX),
            depth <= FIND_DEPTH + 1,
            old(rng).is_fixed() ==> rng.is_fixed(),
            (!old(rng).is_fixed() ==> (*rng) is Live),
            old(rng).is_fixed() ==> find_spec_rec(
                *frame,
                center,
                rad as int,
                (FIND_DEPTH + 1 - depth) as nat,
                *rng,
            ) == find_spec(*frame, start, rad0 as int, stream0),
            old(rng).is_fixed() ==> stream0 == *old(rng),
        decreases FIND_DEPTH + 1 - depth,
    {
        let mut best = Complex::zero();
        let mut closest: i128 = 0x7fff_ffff_ffff_ffff_ffff_ffff_ffff_ffffi128;
        let rad_half = crate::fixed::div_nn(rad, 2);
        let ghost round_stream = *rng;
        let mut t: u32 = 0;
        while t < FIND_TRIES
            invariant
                t <= FIND_TRIES,
                center.bounded(CMAX),
                0 <= rad_half <= 0x100_0000,
                best.bounded(CMAX),
                frame.wf(),
                start.bounded(CMAX),
                depth <= FIND_DEPTH,
                0 <= rad <= 0x200_0000,
                rad_half as int == (rad as int) / 2,
                old(rng).is_fixed() ==> rng.is_fixed(),
                (!old(rng).is_fixed() ==> (*rng) is Live),
                old(rng).is_fixed() ==> stream0 == *old(rng),
                old(rng).is_fixed() ==> find_spec_rec(
                    *frame,
                    center,
                    rad as int,
                    (FIND_DEPTH + 1 - depth) as nat,
                    round_stream,
                ) == find_spec(*frame, start, rad0 as int, stream0),
                old(rng).is_fixed() ==> find_round_spec(
                    *frame,
                    center,
                    rad_half as int,
                    best,
                    closest as int,
                    (FIND_TRIES - t) as nat,
                    *rng,
                ) == find_round_spec(
                    *frame,
                    center,
                    rad_half as int,
                    crate::orbit::czero(),
                    0x7fff_ffff_ffff_ffff_ffff_ffff_ffff_ffffint,
                    FIND_TRIES as nat,
                    round_stream,
                ),
            decreases FIND_TRIES - t,
        {
            let ghost iter_stream = *rng;
            let ghost best0 = best;
            let ghost closest0 = closest as int;
            match rand_complex(rng) {
                None => {},
                Some(c) => {
                    proof {
                        crate::orbit::lemma_nonescaped_bounded(c);
                    }
                    let scaled = c.scale_by(rad_half);
                    proof {
                        assert(-(0x200_0000int * 0x100_0000) <= (c.r as int) * (rad_half as int)
                            <= 0x200_0000int * 0x100_0000) by (nonlinear_arith)
                            requires
                                -0x200_0000 <= c.r <= 0x200_0000,
                                0 <= rad_half <= 0x100_0000,
                        ;
                        assert(-(0x200_0000int * 0x100_0000) <= (c.i as int) * (rad_half as int)
                            <= 0x200_0000int * 0x100_0000) by (nonlinear_arith)
                            requires
                                -0x200_0000 <= c.i <= 0x200_0000,
                                0 <= rad_half <= 0x100_0000,
                        ;
                        crate::fixed::lemma_div_trunc_scale_bound(
                            (c.r as int) * (rad_half as int),
                            0x200_0000int,
                        );
                        crate::fixed::lemma_div_trunc_scale_bound(
                            (c.i as int) * (rad_half as int),
                            0x200_0000int,
                        );
                    }
                    let cand = Complex {
                        r: crate::mutate::clamp_comp(scaled.r + center.r),
                        i: crate::mutate::clamp_comp(scaled.i + center.i),
                    };
                    proof {
                        assert(cand == search_cand(center, rad_half as int, c));
                    }
                    match evaluate_scan(cand, WARMUP_LIMIT, orbit) {
                        None => {},
                        Some(_) => {
                            proof {
                                lemma_count_spec_bounds(*frame, orbit@);
                            }
                            let cnt = count_in_frame(frame, orbit);
                            if cnt > 0 {
                                proof {
                                    if old(rng).is_fixed() {
                                        assert(find_round_spec(
                                            *frame,
                                            center,
                                            rad_half as int,
                                            best,
                                            closest as int,
                                            (FIND_TRIES - t) as nat,
                                            iter_stream,
                                        ) == (Some(cand), best, closest as int, *rng));
                                    }
                                }
                                return Some(cand);
                            }
                            let m = orbit.len();
                            proof {
                                assert(orbit@.skip(0) =~= orbit@);
                            }
                            let mut j: usize = 0;
                            while j < m
                                invariant
                                    j <= m,
                                    m == orbit@.len(),
                                    forall|q: int|
                                        0 <= q < orbit@.len() ==> (#[trigger] orbit@[q]).bounded(
                                            CMAX,
                                        ),
                                    frame.wf(),
                                    cand.bounded(CMAX),
                                    best.bounded(CMAX),
                                    best == if (closest as int) < closest0 {
                                        cand
                                    } else {
                                        best0
                                    },
                                    closest as int <= closest0,
                                    fold_min_dist(*frame, orbit@.skip(j as int), closest as int)
                                        == fold_min_dist(*frame, orbit@, closest0),
                                decreases m - j,
                            {
                                proof {
                                    assert(orbit@.skip(j as int).skip(1) =~= orbit@.skip(
                                        j as int + 1,
                                    ));
                                    assert(orbit@.skip(j as int)[0] == orbit@[j as int]);
                                }
                                let d = orbit[j].minus(frame.origin).norm2_raw();
                                proof {
                                    assert(d == dist2(*frame, orbit@[j as int]));
                                }
                                if d < closest {
                                    closest = d;
                                    best = cand;
                                }
                                j = j + 1;
                            }
                            proof {
                                assert(orbit@.skip(m as int) =~= Seq::<Complex>::empty());
                                assert(closest as int == fold_min_dist(*frame, orbit@, closest0));
                            }
                        },
                    }
                },
            }
            t = t + 1;
        }
        center = best;
        rad = rad_half;
        depth = depth + 1;
    }
    None
}

/// What the locator leaves in a slot: either the zero-seed, zero-count
/// fallback (the search exhausted its depth bound; such a chain never
/// accepts a proposal under Metropolis sampling, so it is effectively
/// skipped), or a seed whose contribution was computed from its own orbit
/// and is positive.
pub open spec fn initial_sample_ok(frame: Buffer, s: Sample) -> bool {
    ||| (s.seed == crate::orbit::czero() && s.count == 0)
    ||| sample_consistent(frame, s, WARMUP_LIMIT as nat)
}

/// One locator outcome as a chain sub-state: the found seed with its
/// contribution, or the zero fallback.
pub open spec fn initial_sample_spec(frame: Buffer, s: DrawStream) -> (Sample, DrawStream) {
    let r = find_spec(frame, crate::orbit::czero(), 0x200_0000, s);
    match r.0 {
        Some(point) => (
            Sample {
                seed: point,
                count: count_spec(
                    frame,
                    orbit_of(point, orbit_len_of(point, WARMUP_LIMIT as nat)),
                ) as u32,
                limit: WARMUP_LIMIT,
            },
            r.1,
        ),
        None => (Sample { seed: crate::orbit::czero(), count: 0, limit: WARMUP_LIMIT }, r.1),
    }
}

/// `k` locator outcomes in a row.
pub open spec fn build_spec(frame: Buffer, k: nat, s: DrawStream) -> (Seq<Sample>, DrawStream)
    decreases k,
{
    if k == 0 {
        (Seq::empty(), s)
    } else {
        let r = initial_sample_spec(frame, s);
        let rest = build_spec(frame, (k - 1) as nat, r.1);
        (seq![r.0] + rest.0, rest.1)
    }
}

/// Build the initial chain state: one sub-state per channel per slot, each
/// seeded by the shrinking search and evaluated at the search cap.  A slot
/// whose search fails keeps the zero seed with zero contribution (such a
/// chain never accepts a proposal under Metropolis sampling, so it is
/// effectively skipped).
pub fn build_initial_samples(frame: &Buffer, n_slots: u32, rng: &mut DrawStream) -> (chains: Vec<
    Sample>)
    requires
        frame.wf(),
        n_slots <= 0x10_0000,
    ensures
        chains_wf(chains@),
        chains@.len() == (n_slots as int) * (CHANNELS as int),
        forall|k: int| 0 <= k < chains@.len() ==> (#[trigger] chains@[k]).limit == WARMUP_LIMIT,
        forall|k: int| 0 <= k < chains@.len() ==> initial_sample_ok(*frame, #[trigger] chains@[k]),
        old(rng).is_fixed() ==> (chains@, *final(rng)) == build_spec(
            *frame,
            (3 * n_slots) as nat,
            *old(rng),
        ),
        old(rng).is_fixed() ==> final(rng).is_fixed(),
        (!old(rng).is_fixed() ==> (*final(rng)) is Live),
{
    let ghost stream0 = *rng;
    let mut chains: Vec<Sample> = Vec::new();
    let mut orbit: Vec<Complex> = Vec::new();
    let total: u32 = 3 * n_slots;
    let mut idx: u32 = 0;
    while idx < total
        invariant
            idx <= total,
            total == 3 * n_slots,
            n_slots <= 0x10_0000,
            chains@.len() == idx,
            chains_wf(chains@),
            forall|q: int| 0 <= q < chains@.len() ==> (#[trigger] chains@[q]).limit
                == WARMUP_LIMIT,
            forall|q: int|
                0 <= q < chains@.len() ==> initial_sample_ok(*frame, #[trigger] chains@[q]),
            frame.wf(),
            old(rng).is_fixed() ==> rng.is_fixed(),
            (!old(rng).is_fixed() ==> (*rng) is Live),
            old(rng).is_fixed() ==> stream0 == *old(rng),
            old(rng).is_fixed() ==> build_spec(*frame, total as nat, stream0) == (
                chains@ + build_spec(*frame, (total - idx) as nat, *rng).0,
                build_spec(*frame, (total - idx) as nat, *rng).1,
            ),
        decreases total - idx,
    {
        let ghost pre_stream = *rng;
        let zero = Complex::zero();
        let found = find_initial_sample(frame, zero, 0x200_0000, rng, &mut orbit);
        proof {
            if old(rng).is_fixed() {
                assert(zero == crate::orbit::czero());
                assert((found, *rng) == find_spec(*frame, zero, 0x200_0000int, pre_stream));
            }
        }
        let sample = match found {
            Some(point) => {
                let _ = evaluate_scan(point, WARMUP_LIMIT, &mut orbit);
                proof {
                    lemma_count_spec_bounds(*frame, orbit@);
                }
                let count = count_in_frame(frame, &orbit);
                Sample { seed: point, count, limit: WARMUP_LIMIT }
            },
            None => Sample { seed: zero, count: 0, limit: WARMUP_LIMIT },
        };
        proof {
            if old(rng).is_fixed() {
                assert((sample, *rng) == initial_sample_spec(*frame, pre_stream));
                let rest = build_spec(*frame, (total - idx - 1) as nat, *rng);
                assert(build_spec(*frame, (total - idx) as nat, pre_stream) == (
                    seq![sample] + rest.0,
                    rest.1,
                ));
                assert(chains@.push(sample) + rest.0 =~= chains@ + (seq![sample] + rest.0));
            }
        }
        chains.push(sample);
        idx = idx + 1;
    }
    proof {
        assert((n_slots as int) * (CHANNELS as int) == 3 * n_slots) by (nonlinear_arith)
            requires
                CHANNELS == 3,
        ;
        assert(chains@ + build_spec(*frame, 0, *rng).0 =~= chains@);
    }
    chains
}

/// The chain state used when Metropolis sampling is off: a single slot with
/// the zero seed and zero contribution per channel.
pub fn default_chains(cfg: &crate::config::Config) -> (chains: Vec<Sample>)
    requires
        cfg.wf(),
    ensures
        chains_wf(chains@),
        chains@.len() == CHANNELS,
        forall|k: int|
            0 <= k < CHANNELS ==> #[trigger] chains@[k] == (Sample {
                seed: crate::orbit::czero(),
                count: 0,
                limit: cfg.limits@[k],
            }),
{
    let mut chains: Vec<Sample> = Vec::new();
    let mut ch: usize = 0;
    while ch < CHANNELS
        invariant
            ch <= CHANNELS,
            chains@.len() == ch,
            chains_wf(chains@),
            cfg.wf(),
            forall|k: int|
                0 <= k < ch ==> #[trigger] chains@[k] == (Sample {
                    seed: crate::orbit::czero(),
                    count: 0,
                    limit: cfg.limits@[k],
                }),
        decreases CHANNELS - ch,
    {
        chains.push(Sample { seed: Complex { r: 0, i: 0 }, count: 0, limit: cfg.limits[ch] });
        ch = ch + 1;
    }
    chains
}

} // verus!
