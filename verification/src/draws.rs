//! The source of random draws.  Every random decision of the sampler flows
//! through a `DrawStream`: either the thread-local generator, or a scripted
//! sequence of 64-bit values, which makes a whole sampling run a pure
//! function of its draws (and therefore replayable).

use vstd::prelude::*;
use crate::complex::{Complex, CMAX};

verus! {

/// Attempts the bounded-domain rejection sampler makes before giving up.
pub const DRAW_TRIES: u32 = 64;

/// A source of 64-bit draws.
pub enum DrawStream {
    /// A scripted sequence, consumed from `pos` on; dry once `pos` reaches
    /// the end.
    Fixed { draws: Vec<u64>, pos: usize },
    /// The thread-local random generator.
    Live,
}

/// Relies on rand::random::<u64>: one value from the thread-local generator.
/// Nothing is promised of it.
#[verifier::external_body]
fn draw_entropy() -> u64 {
    rand::random::<u64>()
}

/// What `DrawStream::next` returns and leaves behind, for a scripted stream.
pub open spec fn stream_next(s: DrawStream) -> (Option<u64>, DrawStream) {
    match s {
        DrawStream::Fixed { draws, pos } => {
            if pos < draws@.len() {
                (Some(draws@[pos as int]), DrawStream::Fixed { draws, pos: (pos + 1) as usize })
            } else {
                (None, s)
            }
        },
        DrawStream::Live => (None, s),
    }
}

impl DrawStream {
    pub open spec fn is_fixed(self) -> bool {
        self is Fixed
    }

    pub open spec fn fixed_draws(self) -> Seq<u64> {
        match self {
            DrawStream::Fixed { draws, pos } => draws@,
            DrawStream::Live => Seq::empty(),
        }
    }

    pub open spec fn fixed_pos(self) -> int {
        match self {
            DrawStream::Fixed { draws, pos } => pos as int,
            DrawStream::Live => 0,
        }
    }

    /// Remaining scripted draws; zero for the live stream.
    pub open spec fn remaining(self) -> int {
        self.fixed_draws().len() - self.fixed_pos()
    }

    /// The next draw: None only when a scripted stream has run dry.
    pub fn next(&mut self) -> (r: Option<u64>)
        ensures
            old(self).is_fixed() ==> (r, *final(self)) == stream_next(*old(self)),
            old(self).is_fixed() ==> final(self).is_fixed(),
            !old(self).is_fixed() ==> (*final(self) == *old(self) && r is Some),
    {
        match self {
            DrawStream::Fixed { draws, pos } => {
                if *pos < draws.len() {
                    let v = draws[*pos];
                    *pos = *pos + 1;
                    Some(v)
                } else {
                    None
                }
            },
            DrawStream::Live => Some(draw_entropy()),
        }
    }
}

/// Map a draw to a Q24 coordinate in [-2, 2].
pub open spec fn cand_comp_spec(u: u64) -> i64 {
    (((u as int) % 0x400_0001) - 0x200_0000) as i64
}

/// The bounded-domain sampler: up to `k` candidates are drawn uniformly from
/// the square [-2, 2] x [-2, 2]; the first one inside the bailout radius is
/// the result.
pub open spec fn rand_complex_rec(s: DrawStream, k: nat) -> (Option<Complex>, DrawStream)
    decreases k,
{
    if k == 0 {
        (None, s)
    } else {
        let (o1, s1) = stream_next(s);
        match o1 {
            None => (None, s1),
            Some(u1) => {
                let (o2, s2) = stream_next(s1);
                match o2 {
                    None => (None, s2),
                    Some(u2) => {
                        let c = Complex { r: cand_comp_spec(u1), i: cand_comp_spec(u2) };
                        if !c.escaped_spec() {
                            (Some(c), s2)
                        } else {
                            rand_complex_rec(s2, (k - 1) as nat)
                        }
                    },
                }
            },
        }
    }
}

pub open spec fn rand_complex_spec(s: DrawStream) -> (Option<Complex>, DrawStream) {
    rand_complex_rec(s, DRAW_TRIES as nat)
}

/// Map a draw to a Q24 coordinate in [-2, 2] (executable form).
fn cand_comp(u: u64) -> (v: i64)
    ensures
        v == cand_comp_spec(u),
        -0x200_0000 <= v <= 0x200_0000,
{
    ((u % 0x400_0001u64) as i64) - 0x200_0000i64
}

/// Draw a seed uniformly from the bounded sampling domain: points of the
/// square [-2, 2] x [-2, 2] are drawn until one lies inside the bailout
/// radius.  None only if the stream runs dry (or, with probability about
/// 2^-143, after 64 straight rejections).
pub fn rand_complex(rng: &mut DrawStream) -> (res: Option<Complex>)
    ensures
        old(rng).is_fixed() ==> (res, *final(rng)) == rand_complex_spec(*old(rng)),
        old(rng).is_fixed() ==> final(rng).is_fixed(),
        (!old(rng).is_fixed() ==> (*final(rng)) is Live),
        (res matches Some(c) ==> c.bounded(CMAX) && !c.escaped_spec()),
{
    rand_complex_go(rng, DRAW_TRIES)
}

fn rand_complex_go(rng: &mut DrawStream, k: u32) -> (res: Option<Complex>)
    ensures
        old(rng).is_fixed() ==> (res, *final(rng)) == rand_complex_rec(*old(rng), k as nat),
        old(rng).is_fixed() ==> final(rng).is_fixed(),
        (!old(rng).is_fixed() ==> (*final(rng)) is Live),
        (res matches Some(c) ==> c.bounded(CMAX) && !c.escaped_spec()),
    decreases k,
{
    if k == 0 {
        return None;
    }
    match rng.next() {
        None => None,
        Some(u1) => {
            match rng.next() {
                None => None,
                Some(u2) => {
                    let c = Complex { r: cand_comp(u1), i: cand_comp(u2) };
                    if !c.escaped() {
                        Some(c)
                    } else {
                        rand_complex_go(rng, k - 1)
                    }
                },
            }
        },
    }
}

} // verus!