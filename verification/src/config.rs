//! The run configuration: per-channel iteration caps, canvas and window
//! dimensions, batch size, thread count, warm-up size, viewport, and output
//! options, with the bounds the verified core relies on.

use vstd::prelude::*;
use crate::accept::LIMIT_MAX;
use crate::buffer::{CHANNELS, DIM_MAX, ZOOM_MIN, ZOOM_MAX};
use crate::complex::{Complex, CMAX};

verus! {

/// Cap on the thread count taken from the machine.
pub const THREADS_MAX: u32 = 4096;

#[derive(Clone)]
pub struct Config {
    pub use_metropolis: bool,
    pub limits: Vec<u32>,
    pub width: u32,
    pub height: u32,
    pub window_width: u32,
    pub window_height: u32,
    pub batch_steps: u32,
    pub n_threads: u32,
    pub warmup_count: u32,
    pub max_batches: Option<u32>,
    pub origin: Complex,
    pub zoom: i64,
    pub fname: Option<String>,
    pub save_raw: bool,
}

impl Config {
    pub open spec fn wf(self) -> bool {
        &&& self.limits@.len() == CHANNELS
        &&& (forall|k: int| 0 <= k < CHANNELS ==> 1 <= #[trigger] self.limits@[k] <= LIMIT_MAX)
        &&& 1 <= self.width <= DIM_MAX
        &&& 1 <= self.height <= DIM_MAX
        &&& 1 <= self.window_width <= self.width
        &&& 1 <= self.window_height <= self.height
        &&& 1 <= self.batch_steps
        &&& 1 <= self.n_threads
        &&& self.warmup_count <= LIMIT_MAX
        &&& ZOOM_MIN <= self.zoom <= ZOOM_MAX
        &&& self.origin.bounded(CMAX)
    }
}

/// The bounds `validated` enforces, over the raw field values.
pub open spec fn fields_ok(
    limits: Seq<u32>,
    width: u32,
    height: u32,
    window_width: u32,
    window_height: u32,
    batch_steps: u32,
    n_threads: u32,
    warmup_count: u32,
    origin: Complex,
    zoom: i64,
) -> bool {
    &&& limits.len() == CHANNELS
    &&& (forall|k: int| 0 <= k < CHANNELS ==> 1 <= #[trigger] limits[k] <= LIMIT_MAX)
    &&& 1 <= width <= DIM_MAX
    &&& 1 <= height <= DIM_MAX
    &&& 1 <= window_width <= width
    &&& 1 <= window_height <= height
    &&& 1 <= batch_steps
    &&& 1 <= n_threads
    &&& warmup_count <= LIMIT_MAX
    &&& ZOOM_MIN <= zoom <= ZOOM_MAX
    &&& origin.bounded(CMAX)
}

impl Config {
    /// Build a configuration, accepting it exactly when every field is
    /// within the bounds the sampler relies on.
    pub fn validated(
        use_metropolis: bool,
        limits: Vec<u32>,
        width: u32,
        height: u32,
        window_width: u32,
        window_height: u32,
        batch_steps: u32,
        n_threads: u32,
        warmup_count: u32,
        max_batches: Option<u32>,
        origin: Complex,
        zoom: i64,
        fname: Option<String>,
        save_raw: bool,
    ) -> (r: Option<Config>)
        ensures
            (r is Some) <==> fields_ok(
                limits@,
                width,
                height,
                window_width,
                window_height,
                batch_steps,
                n_threads,
                warmup_count,
                origin,
                zoom,
            ),
            (r matches Some(c) ==> {
                &&& c.wf()
                &&& c.use_metropolis == use_metropolis
                &&& c.limits@ == limits@
                &&& c.width == width
                &&& c.height == height
                &&& c.window_width == window_width
                &&& c.window_height == window_height
                &&& c.batch_steps == batch_steps
                &&& c.n_threads == n_threads
                &&& c.warmup_count == warmup_count
                &&& c.max_batches == max_batches
                &&& c.origin == origin
                &&& c.zoom == zoom
                &&& c.save_raw == save_raw
            }),
    {
        if limits.len() != CHANNELS {
            return None;
        }
        let mut k: usize = 0;
        while k < CHANNELS
            invariant
                k <= CHANNELS,
                limits@.len() == CHANNELS,
                forall|j: int| 0 <= j < k ==> 1 <= #[trigger] limits@[j] <= LIMIT_MAX,
            decreases CHANNELS - k,
        {
            if limits[k] < 1 || limits[k] > LIMIT_MAX {
                return None;
            }
            k = k + 1;
        }
        if width < 1 || width > DIM_MAX || height < 1 || height > DIM_MAX {
            return None;
        }
        if window_width < 1 || window_width > width || window_height < 1 || window_height
            > height {
            return None;
        }
        if batch_steps < 1 || n_threads < 1 || warmup_count > LIMIT_MAX {
            return None;
        }
        if zoom < ZOOM_MIN || zoom > ZOOM_MAX {
            return None;
        }
        if origin.r < -CMAX || origin.r > CMAX || origin.i < -CMAX || origin.i > CMAX {
            return None;
        }
        Some(
            Config {
                use_metropolis,
                limits,
                width,
                height,
                window_width,
                window_height,
                batch_steps,
                n_threads,
                warmup_count,
                max_batches,
                origin,
                zoom,
                fname,
                save_raw,
            },
        )
    }

    /// The built-in defaults: three channels capped at 50000/5000/500, a
    /// 512 x 512 canvas centered at -0.4 + 0i with zoom 0.35, and one
    /// worker per CPU.
    pub fn default_params() -> (c: Config)
        ensures
            c.wf(),
            c.use_metropolis == true,
            c.limits@ == seq![50000u32, 5000u32, 500u32],
            c.width == 512 && c.height == 512,
            c.window_width == 512 && c.window_height == 512,
            c.batch_steps == 5000,
            c.warmup_count == 10,
            c.max_batches is None,
            c.origin.r == -6710886 && c.origin.i == 0,
            c.zoom == 5872025,
            c.fname is None,
            c.save_raw == false,
    {
        let mut limits: Vec<u32> = Vec::new();
        limits.push(50000);
        limits.push(5000);
        limits.push(500);
        proof {
            assert(limits@ =~= seq![50000u32, 5000u32, 500u32]);
        }
        let cpus = cpu_count();
        let n_threads: u32 = if cpus >= THREADS_MAX as usize {
            THREADS_MAX
        } else {
            cpus as u32
        };
        Config {
            use_metropolis: true,
            limits,
            width: 512,
            height: 512,
            window_width: 512,
            window_height: 512,
            batch_steps: 5000,
            n_threads,
            warmup_count: 10,
            max_batches: None,
            origin: Complex { r: -6710886, i: 0 },
            zoom: 5872025,
            fname: None,
            save_raw: false,
        }
    }
}

/// Relies on num_cpus::get: the number of logical CPUs of this machine,
/// which its documentation promises to be at least 1.
#[verifier::external_body]
fn cpu_count() -> (n: usize)
    ensures
        n >= 1,
{
    num_cpus::get()
}

} // verus!
