//! Typed builder for kernel launches.
//!
//! Every argument is kept as a `u64`: on the little-endian machines that kernels
//! run on, the low bytes of each word are the argument itself.

use vstd::prelude::*;

use crate::gpu::{DevicePtr, F32Bits, GpuError, KernelHandle};
use crate::trace::{done, lemma_ran_one, ran, refusal, Cmd, GpuBackend};

verus! {

/// A kernel launch under construction: geometry, shared memory and arguments.
pub struct KernelLaunch<'a, G: GpuBackend> {
    pub gpu: &'a mut G,
    pub kernel: KernelHandle,
    pub grid: [u32; 3],
    pub block: [u32; 3],
    pub shared_mem: u32,
    /// The argument words, in the order in which they were added.
    pub storage: Vec<u64>,
}

/// The word that holds the 32 bits of `v`, the upper half clear.
pub open spec fn i32_word(v: i32) -> u64 {
    if v >= 0 {
        v as u64
    } else {
        (v + 0x1_0000_0000) as u64
    }
}

impl<'a, G: GpuBackend> KernelLaunch<'a, G> {
    /// A launch of `kernel` with one thread in one block and no arguments.
    pub fn new(gpu: &'a mut G, kernel: KernelHandle) -> (r: Self)
        ensures
            *r.gpu == *old(gpu),
            *final(gpu) == *final(r.gpu),
            r.kernel == kernel,
            r.grid@ == seq![1u32, 1u32, 1u32],
            r.block@ == seq![1u32, 1u32, 1u32],
            r.shared_mem == 0,
            r.storage@ == Seq::<u64>::empty(),
    {
        KernelLaunch {
            gpu,
            kernel,
            grid: [1, 1, 1],
            block: [1, 1, 1],
            shared_mem: 0,
            storage: Vec::with_capacity(16),
        }
    }

    pub fn grid(self, grid: [u32; 3]) -> (r: Self)
        ensures
            r == (KernelLaunch { grid, ..self }),
    {
        let mut s = self;
        s.grid = grid;
        s
    }

    pub fn block(self, block: [u32; 3]) -> (r: Self)
        ensures
            r == (KernelLaunch { block, ..self }),
    {
        let mut s = self;
        s.block = block;
        s
    }

    pub fn shared_mem(self, bytes: u32) -> (r: Self)
        ensures
            r == (KernelLaunch { shared_mem: bytes, ..self }),
    {
        let mut s = self;
        s.shared_mem = bytes;
        s
    }

    /// `r` is `self` with one more argument word.
    pub open spec fn added(self, r: Self, word: u64) -> bool {
        &&& r == (KernelLaunch { storage: r.storage, ..self })
        &&& r.storage@ == self.storage@.push(word)
    }

    /// Adds a device address.
    pub fn arg_ptr(self, p: DevicePtr) -> (r: Self)
        ensures
            self.added(r, p.0),
    {
        let mut s = self;
        s.storage.push(p.0);
        s
    }

    /// Adds a `u32`.
    pub fn arg_u32(self, v: u32) -> (r: Self)
        ensures
            self.added(r, v as u64),
    {
        let mut s = self;
        s.storage.push(v as u64);
        s
    }

    /// Adds a `u64`.
    pub fn arg_u64(self, v: u64) -> (r: Self)
        ensures
            self.added(r, v),
    {
        let mut s = self;
        s.storage.push(v);
        s
    }

    /// Adds an `i32`: its 32 bits in the low half of the word.
    pub fn arg_i32(self, v: i32) -> (r: Self)
        ensures
            self.added(r, i32_word(v)),
    {
        let mut s = self;
        let word: u32 = v as u32;
        assert(v >= 0 ==> word == v) by {
            assert(v >= 0i32 ==> (v as u32) == v) by (bit_vector);
        }
        assert(v < 0 ==> word == v + 0x1_0000_0000) by {
            assert(v < 0i32 ==> (v as u32) == v + 0x1_0000_0000) by (bit_vector);
        }
        s.storage.push(word as u64);
        s
    }

    /// Adds a single-precision value, by its bits.
    pub fn arg_f32(self, v: F32Bits) -> (r: Self)
        ensures
            self.added(r, v.0 as u64),
    {
        let mut s = self;
        s.storage.push(v.0 as u64);
        s
    }

    /// Launches the kernel with the arguments in the order they were added.
    pub fn launch(self, stream: u64) -> (r: Result<(), GpuError>)
        ensures
            ran(
                (*old(self.gpu)).trace(),
                seq![
                    done(
                        Cmd::Launch {
                            kernel: self.kernel,
                            grid: self.grid@,
                            block: self.block@,
                            shared_mem: self.shared_mem,
                            stream,
                            params: self.storage@,
                        },
                    ),
                ],
                (*final(self.gpu)).trace(),
                refusal(r),
            ),
    {
        let gpu = self.gpu;
        let ghost pre = gpu.trace();
        let r = gpu.launch(self.kernel, self.grid, self.block, self.shared_mem, stream, &self.storage);
        proof {
            lemma_ran_one(
                pre,
                done(
                    Cmd::Launch {
                        kernel: self.kernel,
                        grid: self.grid@,
                        block: self.block@,
                        shared_mem: self.shared_mem,
                        stream,
                        params: self.storage@,
                    },
                ),
                gpu.trace(),
                refusal(r),
            );
        }
        r
    }
}

/// The command of a launch.
pub open spec fn launch_cmd(
    kernel: KernelHandle,
    grid: (u32, u32, u32),
    block: (u32, u32, u32),
    shared_mem: u32,
    stream: u64,
    params: Seq<u64>,
) -> Cmd {
    Cmd::Launch {
        kernel,
        grid: seq![grid.0, grid.1, grid.2],
        block: seq![block.0, block.1, block.2],
        shared_mem,
        stream,
        params,
    }
}

/// `a` divided by `b`, rounded up.
pub open spec fn ceil_div(a: int, b: int) -> int
    recommends
        b > 0,
{
    if a % b == 0 {
        a / b
    } else {
        a / b + 1
    }
}

/// Divides and rounds up.
pub fn div_ceil(a: u32, b: u32) -> (r: u32)
    requires
        b != 0,
    ensures
        r == ceil_div(a as int, b as int),
{
    let q: u32 = a / b;
    if a % b == 0 {
        q
    } else {
        assert(q < a) by (nonlinear_arith)
            requires
                b != 0,
                q == a / b,
                a % b != 0,
        ;
        q + 1
    }
}

/// `r` is the least number whose multiple by `b` is not below `a`.
pub proof fn div_ceil_is_least(a: u32, b: u32)
    requires
        b != 0,
    ensures
        ceil_div(a as int, b as int) * b >= a,
        forall|q: int| 0 <= q < ceil_div(a as int, b as int) ==> #[trigger] (q * b) < a,
{
    let (x, y) = (a as int, b as int);
    assert(x == y * (x / y) + x % y && 0 <= x % y < y) by (nonlinear_arith)
        requires
            y > 0,
    ;
    assert(ceil_div(x, y) * y >= x) by (nonlinear_arith)
        requires
            x == y * (x / y) + x % y,
            0 <= x % y < y,
            y > 0,
            ceil_div(x, y) == (if x % y == 0 { x / y } else { x / y + 1 }),
    ;
    assert forall|q: int| 0 <= q < ceil_div(x, y) implies #[trigger] (q * b) < a by {
        assert(q * y < x) by (nonlinear_arith)
            requires
                x == y * (x / y) + x % y,
                0 <= x % y < y,
                y > 0,
                0 <= q < ceil_div(x, y),
                ceil_div(x, y) == (if x % y == 0 { x / y } else { x / y + 1 }),
        ;
    }
}

/// The command of a Walsh-Hadamard transform: one block of 32 threads per head.
pub open spec fn wht_cmd(kernel: KernelHandle, data: DevicePtr, heads: u32, head_dim: u32, stream: u64) -> Cmd {
    launch_cmd(kernel, (heads, 1, 1), (32, 1, 1), 0, stream, seq![data.0, head_dim as u64])
}

/// Applies the Walsh-Hadamard transform to `heads` heads of `data` in place.
pub fn wht<G: GpuBackend>(
    gpu: &mut G,
    kernel: KernelHandle,
    data: DevicePtr,
    heads: u32,
    head_dim: u32,
    stream: u64,
) -> (r: Result<(), GpuError>)
    ensures
        ran(
            old(gpu).trace(),
            seq![done(wht_cmd(kernel, data, heads, head_dim, stream))],
            final(gpu).trace(),
            refusal(r),
        ),
{
    let l = KernelLaunch::new(gpu, kernel).grid([heads, 1, 1]).block([32, 1, 1]).arg_ptr(
        data,
    ).arg_u32(head_dim);
    assert(l.storage@ =~= seq![data.0, head_dim as u64]);
    assert(l.grid@ =~= seq![heads, 1, 1]);
    assert(l.block@ =~= seq![32u32, 1, 1]);
    l.launch(stream)
}

} // verus!
