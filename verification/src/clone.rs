//! The process-isolation backend's workload kernels and configuration.
//!
//! Spawning the isolated process and waiting on it is operating-system work
//! that stays with the embedding application; what belongs to the library is
//! the choice of workload, the normalization of the isolation options, and
//! the workloads themselves, each with its closed-form result.

use vstd::prelude::*;

verus! {

broadcast use vstd::arithmetic::mul::group_mul_basics;

/// Which workload the isolated process runs.
#[derive(Debug, Copy, Clone, PartialEq, Eq, Structural)]
pub enum CloneBenchmarkType {
    /// Add two integers.
    Add,
    /// Add two 4096-element vectors.
    AddVec,
    /// Combine two 64x64 matrices.
    MatMul64,
    /// Combine two 128x128 matrices.
    MatMul128,
}

/// The isolation options of one process-isolation benchmark, normalized.
#[derive(Debug, Copy, Clone, PartialEq, Eq, Structural)]
pub struct CloneConfig {
    pub benchmark: CloneBenchmarkType,
    /// Whether the child enters fresh namespaces.
    pub set_flags: bool,
    /// Whether the child re-roots its environment before the workload.
    pub chenv: bool,
    /// Whether the newer spawn interface is used.
    pub clone3: bool,
    /// Whether the child is placed into a fresh control group; only the
    /// newer spawn interface can do so.
    pub clone_into_cgroup: bool,
}

impl CloneConfig {
    /// Normalize the requested options: placement into a control group is
    /// only honored together with the newer spawn interface.
    pub fn new(
        benchmark: CloneBenchmarkType,
        set_flags: bool,
        chenv: bool,
        clone3: bool,
        clone_into_cgroup: bool,
    ) -> (c: CloneConfig)
        ensures
            c.benchmark == benchmark,
            c.set_flags == set_flags,
            c.chenv == chenv,
            c.clone3 == clone3,
            c.clone_into_cgroup == (clone3 && clone_into_cgroup),
    {
        CloneConfig { benchmark, set_flags, chenv, clone3, clone_into_cgroup: clone3
            && clone_into_cgroup }
    }
}

/// Add two integers: the smallest workload.
pub fn add_workload(x: u32, y: u32) -> (r: u32)
    requires
        x + y <= u32::MAX,
    ensures
        r == x + y,
{
    x + y
}

/// Fill one 4096-element vector with `x`, one with `y`, add them
/// elementwise, and report the first element of the sum.
pub fn addvec(x: u32, y: u32) -> (r: u32)
    requires
        x + y <= u32::MAX,
    ensures
        r == x + y,
{
    let mut memory: Vec<u32> = Vec::new();
    let mut i: usize = 0;
    while i < 12288
        invariant
            i <= 12288,
            memory@.len() == i,
            forall|k: int| 0 <= k < i ==> memory@[k] == 0u32,
        decreases 12288 - i,
    {
        memory.push(0);
        i = i + 1;
    }
    let mut j: usize = 0;
    while j < 4096
        invariant
            j <= 4096,
            memory@.len() == 12288,
            forall|k: int| 0 <= k < j ==> memory@[k] == x,
            forall|k: int| j <= k < 12288 ==> memory@[k] == 0u32,
        decreases 4096 - j,
    {
        memory[j] = x;
        j = j + 1;
    }
    let mut j2: usize = 0;
    while j2 < 4096
        invariant
            j2 <= 4096,
            memory@.len() == 12288,
            forall|k: int| 0 <= k < 4096 ==> memory@[k] == x,
            forall|k: int| 4096 <= k < 4096 + j2 ==> memory@[k] == y,
            forall|k: int| 4096 + j2 <= k < 12288 ==> memory@[k] == 0u32,
        decreases 4096 - j2,
    {
        memory[4096 + j2] = y;
        j2 = j2 + 1;
    }
    let mut j3: usize = 0;
    while j3 < 4096
        invariant
            j3 <= 4096,
            memory@.len() == 12288,
            x + y <= u32::MAX,
            forall|k: int| 0 <= k < 4096 ==> memory@[k] == x,
            forall|k: int| 4096 <= k < 8192 ==> memory@[k] == y,
            forall|k: int| 8192 <= k < 8192 + j3 ==> memory@[k] == x + y,
        decreases 4096 - j3,
    {
        let s: u32 = memory[j3] + memory[4096 + j3];
        memory[8192 + j3] = s;
        j3 = j3 + 1;
    }
    memory[8192]
}

/// What one cell of the combined matrix holds: each of the `dim` terms adds
/// one entry of each operand matrix, and every entry is the fill value.
pub open spec fn matmul_cell(dim: int, lhs: int, rhs: int) -> int {
    dim * (lhs + rhs)
}

/// Fill a `dim` by `dim` matrix with `lhs` and another with `rhs`, combine
/// them cell by cell, and sum the result.  Every cell of the combination
/// holds `dim * (lhs + rhs)`, so the total is `dim * dim` times that.
pub fn matmul(lhs: u32, rhs: u32, dim: usize) -> (r: u32)
    requires
        1 <= dim <= 128,
        dim * dim * (dim * ((lhs + rhs) as int)) <= 0x7fff_ffff,
    ensures
        r as int == dim * dim * matmul_cell(dim as int, lhs as int, rhs as int),
{
    let ghost cell = matmul_cell(dim as int, lhs as int, rhs as int);
    proof {
        lemma_matmul_bounds(dim as int, lhs as int, rhs as int);
    }
    let mut total: u64 = 0;
    let mut y: usize = 0;
    while y < dim
        invariant
            y <= dim,
            1 <= dim <= 128,
            cell == matmul_cell(dim as int, lhs as int, rhs as int),
            dim * dim * cell <= 0x7fff_ffff,
            0 <= cell <= 0x7fff_ffff,
            lhs + rhs <= 0x7fff_ffff,
            total == y * dim * cell,
            total <= 0x7fff_ffff,
        decreases dim - y,
    {
        let mut x: usize = 0;
        while x < dim
            invariant
                x <= dim,
                y < dim,
                1 <= dim <= 128,
                cell == matmul_cell(dim as int, lhs as int, rhs as int),
                dim * dim * cell <= 0x7fff_ffff,
                0 <= cell <= 0x7fff_ffff,
                lhs + rhs <= 0x7fff_ffff,
                total == (y * dim + x) * cell,
                total <= 0x7fff_ffff,
            decreases dim - x,
        {
            let mut sum: u64 = 0;
            let mut i: usize = 0;
            while i < dim
                invariant
                    i <= dim,
                    dim <= 128,
                    lhs + rhs <= 0x7fff_ffff,
                    sum == i * ((lhs + rhs) as int),
                    sum <= i * 0x2_0000_0000,
                decreases dim - i,
            {
                proof {
                    lemma_partial_sum_step(i as int, lhs as int + rhs as int, dim as int);
                }
                sum = sum + (lhs as u64) + (rhs as u64);
                i = i + 1;
            }
            proof {
                lemma_total_step(y as int, x as int, dim as int, cell);
            }
            total = total + sum;
            x = x + 1;
        }
        proof {
            assert((y + 1) * dim as int * cell == (y * dim + dim) * cell) by (nonlinear_arith);
        }
        y = y + 1;
    }
    proof {
        assert(dim * dim as int * cell == (dim * dim) as int * cell) by (nonlinear_arith);
    }
    total as u32
}

proof fn lemma_matmul_bounds(dim: int, lhs: int, rhs: int)
    requires
        1 <= dim <= 128,
        0 <= lhs,
        0 <= rhs,
        dim * dim * (dim * (lhs + rhs)) <= 0x7fff_ffff,
    ensures
        0 <= matmul_cell(dim, lhs, rhs) <= 0x7fff_ffff,
        dim * dim * matmul_cell(dim, lhs, rhs) <= 0x7fff_ffff,
        lhs + rhs <= 0x7fff_ffff,
{
    assert(0 <= dim * (lhs + rhs)) by (nonlinear_arith)
        requires
            dim >= 1,
            lhs + rhs >= 0,
    ;
    assert(dim * (lhs + rhs) <= dim * dim * (dim * (lhs + rhs))) by (nonlinear_arith)
        requires
            dim >= 1,
            dim * (lhs + rhs) >= 0,
    ;
    assert(lhs + rhs <= dim * (lhs + rhs)) by (nonlinear_arith)
        requires
            dim >= 1,
            lhs + rhs >= 0,
    ;
    assert(dim * dim * (dim * (lhs + rhs)) == dim * dim * matmul_cell(dim, lhs, rhs));
}

proof fn lemma_partial_sum_step(i: int, s: int, dim: int)
    requires
        0 <= i < dim,
        dim <= 128,
        0 <= s <= 0x2_0000_0000,
        i * s <= i * 0x2_0000_0000,
    ensures
        (i + 1) * s == i * s + s,
        (i + 1) * s <= (i + 1) * 0x2_0000_0000,
        i * 0x2_0000_0000 + 0x2_0000_0000 == (i + 1) * 0x2_0000_0000,
{
    assert((i + 1) * s == i * s + s) by (nonlinear_arith);
    assert((i + 1) * s <= (i + 1) * 0x2_0000_0000) by (nonlinear_arith)
        requires
            0 <= s <= 0x2_0000_0000,
            i + 1 >= 0,
    ;
}

proof fn lemma_total_step(y: int, x: int, dim: int, cell: int)
    requires
        0 <= y < dim,
        0 <= x < dim,
        0 <= cell,
        dim * dim * cell <= 0x7fff_ffff,
    ensures
        (y * dim + x + 1) * cell == (y * dim + x) * cell + cell,
        (y * dim + x + 1) * cell <= dim * dim * cell,
        (y * dim + x) * cell >= 0,
{
    assert((y * dim + x + 1) * cell == (y * dim + x) * cell + cell) by (nonlinear_arith);
    assert((y * dim + x + 1) * cell <= dim * dim * cell) by (nonlinear_arith)
        requires
            0 <= y < dim,
            0 <= x < dim,
            0 <= cell,
    ;
    assert((y * dim + x) * cell >= 0) by (nonlinear_arith)
        requires
            y >= 0,
            x >= 0,
            dim >= 1,
            cell >= 0,
    ;
}

/// The 64x64 variant of the matrix workload.
pub fn matmul64(lhs: u32, rhs: u32) -> (r: u32)
    requires
        64 * 64 * (64 * ((lhs + rhs) as int)) <= 0x7fff_ffff,
    ensures
        r as int == 64 * 64 * matmul_cell(64, lhs as int, rhs as int),
{
    matmul(lhs, rhs, 64)
}

/// The 128x128 variant of the matrix workload.
pub fn matmul128(lhs: u32, rhs: u32) -> (r: u32)
    requires
        128 * 128 * (128 * ((lhs + rhs) as int)) <= 0x7fff_ffff,
    ensures
        r as int == 128 * 128 * matmul_cell(128, lhs as int, rhs as int),
{
    matmul(lhs, rhs, 128)
}

} // verus!
