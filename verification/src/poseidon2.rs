//! The linear layers of the Poseidon2 permutation.

use vstd::prelude::*;
use crate::field::{sum_spec, Ring};
use crate::symmetric::{MdsLightPermutation, MdsPermutation, Permutation};

verus! {

/// The state times the matrix of ones plus a diagonal: every entry is
/// multiplied by its diagonal entry and the sum of the state is added.
pub open spec fn matmul_internal_spec<R: Ring>(state: Seq<R>, diag: Seq<R>) -> Seq<R> {
    Seq::new(state.len(), |i: int| state[i].times_spec(diag[i]).plus_spec(sum_spec(state)))
}

/// Multiplies the state by the matrix of ones plus the diagonal `diag`.
pub fn matmul_internal<R: Ring, const WIDTH: usize>(state: &mut [R; WIDTH], diag: [R; WIDTH])
    ensures
        final(state)@ == matmul_internal_spec(old(state)@, diag@),
{
    let ghost before = state@;
    let mut sum = R::zero();
    let mut j: usize = 0;
    while j < WIDTH
        invariant
            j <= WIDTH,
            state@ == before,
            sum == sum_spec(before.take(j as int)),
        decreases WIDTH - j,
    {
        assert(before.take(j + 1).drop_last() =~= before.take(j as int));
        sum = sum.plus(state[j]);
        j += 1;
    }
    assert(before.take(WIDTH as int) =~= before);
    let mut i: usize = 0;
    while i < WIDTH
        invariant
            i <= WIDTH,
            sum == sum_spec(before),
            before.len() == WIDTH,
            forall|k: int| 0 <= k < i ==> state@[k] == before[k].times_spec(diag@[k]).plus_spec(sum),
            forall|k: int| i <= k < WIDTH ==> state@[k] == before[k],
        decreases WIDTH - i,
    {
        let x = state[i].times(diag[i]).plus(sum);
        state[i] = x;
        i += 1;
    }
    assert(state@ =~= matmul_internal_spec(before, diag@));
}

/// Four entries times the matrix
/// `[5 7 1 3; 4 6 1 1; 1 3 5 7; 1 1 4 6]`, by additions alone.
pub open spec fn hl_mat_4_spec<R: Ring>(x: Seq<R>) -> Seq<R> {
    let t0 = x[0].plus_spec(x[1]);
    let t1 = x[2].plus_spec(x[3]);
    let t2 = x[1].plus_spec(x[1]).plus_spec(t1);
    let t3 = x[3].plus_spec(x[3]).plus_spec(t0);
    let t4 = t1.plus_spec(t1).plus_spec(t1).plus_spec(t1).plus_spec(t3);
    let t5 = t0.plus_spec(t0).plus_spec(t0).plus_spec(t0).plus_spec(t2);
    let t6 = t3.plus_spec(t5);
    let t7 = t2.plus_spec(t4);
    seq![t6, t5, t7, t4]
}

/// Multiplies four entries by the matrix `[5 7 1 3; 4 6 1 1; 1 3 5 7; 1 1 4 6]`.
pub fn apply_hl_mat_4<R: Ring>(x: &mut [R; 4])
    ensures
        final(x)@ == hl_mat_4_spec(old(x)@),
{
    let t0 = x[0].plus(x[1]);
    let t1 = x[2].plus(x[3]);
    let t2 = x[1].plus(x[1]).plus(t1);
    let t3 = x[3].plus(x[3]).plus(t0);
    let t4 = t1.plus(t1).plus(t1).plus(t1).plus(t3);
    let t5 = t0.plus(t0).plus(t0).plus(t0).plus(t2);
    let t6 = t3.plus(t5);
    let t7 = t2.plus(t4);
    x[0] = t6;
    x[1] = t5;
    x[2] = t7;
    x[3] = t4;
    assert(x@ =~= hl_mat_4_spec(old(x)@));
}

/// Four entries times the matrix
/// `[2 3 1 1; 1 2 3 1; 1 1 2 3; 3 1 1 2]`, by additions alone.
pub open spec fn mat_4_spec<R: Ring>(x: Seq<R>) -> Seq<R> {
    let t01 = x[0].plus_spec(x[1]);
    let t23 = x[2].plus_spec(x[3]);
    let t0123 = t01.plus_spec(t23);
    let t01123 = t0123.plus_spec(x[1]);
    let t01233 = t0123.plus_spec(x[3]);
    seq![
        t01123.plus_spec(t01),
        t01123.plus_spec(x[2]).plus_spec(x[2]),
        t01233.plus_spec(t23),
        t01233.plus_spec(x[0]).plus_spec(x[0]),
    ]
}

/// Multiplies four entries by the matrix `[2 3 1 1; 1 2 3 1; 1 1 2 3; 3 1 1 2]`.
pub fn apply_mat_4<R: Ring>(x: &mut [R; 4])
    ensures
        final(x)@ == mat_4_spec(old(x)@),
{
    let t01 = x[0].plus(x[1]);
    let t23 = x[2].plus(x[3]);
    let t0123 = t01.plus(t23);
    let t01123 = t0123.plus(x[1]);
    let t01233 = t0123.plus(x[3]);
    let y3 = t01233.plus(x[0]).plus(x[0]);
    let y1 = t01123.plus(x[2]).plus(x[2]);
    x[0] = t01123.plus(t01);
    x[1] = y1;
    x[2] = t01233.plus(t23);
    x[3] = y3;
    assert(x@ =~= mat_4_spec(old(x)@));
}

/// The four by four matrix that Horizen Labs use in Poseidon2.
#[derive(Clone, Copy, Default, Debug)]
pub struct HLMDSMat4;

impl<R: Ring> Permutation<[R; 4]> for HLMDSMat4 {
    open spec fn permute_spec(&self, input: [R; 4]) -> [R; 4] {
        array_of_4(hl_mat_4_spec(input@))
    }

    open spec fn accepts(&self, input: [R; 4]) -> bool {
        true
    }

    fn permute(&self, input: [R; 4]) -> (r: [R; 4]) {
        let mut output = input;
        apply_hl_mat_4(&mut output);
        proof {
            lemma_array_of_4(output);
        }
        output
    }

    fn permute_mut(&self, input: &mut [R; 4]) {
        apply_hl_mat_4(input);
        proof {
            lemma_array_of_4(*input);
        }
    }
}

impl<R: Ring> MdsPermutation<R, 4> for HLMDSMat4 {

}

/// A four by four matrix that takes fewer additions.
#[derive(Clone, Copy, Default, Debug)]
pub struct MDSMat4;

impl<R: Ring> Permutation<[R; 4]> for MDSMat4 {
    open spec fn permute_spec(&self, input: [R; 4]) -> [R; 4] {
        array_of_4(mat_4_spec(input@))
    }

    open spec fn accepts(&self, input: [R; 4]) -> bool {
        true
    }

    fn permute(&self, input: [R; 4]) -> (r: [R; 4]) {
        let mut output = input;
        apply_mat_4(&mut output);
        proof {
            lemma_array_of_4(output);
        }
        output
    }

    fn permute_mut(&self, input: &mut [R; 4]) {
        apply_mat_4(input);
        proof {
            lemma_array_of_4(*input);
        }
    }
}

impl<R: Ring> MdsPermutation<R, 4> for MDSMat4 {

}

/// The array of the four given entries.
pub open spec fn array_of_4<R>(s: Seq<R>) -> [R; 4] {
    [s[0], s[1], s[2], s[3]]
}

/// An array is the array of its entries.
pub proof fn lemma_array_of_4<R>(a: [R; 4])
    ensures
        array_of_4(a@) == a,
{
    assert(array_of_4(a@)@ =~= a@);
}

/// The matrix of the outer rounds: a four by four matrix on every four
/// entries, and then the sum of every fourth entry added to each.
#[derive(Clone, Copy, Default, Debug)]
pub struct Poseidon2ExternalMatrix<MdsPerm4> {
    pub mat4: MdsPerm4,
}

impl<MdsPerm4> Poseidon2ExternalMatrix<MdsPerm4> {
    pub fn new(mat4: MdsPerm4) -> (r: Self)
        ensures
            r.mat4 == mat4,
    {
        Poseidon2ExternalMatrix { mat4 }
    }
}

/// The widths that the outer matrix is defined for.
pub open spec fn external_width_ok(width: nat) -> bool {
    width == 2 || width == 3 || width == 4 || width == 8 || width == 12 || width == 16 || width
        == 20 || width == 24
}

/// The state after the four by four matrix has been applied to every four
/// entries.
pub open spec fn external_blocks_spec<R: Ring, M: MdsPermutation<R, 4>>(mat4: M, state: Seq<R>) -> Seq<R> {
    Seq::new(
        state.len(),
        |i: int|
            mat4.permute_spec([state[i - i % 4], state[i - i % 4 + 1], state[i - i % 4 + 2], state[i - i % 4 + 3]])@[i
                % 4],
    )
}

/// The sum of the entries at the positions that leave `k` when divided by four.
pub open spec fn external_sum_spec<R: Ring>(blocks: Seq<R>, k: int) -> R {
    sum_spec(Seq::new(blocks.len() / 4, |j: int| blocks[4 * j + k]))
}

/// The state times the outer matrix.
pub open spec fn external_spec<R: Ring, M: MdsPermutation<R, 4>>(mat4: M, state: Seq<R>) -> Seq<R> {
    if state.len() == 2 {
        let sum = state[0].plus_spec(state[1]);
        seq![state[0].plus_spec(sum), state[1].plus_spec(sum)]
    } else if state.len() == 3 {
        let sum = state[0].plus_spec(state[1]).plus_spec(state[2]);
        seq![state[0].plus_spec(sum), state[1].plus_spec(sum), state[2].plus_spec(sum)]
    } else {
        let blocks = external_blocks_spec(mat4, state);
        Seq::new(state.len(), |i: int| blocks[i].plus_spec(external_sum_spec(blocks, i % 4)))
    }
}

/// Multiplies the state by the outer matrix.
pub fn external_permute<R: Ring, const WIDTH: usize, M: MdsPermutation<R, 4>>(
    mat4: &M,
    state: &mut [R; WIDTH],
)
    requires
        external_width_ok(WIDTH as nat),
        forall|a: [R; 4]| mat4.accepts(a),
    ensures
        final(state)@ == external_spec(*mat4, old(state)@),
{
    let ghost before = state@;
    if WIDTH == 2 {
        let sum = state[0].plus(state[1]);
        let a = state[0].plus(sum);
        let b = state[1].plus(sum);
        state[0] = a;
        state[1] = b;
        assert(state@ =~= external_spec(*mat4, before));
    } else if WIDTH == 3 {
        let sum = state[0].plus(state[1]).plus(state[2]);
        let a = state[0].plus(sum);
        let b = state[1].plus(sum);
        let c = state[2].plus(sum);
        state[0] = a;
        state[1] = b;
        state[2] = c;
        assert(state@ =~= external_spec(*mat4, before));
    } else {
        let ghost blocks = external_blocks_spec(*mat4, before);
        let mut i: usize = 0;
        while i < WIDTH
            invariant
                WIDTH % 4 == 0,
                i % 4 == 0,
                i <= WIDTH,
                before.len() == WIDTH,
                blocks == external_blocks_spec(*mat4, before),
                forall|a: [R; 4]| mat4.accepts(a),
                forall|k: int| 0 <= k < i ==> state@[k] == blocks[k],
                forall|k: int| i <= k < WIDTH ==> state@[k] == before[k],
            decreases WIDTH - i,
        {
            let state_4 = [state[i], state[i + 1], state[i + 2], state[i + 3]];
            let updated = mat4.permute(state_4);
            proof {
                assert forall|k: int| i <= k < i + 4 implies #[trigger] blocks[k] == updated@[k - i] by {
                    assert(k - k % 4 == i);
                }
            }
            let u0 = updated[0];
            let u1 = updated[1];
            let u2 = updated[2];
            let u3 = updated[3];
            state[i] = u0;
            state[i + 1] = u1;
            state[i + 2] = u2;
            state[i + 3] = u3;
            i += 4;
        }
        let mut sums: [R; 4] = [R::zero();4];
        let mut k: usize = 0;
        while k < 4
            invariant
                WIDTH % 4 == 0,
                k <= 4,
                state@ == blocks,
                blocks.len() == WIDTH,
                forall|c: int| 0 <= c < k ==> sums@[c] == external_sum_spec(blocks, c),
            decreases 4 - k,
        {
            let ghost column = Seq::new(blocks.len() / 4, |j: int| blocks[4 * j + k]);
            let mut acc = R::zero();
            let mut j: usize = 0;
            while j < WIDTH / 4
                invariant
                    WIDTH % 4 == 0,
                    k < 4,
                    j <= WIDTH / 4,
                    state@ == blocks,
                    blocks.len() == WIDTH,
                    column == Seq::new(blocks.len() / 4, |j: int| blocks[4 * j + k]),
                    acc == sum_spec(column.take(j as int)),
                decreases WIDTH / 4 - j,
            {
                assert(column.take(j + 1).drop_last() =~= column.take(j as int));
                acc = acc.plus(state[4 * j + k]);
                j += 1;
            }
            assert(column.take((WIDTH / 4) as int) =~= column);
            sums[k] = acc;
            k += 1;
        }
        let mut i: usize = 0;
        while i < WIDTH
            invariant
                i <= WIDTH,
                blocks.len() == WIDTH,
                forall|c: int| 0 <= c < 4 ==> sums@[c] == external_sum_spec(blocks, c),
                forall|k: int|
                    0 <= k < i ==> state@[k] == blocks[k].plus_spec(external_sum_spec(blocks, k % 4)),
                forall|k: int| i <= k < WIDTH ==> state@[k] == blocks[k],
            decreases WIDTH - i,
        {
            let x = state[i].plus(sums[i % 4]);
            state[i] = x;
            i += 1;
        }
        assert(state@ =~= external_spec(*mat4, before));
    }
}

/// The array whose entries are those of `s`.
pub open spec fn array_of<R, const N: usize>(s: Seq<R>) -> [R; N] {
    choose|a: [R; N]| a@ == s
}

/// An array whose first `k` entries are those of `s`.
pub proof fn lemma_array_with_entries<R, const N: usize>(s: Seq<R>, k: nat) -> (a: [R; N])
    requires
        s.len() == N,
        k <= N,
    ensures
        forall|j: int| 0 <= j < k ==> a@[j] == s[j],
    decreases k,
{
    if k == 0 {
        vstd::pervasive::arbitrary()
    } else {
        let before = lemma_array_with_entries::<R, N>(s, (k - 1) as nat);
        let a = vstd::array::spec_array_update(before, k - 1, s[k - 1]);
        assert(a@ == before@.update(k - 1, s[k - 1]));
        a
    }
}

/// There is an array of any `N` entries: the array of `s` has the entries
/// of `s`.
pub proof fn lemma_array_of_entries<R, const N: usize>(s: Seq<R>)
    requires
        s.len() == N,
    ensures
        array_of::<R, N>(s)@ == s,
{
    let a = lemma_array_with_entries::<R, N>(s, N as nat);
    assert(a@ =~= s);
}

/// An array is the array of its entries.
pub proof fn lemma_array_of<R, const N: usize>(a: [R; N])
    ensures
        array_of::<R, N>(a@) == a,
{
    let b = array_of::<R, N>(a@);
    assert(b@ == a@);
    assert(b@ =~= a@);
}

impl<R: Ring, const WIDTH: usize, MdsPerm4: MdsPermutation<R, 4>> Permutation<
    [R; WIDTH],
> for Poseidon2ExternalMatrix<MdsPerm4> {
    open spec fn permute_spec(&self, input: [R; WIDTH]) -> [R; WIDTH] {
        array_of(external_spec(self.mat4, input@))
    }

    open spec fn accepts(&self, input: [R; WIDTH]) -> bool {
        external_width_ok(WIDTH as nat) && forall|a: [R; 4]| self.mat4.accepts(a)
    }

    fn permute(&self, input: [R; WIDTH]) -> (r: [R; WIDTH]) {
        let mut output = input;
        external_permute(&self.mat4, &mut output);
        proof {
            lemma_array_of(output);
        }
        output
    }

    fn permute_mut(&self, state: &mut [R; WIDTH]) {
        external_permute(&self.mat4, state);
        proof {
            lemma_array_of(*state);
        }
    }
}

impl<R: Ring, const WIDTH: usize, MdsPerm4: MdsPermutation<R, 4>> MdsLightPermutation<
    R,
    WIDTH,
> for Poseidon2ExternalMatrix<MdsPerm4> {

}

} // verus!
