//! An arithmetisation of the Poseidon permutation: one row of the trace
//! for every round.

use vstd::prelude::*;
use crate::constraint_consumer::ConstraintConsumer;
use crate::field::{pow, pow_spec, Ring};
use crate::matrix::{from_rows, RowMajorMatrix};
use crate::poseidon2::{array_of, lemma_array_of};
use crate::symmetric::{MdsPermutation, Permutation};
use crate::util::{is_power_of_two, next_power_of_two};

verus! {

/// The columns of one row of the trace.
#[derive(Clone, Copy, Debug)]
pub struct PoseidonCols<T, const WIDTH: usize, const N_ROUNDS: usize> {
    /// Entry `i` is one in round `i` and zero otherwise.
    pub round_flags: [T; N_ROUNDS],
    /// One in a partial round, zero otherwise.
    pub partial_round: T,
    pub start_of_round: [T; WIDTH],
    pub after_constants: [T; WIDTH],
    pub after_sbox: [T; WIDTH],
    pub after_mds: [T; WIDTH],
}

/// The number of columns of the trace.
pub open spec fn num_poseidon_cols_spec(width: nat, n_rounds: nat) -> nat {
    n_rounds + 1 + 4 * width
}

/// The number of columns of the trace.
pub fn get_num_poseidon_cols(width: usize, n_rounds: usize) -> (r: usize)
    requires
        num_poseidon_cols_spec(width as nat, n_rounds as nat) <= usize::MAX,
    ensures
        r == num_poseidon_cols_spec(width as nat, n_rounds as nat),
{
    n_rounds + 1 + 4 * width
}

impl<T: Copy, const WIDTH: usize, const N_ROUNDS: usize> PoseidonCols<T, WIDTH, N_ROUNDS> {
    /// The columns laid out as a row: the round flags, the flag of the
    /// partial rounds, and the four states.
    pub open spec fn to_row_spec(self) -> Seq<T> {
        self.round_flags@ + seq![self.partial_round] + self.start_of_round@ + self.after_constants@
            + self.after_sbox@ + self.after_mds@
    }

    /// The columns with every entry set to `x`.
    pub fn filled(x: T) -> (r: Self)
        ensures
            r.round_flags@ == Seq::new(N_ROUNDS as nat, |i: int| x),
            r.partial_round == x,
            r.start_of_round@ == Seq::new(WIDTH as nat, |i: int| x),
            r.after_constants@ == Seq::new(WIDTH as nat, |i: int| x),
            r.after_sbox@ == Seq::new(WIDTH as nat, |i: int| x),
            r.after_mds@ == Seq::new(WIDTH as nat, |i: int| x),
    {
        let r = PoseidonCols {
            round_flags: [x;N_ROUNDS],
            partial_round: x,
            start_of_round: [x;WIDTH],
            after_constants: [x;WIDTH],
            after_sbox: [x;WIDTH],
            after_mds: [x;WIDTH],
        };
        proof {
            assert(r.round_flags@ =~= Seq::new(N_ROUNDS as nat, |i: int| x));
            assert(r.start_of_round@ =~= Seq::new(WIDTH as nat, |i: int| x));
            assert(r.after_constants@ =~= Seq::new(WIDTH as nat, |i: int| x));
            assert(r.after_sbox@ =~= Seq::new(WIDTH as nat, |i: int| x));
            assert(r.after_mds@ =~= Seq::new(WIDTH as nat, |i: int| x));
        }
        r
    }

    /// Reads the columns from a row of the trace.
    pub fn borrow(row: &Vec<T>) -> (r: Self)
        requires
            row@.len() == num_poseidon_cols_spec(WIDTH as nat, N_ROUNDS as nat),
        ensures
            r.to_row_spec() == row@,
    {
        let count = row.len();
        let mut cols = Self::filled(row[0]);
        let mut i: usize = 0;
        while i < N_ROUNDS
            invariant
                row@.len() == N_ROUNDS + 1 + 4 * WIDTH,
                i <= N_ROUNDS,
                forall|k: int| 0 <= k < i ==> cols.round_flags@[k] == row@[k],
            decreases N_ROUNDS - i,
        {
            cols.round_flags[i] = row[i];
            i += 1;
        }
        cols.partial_round = row[N_ROUNDS];
        let mut j: usize = 0;
        while j < WIDTH
            invariant
                row@.len() == N_ROUNDS + 1 + 4 * WIDTH,
                count == row@.len(),
                j <= WIDTH,
                cols.partial_round == row@[N_ROUNDS as int],
                forall|k: int| 0 <= k < N_ROUNDS ==> cols.round_flags@[k] == row@[k],
                forall|k: int| 0 <= k < j ==> cols.start_of_round@[k] == row@[N_ROUNDS + 1 + k],
                forall|k: int| 0 <= k < j ==> cols.after_constants@[k] == row@[N_ROUNDS + 1 + WIDTH + k],
                forall|k: int| 0 <= k < j ==> cols.after_sbox@[k] == row@[N_ROUNDS + 1 + 2 * WIDTH + k],
                forall|k: int| 0 <= k < j ==> cols.after_mds@[k] == row@[N_ROUNDS + 1 + 3 * WIDTH + k],
            decreases WIDTH - j,
        {
            cols.start_of_round[j] = row[N_ROUNDS + 1 + j];
            cols.after_constants[j] = row[N_ROUNDS + 1 + WIDTH + j];
            cols.after_sbox[j] = row[N_ROUNDS + 1 + 2 * WIDTH + j];
            cols.after_mds[j] = row[N_ROUNDS + 1 + 3 * WIDTH + j];
            j += 1;
        }
        proof {
            assert(cols.to_row_spec() =~= row@);
        }
        cols
    }

    /// Writes the columns out as a row of the trace.
    pub fn borrow_mut(&self) -> (row: Vec<T>)
        ensures
            row@ == self.to_row_spec(),
    {
        let mut row: Vec<T> = Vec::new();
        let mut i: usize = 0;
        while i < N_ROUNDS
            invariant
                i <= N_ROUNDS,
                row@ == self.round_flags@.take(i as int),
            decreases N_ROUNDS - i,
        {
            row.push(self.round_flags[i]);
            assert(row@ =~= self.round_flags@.take(i + 1));
            i += 1;
        }
        row.push(self.partial_round);
        let ghost head = self.round_flags@ + seq![self.partial_round];
        assert(row@ =~= head);
        let mut j: usize = 0;
        while j < WIDTH
            invariant
                j <= WIDTH,
                row@ == head + self.start_of_round@.take(j as int),
            decreases WIDTH - j,
        {
            row.push(self.start_of_round[j]);
            assert(row@ =~= head + self.start_of_round@.take(j + 1));
            j += 1;
        }
        let ghost head = head + self.start_of_round@;
        assert(row@ =~= head);
        let mut j: usize = 0;
        while j < WIDTH
            invariant
                j <= WIDTH,
                row@ == head + self.after_constants@.take(j as int),
            decreases WIDTH - j,
        {
            row.push(self.after_constants[j]);
            assert(row@ =~= head + self.after_constants@.take(j + 1));
            j += 1;
        }
        let ghost head = head + self.after_constants@;
        assert(row@ =~= head);
        let mut j: usize = 0;
        while j < WIDTH
            invariant
                j <= WIDTH,
                row@ == head + self.after_sbox@.take(j as int),
            decreases WIDTH - j,
        {
            row.push(self.after_sbox[j]);
            assert(row@ =~= head + self.after_sbox@.take(j + 1));
            j += 1;
        }
        let ghost head = head + self.after_sbox@;
        assert(row@ =~= head);
        let mut j: usize = 0;
        while j < WIDTH
            invariant
                j <= WIDTH,
                row@ == head + self.after_mds@.take(j as int),
            decreases WIDTH - j,
        {
            row.push(self.after_mds[j]);
            assert(row@ =~= head + self.after_mds@.take(j + 1));
            j += 1;
        }
        assert(row@ =~= self.to_row_spec());
        row
    }
}

/// The arithmetisation: the numbers of rounds, the round constants, and
/// the matrix of the linear layer.
pub struct PoseidonAir<Mds, const WIDTH: usize, const ALPHA: u64, const N_ROUNDS: usize> {
    pub half_num_full_rounds: usize,
    pub num_partial_rounds: usize,
    pub round_constants: Vec<u64>,
    pub mds: Mds,
}

impl<Mds, const WIDTH: usize, const ALPHA: u64, const N_ROUNDS: usize> PoseidonAir<
    Mds,
    WIDTH,
    ALPHA,
    N_ROUNDS,
> {
    /// The rounds add up to `N_ROUNDS`, and there is a constant for every
    /// entry of the state in every round.
    pub open spec fn wf(self) -> bool {
        &&& 2 * self.half_num_full_rounds + self.num_partial_rounds == N_ROUNDS
        &&& self.round_constants@.len() == WIDTH * N_ROUNDS
    }

    pub fn new(
        half_num_full_rounds: usize,
        num_partial_rounds: usize,
        round_constants: Vec<u64>,
        mds: Mds,
    ) -> (r: Self)
        requires
            2 * half_num_full_rounds + num_partial_rounds == N_ROUNDS,
            round_constants@.len() == WIDTH * N_ROUNDS,
        ensures
            r.half_num_full_rounds == half_num_full_rounds,
            r.num_partial_rounds == num_partial_rounds,
            r.round_constants == round_constants,
            r.mds == mds,
            r.wf(),
    {
        PoseidonAir { half_num_full_rounds, num_partial_rounds, round_constants, mds }
    }

    /// The number of columns of the trace.
    pub fn width(&self) -> (r: usize)
        requires
            num_poseidon_cols_spec(WIDTH as nat, N_ROUNDS as nat) <= usize::MAX,
        ensures
            r == num_poseidon_cols_spec(WIDTH as nat, N_ROUNDS as nat),
    {
        get_num_poseidon_cols(WIDTH, N_ROUNDS)
    }
}

/// One or zero.
pub open spec fn from_bool_spec<F: Ring>(b: bool) -> F {
    if b {
        F::one_spec()
    } else {
        F::zero_spec()
    }
}

/// The state after the S-box: every entry to the power `alpha` in a full
/// round, the first entry alone in a partial round.
pub open spec fn after_sbox_spec<F: Ring>(
    before: Seq<F>,
    after_constants: Seq<F>,
    is_partial_round: bool,
    alpha: u64,
) -> Seq<F> {
    Seq::new(
        before.len(),
        |i: int|
            if !is_partial_round || i == 0 {
                pow_spec(after_constants[i], alpha as nat)
            } else {
                before[i]
            },
    )
}

/// The state after the round constants have been added.
pub open spec fn after_constants_spec<F: Ring>(input: Seq<u64>, constants: Seq<u64>) -> Seq<F> {
    Seq::new(input.len(), |i: int| F::from_u64_spec(input[i]).plus_spec(F::from_u64_spec(constants[i])))
}

/// Fills one row of the trace: the flag of the round, the flag of the
/// partial rounds, the state at the start of the round, after the
/// constants, after the S-box, and after the linear layer.
pub fn generate_trace_row_for_round<
    F: Ring,
    const WIDTH: usize,
    const ALPHA: u64,
    const N_ROUNDS: usize,
    Mds: MdsPermutation<F, WIDTH>,
>(
    row: &mut PoseidonCols<F, WIDTH, N_ROUNDS>,
    input: [u64; WIDTH],
    round: usize,
    is_partial_round: bool,
    this_round_constants: &Vec<u64>,
    mds: &Mds,
)
    requires
        round < N_ROUNDS,
        WIDTH >= 1,
        this_round_constants@.len() >= WIDTH,
        forall|a: [F; WIDTH]| mds.accepts(a),
    ensures
        final(row).round_flags@ == old(row).round_flags@.update(round as int, F::one_spec()),
        final(row).partial_round == from_bool_spec::<F>(is_partial_round),
        final(row).start_of_round@ == Seq::new(WIDTH as nat, |i: int| F::from_u64_spec(input@[i])),
        final(row).after_constants@ == after_constants_spec::<F>(
            input@,
            this_round_constants@.take(WIDTH as int),
        ),
        final(row).after_sbox@ == after_sbox_spec(
            old(row).after_sbox@,
            final(row).after_constants@,
            is_partial_round,
            ALPHA,
        ),
        final(row).after_mds == mds.permute_spec(final(row).after_sbox),
{
    row.round_flags[round] = F::one();
    row.partial_round = if is_partial_round {
        F::one()
    } else {
        F::zero()
    };
    let ghost old_sbox = row.after_sbox@;
    let mut i: usize = 0;
    while i < WIDTH
        invariant
            i <= WIDTH,
            this_round_constants@.len() >= WIDTH,
            row.round_flags@ == old(row).round_flags@.update(round as int, F::one_spec()),
            row.partial_round == from_bool_spec::<F>(is_partial_round),
            row.after_sbox@ == old_sbox,
            forall|k: int| 0 <= k < i ==> row.start_of_round@[k] == F::from_u64_spec(input@[k]),
            forall|k: int|
                0 <= k < i ==> row.after_constants@[k] == F::from_u64_spec(input@[k]).plus_spec(
                    F::from_u64_spec(this_round_constants@[k]),
                ),
        decreases WIDTH - i,
    {
        let start = F::from_u64(input[i]);
        row.start_of_round[i] = start;
        row.after_constants[i] = start.plus(F::from_u64(this_round_constants[i]));
        i += 1;
    }
    if is_partial_round {
        row.after_sbox[0] = pow(row.after_constants[0], ALPHA);
    } else {
        let mut i: usize = 0;
        while i < WIDTH
            invariant
                i <= WIDTH,
                row.round_flags@ == old(row).round_flags@.update(round as int, F::one_spec()),
                row.partial_round == from_bool_spec::<F>(is_partial_round),
                forall|k: int| 0 <= k < WIDTH ==> row.start_of_round@[k] == F::from_u64_spec(input@[k]),
                forall|k: int|
                    0 <= k < WIDTH ==> row.after_constants@[k] == F::from_u64_spec(input@[k]).plus_spec(
                        F::from_u64_spec(this_round_constants@[k]),
                    ),
                forall|k: int|
                    0 <= k < i ==> row.after_sbox@[k] == pow_spec(row.after_constants@[k], ALPHA as nat),
                forall|k: int| i <= k < WIDTH ==> row.after_sbox@[k] == old_sbox[k],
            decreases WIDTH - i,
        {
            row.after_sbox[i] = pow(row.after_constants[i], ALPHA);
            i += 1;
        }
    }
    let mut state: [F; WIDTH] = [F::zero();WIDTH];
    let mut i: usize = 0;
    while i < WIDTH
        invariant
            i <= WIDTH,
            forall|k: int| 0 <= k < i ==> state@[k] == row.after_sbox@[k],
        decreases WIDTH - i,
    {
        state[i] = row.after_sbox[i];
        i += 1;
    }
    proof {
        assert(state@ =~= row.after_sbox@);
        assert(state =~= row.after_sbox);
    }
    mds.permute_mut(&mut state);
    row.after_mds = state;
    proof {
        assert(row.start_of_round@ =~= Seq::new(WIDTH as nat, |i: int| F::from_u64_spec(input@[i])));
        assert(row.after_constants@ =~= after_constants_spec::<F>(
            input@,
            this_round_constants@.take(WIDTH as int),
        ));
        assert(row.after_sbox@ =~= after_sbox_spec(
            old_sbox,
            row.after_constants@,
            is_partial_round,
            ALPHA,
        ));
    }
}

/// One row of the trace as a sequence: the row that round `round` makes of
/// a row of zeros.
pub open spec fn trace_row_spec<F: Ring, const WIDTH: usize, Mds: MdsPermutation<F, WIDTH>>(
    n_rounds: nat,
    alpha: u64,
    input: Seq<u64>,
    round: nat,
    is_partial_round: bool,
    constants: Seq<u64>,
    mds: Mds,
) -> Seq<F> {
    let flags = Seq::new(
        n_rounds,
        |i: int|
            if i == round {
                F::one_spec()
            } else {
                F::zero_spec()
            },
    );
    let start = Seq::new(WIDTH as nat, |i: int| F::from_u64_spec(input[i]));
    let after_constants = after_constants_spec::<F>(input, constants);
    let after_sbox = after_sbox_spec(
        Seq::new(WIDTH as nat, |i: int| F::zero_spec()),
        after_constants,
        is_partial_round,
        alpha,
    );
    let after_mds = mds.permute_spec(array_of::<F, WIDTH>(after_sbox))@;
    flags + seq![from_bool_spec::<F>(is_partial_round)] + start + after_constants + after_sbox
        + after_mds
}

/// Whether round `round` is a partial round.
pub open spec fn is_partial_round_spec(round: nat, half_num_full_rounds: nat, num_partial_rounds: nat) -> bool {
    round >= half_num_full_rounds && round < half_num_full_rounds + num_partial_rounds
}

/// The input of row `r`: input `r`, or zeros where the inputs have run out.
pub open spec fn padded_input_spec<const WIDTH: usize>(inputs: Seq<[u64; WIDTH]>, r: int) -> Seq<u64> {
    if r < inputs.len() {
        inputs[r]@
    } else {
        Seq::new(WIDTH as nat, |i: int| 0u64)
    }
}

/// The number of rows of the trace: `n_rounds` for one input, one for none.
pub open spec fn num_rows_spec(num_inputs: nat, n_rounds: nat) -> nat {
    if num_inputs == 0 {
        1
    } else {
        n_rounds
    }
}

/// The trace of the permutation: row `r` holds round `r`, on input `r`
/// where there is one and on zeros otherwise, with the constants of its
/// round.
pub fn generate_trace_rows<
    F: Ring,
    const WIDTH: usize,
    const ALPHA: u64,
    const N_ROUNDS: usize,
    Mds: MdsPermutation<F, WIDTH>,
>(
    inputs: Vec<[u64; WIDTH]>,
    half_num_full_rounds: usize,
    num_partial_rounds: usize,
    round_constants: Vec<u64>,
    mds: &Mds,
) -> (trace: RowMajorMatrix<F>)
    requires
        WIDTH >= 1,
        N_ROUNDS >= 1,
        inputs@.len() <= 1,
        inputs@.len() == 1 ==> is_power_of_two(N_ROUNDS as nat),
        N_ROUNDS <= usize::MAX / 2 + 1,
        half_num_full_rounds + num_partial_rounds <= usize::MAX,
        round_constants@.len() >= num_rows_spec(inputs@.len(), N_ROUNDS as nat) * WIDTH,
        num_rows_spec(inputs@.len(), N_ROUNDS as nat) * num_poseidon_cols_spec(
            WIDTH as nat,
            N_ROUNDS as nat,
        ) <= usize::MAX,
        forall|a: [F; WIDTH]| mds.accepts(a),
    ensures
        trace.wf(),
        trace.width == num_poseidon_cols_spec(WIDTH as nat, N_ROUNDS as nat),
        trace.height_spec() == num_rows_spec(inputs@.len(), N_ROUNDS as nat),
        forall|r: int|
            0 <= r < trace.height_spec() ==> #[trigger] trace.row_spec(r) == trace_row_spec::<
                F,
                WIDTH,
                Mds,
            >(
                N_ROUNDS as nat,
                ALPHA,
                padded_input_spec(inputs@, r),
                r as nat,
                is_partial_round_spec(r as nat, half_num_full_rounds as nat, num_partial_rounds as nat),
                round_constants@.subrange(r * WIDTH, r * WIDTH + WIDTH),
                *mds,
            ),
{
    let num_rows = next_power_of_two(inputs.len() * N_ROUNDS);
    proof {
        if inputs@.len() == 1 {
            lemma_next_power_of_two_fixed(N_ROUNDS as nat, num_rows as nat);
        }
        assert(num_rows == num_rows_spec(inputs@.len(), N_ROUNDS as nat));
        assert(num_poseidon_cols_spec(WIDTH as nat, N_ROUNDS as nat) <= usize::MAX) by (nonlinear_arith)
            requires
                num_rows >= 1,
                num_rows * num_poseidon_cols_spec(WIDTH as nat, N_ROUNDS as nat) <= usize::MAX,
        ;
    }
    let num_columns = get_num_poseidon_cols(WIDTH, N_ROUNDS);
    let mut rows: Vec<Vec<F>> = Vec::new();
    let mut round: usize = 0;
    while round < num_rows
        invariant
            WIDTH >= 1,
            num_rows <= N_ROUNDS,
            num_rows == num_rows_spec(inputs@.len(), N_ROUNDS as nat),
            num_columns == num_poseidon_cols_spec(WIDTH as nat, N_ROUNDS as nat),
            half_num_full_rounds + num_partial_rounds <= usize::MAX,
            round_constants@.len() >= num_rows * WIDTH,
            forall|a: [F; WIDTH]| mds.accepts(a),
            round <= num_rows,
            rows@.len() == round,
            forall|k: int| 0 <= k < round ==> (#[trigger] rows@[k])@.len() == num_columns,
            forall|k: int|
                0 <= k < round ==> (#[trigger] rows@[k])@ == trace_row_spec::<F, WIDTH, Mds>(
                    N_ROUNDS as nat,
                    ALPHA,
                    padded_input_spec(inputs@, k),
                    k as nat,
                    is_partial_round_spec(
                        k as nat,
                        half_num_full_rounds as nat,
                        num_partial_rounds as nat,
                    ),
                    round_constants@.subrange(k * WIDTH, k * WIDTH + WIDTH),
                    *mds,
                ),
        decreases num_rows - round,
    {
        proof {
            assert((round + 1) * WIDTH <= num_rows * WIDTH) by (nonlinear_arith)
                requires
                    round < num_rows,
            ;
            assert((round + 1) * WIDTH == round * WIDTH + WIDTH) by (nonlinear_arith);
            assert(0 <= round * WIDTH) by (nonlinear_arith);
        }
        let count = round_constants.len();
        let mut this_round_constants: Vec<u64> = Vec::new();
        let mut c: usize = 0;
        while c < WIDTH
            invariant
                c <= WIDTH,
                round * WIDTH + WIDTH <= round_constants@.len(),
                count == round_constants@.len(),
                this_round_constants@.len() == c,
                forall|k: int|
                    0 <= k < c ==> this_round_constants@[k] == round_constants@[round * WIDTH + k],
            decreases WIDTH - c,
        {
            this_round_constants.push(round_constants[round * WIDTH + c]);
            c += 1;
        }
        proof {
            assert(this_round_constants@ =~= round_constants@.subrange(
                round * WIDTH,
                round * WIDTH + WIDTH,
            ));
            assert(this_round_constants@.take(WIDTH as int) =~= this_round_constants@);
        }
        let input: [u64; WIDTH] = if round < inputs.len() {
            inputs[round]
        } else {
            [0u64;WIDTH]
        };
        proof {
            assert(input@ =~= padded_input_spec(inputs@, round as int));
        }
        let is_partial_round = round >= half_num_full_rounds && round < half_num_full_rounds
            + num_partial_rounds;
        let mut cols: PoseidonCols<F, WIDTH, N_ROUNDS> = PoseidonCols::filled(F::zero());
        let ghost blank = cols;
        generate_trace_row_for_round::<F, WIDTH, ALPHA, N_ROUNDS, Mds>(
            &mut cols,
            input,
            round,
            is_partial_round,
            &this_round_constants,
            mds,
        );
        let row = cols.borrow_mut();
        proof {
            let flags = Seq::new(
                N_ROUNDS as nat,
                |i: int|
                    if i == round {
                        F::one_spec()
                    } else {
                        F::zero_spec()
                    },
            );
            assert(cols.round_flags@ =~= flags);
            lemma_array_of(cols.after_sbox);
            assert(row@ =~= trace_row_spec::<F, WIDTH, Mds>(
                N_ROUNDS as nat,
                ALPHA,
                padded_input_spec(inputs@, round as int),
                round as nat,
                is_partial_round,
                round_constants@.subrange(round * WIDTH, round * WIDTH + WIDTH),
                *mds,
            ));
        }
        rows.push(row);
        round += 1;
    }
    let trace = from_rows(&rows, num_columns);
    proof {
        assert forall|r: int| 0 <= r < trace.height_spec() implies #[trigger] trace.row_spec(r)
            == rows@[r]@ by {
            assert forall|c: int| 0 <= c < num_columns implies trace.row_spec(r)[c] == rows@[r]@[c] by {
                trace.lemma_entry_in_bounds(r, c);
            }
            trace.lemma_entry_in_bounds(r, 0);
            assert(trace.row_spec(r) =~= rows@[r]@);
        }
    }
    trace
}

/// The least power of two that is not below a power of two is that power.
pub proof fn lemma_next_power_of_two_fixed(n: nat, r: nat)
    requires
        is_power_of_two(n),
        is_power_of_two(r),
        n <= r,
        r == 1 || r / 2 < n,
    ensures
        r == n,
{
    let a = crate::util::log2_spec(n);
    let b = crate::util::log2_spec(r);
    assert(crate::util::is_pow2_of(n, a));
    assert(crate::util::is_pow2_of(r, b));
    if a < b {
        vstd::arithmetic::power2::lemma_pow2_unfold(b);
        if a < b - 1 {
            vstd::arithmetic::power2::lemma_pow2_strictly_increases(a, (b - 1) as nat);
        }
        vstd::arithmetic::power2::lemma_pow2_pos(a);
    }
    if b < a {
        vstd::arithmetic::power2::lemma_pow2_strictly_increases(b, a);
    }
}

/// The constraints on the round flags: on the first row the first flag is
/// one and the others are zero, and from row to row the flags move on by
/// one place.
pub open spec fn round_flag_constraints_spec<F: Ring>(
    local_flags: Seq<F>,
    next_flags: Seq<F>,
    is_first_row: F,
    is_transition: F,
) -> Seq<F> {
    let n = local_flags.len() as int;
    Seq::new(
        (2 * n) as nat,
        |k: int|
            if k == 0 {
                is_first_row.times_spec(local_flags[0].minus_spec(F::one_spec()))
            } else if k < n {
                is_first_row.times_spec(local_flags[k])
            } else {
                is_transition.times_spec(
                    next_flags[(k - n + 1) % n].minus_spec(local_flags[k - n]),
                )
            },
    )
}

/// What a consumer keeps of each of the constraints.
pub open spec fn seen_all<F: Ring, CC: ConstraintConsumer<F>>(consumer: CC, constraints: Seq<F>) -> Seq<F> {
    Seq::new(constraints.len(), |k: int| consumer.seen(constraints[k]))
}

/// Hands the constraints to the consumer, first to last.
pub fn feed<F: Ring, CC: ConstraintConsumer<F>>(consumer: &mut CC, constraints: &Vec<F>)
    ensures
        final(consumer).collected() == old(consumer).collected() + seen_all(*old(consumer), constraints@),
        forall|c: F| final(consumer).seen(c) == old(consumer).seen(c),
{
    let mut i: usize = 0;
    while i < constraints.len()
        invariant
            i <= constraints@.len(),
            consumer.collected() == old(consumer).collected() + seen_all(
                *old(consumer),
                constraints@.take(i as int),
            ),
            forall|c: F| consumer.seen(c) == old(consumer).seen(c),
        decreases constraints@.len() - i,
    {
        let ghost before = consumer.collected();
        consumer.global(constraints[i]);
        proof {
            assert(consumer.collected() =~= old(consumer).collected() + seen_all(
                *old(consumer),
                constraints@.take(i + 1),
            ));
        }
        i += 1;
    }
    proof {
        assert(constraints@.take(constraints@.len() as int) =~= constraints@);
    }
}

/// The constraints on the round flags, as values.
pub fn round_flag_constraints<F: Ring, const WIDTH: usize, const N_ROUNDS: usize>(
    local: &PoseidonCols<F, WIDTH, N_ROUNDS>,
    next: &PoseidonCols<F, WIDTH, N_ROUNDS>,
    is_first_row: F,
    is_transition: F,
) -> (r: Vec<F>)
    requires
        1 <= N_ROUNDS <= usize::MAX / 2,
    ensures
        r@ == round_flag_constraints_spec(
            local.round_flags@,
            next.round_flags@,
            is_first_row,
            is_transition,
        ),
{
    let ghost spec = round_flag_constraints_spec(
        local.round_flags@,
        next.round_flags@,
        is_first_row,
        is_transition,
    );
    let mut out: Vec<F> = Vec::new();
    out.push(is_first_row.times(local.round_flags[0].minus(F::one())));
    let mut i: usize = 1;
    while i < N_ROUNDS
        invariant
            1 <= i <= N_ROUNDS,
            N_ROUNDS <= usize::MAX / 2,
            out@.len() == i,
            forall|k: int| 0 <= k < i ==> out@[k] == spec[k],
            spec == round_flag_constraints_spec(
                local.round_flags@,
                next.round_flags@,
                is_first_row,
                is_transition,
            ),
        decreases N_ROUNDS - i,
    {
        out.push(is_first_row.times(local.round_flags[i]));
        i += 1;
    }
    let mut i: usize = 0;
    while i < N_ROUNDS
        invariant
            i <= N_ROUNDS,
            1 <= N_ROUNDS <= usize::MAX / 2,
            out@.len() == N_ROUNDS + i,
            forall|k: int| 0 <= k < N_ROUNDS + i ==> out@[k] == spec[k],
            spec == round_flag_constraints_spec(
                local.round_flags@,
                next.round_flags@,
                is_first_row,
                is_transition,
            ),
        decreases N_ROUNDS - i,
    {
        let current_round_flag = local.round_flags[i];
        let next_round_flag = next.round_flags[(i + 1) % N_ROUNDS];
        out.push(is_transition.times(next_round_flag.minus(current_round_flag)));
        i += 1;
    }
    proof {
        assert(out@ =~= spec);
    }
    out
}

/// Hands the constraints on the round flags to the consumer.
pub fn eval_round_flags<F: Ring, CC: ConstraintConsumer<F>, const WIDTH: usize, const N_ROUNDS: usize>(
    local: &PoseidonCols<F, WIDTH, N_ROUNDS>,
    next: &PoseidonCols<F, WIDTH, N_ROUNDS>,
    is_first_row: F,
    is_transition: F,
    consumer: &mut CC,
)
    requires
        1 <= N_ROUNDS <= usize::MAX / 2,
    ensures
        final(consumer).collected() == old(consumer).collected() + seen_all(
            *old(consumer),
            round_flag_constraints_spec(
                local.round_flags@,
                next.round_flags@,
                is_first_row,
                is_transition,
            ),
        ),
        forall|c: F| final(consumer).seen(c) == old(consumer).seen(c),
{
    let constraints = round_flag_constraints(local, next, is_first_row, is_transition);
    feed(consumer, &constraints);
}

/// The constant that the flags pick for entry `i` of the state: the sum
/// over the first `n` rounds of the flag of the round times its constant.
pub open spec fn round_constant_spec<F: Ring>(flags: Seq<F>, constants: Seq<u64>, width: nat, i: int, n: nat) -> F
    decreases n,
{
    if n == 0 {
        F::zero_spec()
    } else {
        round_constant_spec(flags, constants, width, i, (n - 1) as nat).plus_spec(
            flags[n - 1].times_spec(F::from_u64_spec(constants[(n - 1) * width + i])),
        )
    }
}

/// The constraints of one round besides those on the round flags: the
/// flag of the partial rounds is zero or one; the constants are added;
/// the S-box is applied to the first entry, and in a full round to every
/// entry; the linear layer is applied; and the round ends where the next
/// begins.
pub open spec fn round_constraints_spec<F: Ring, const WIDTH: usize, Mds: MdsPermutation<F, WIDTH>>(
    alpha: u64,
    constants: Seq<u64>,
    mds: Mds,
    local_flags: Seq<F>,
    partial_round: F,
    start_of_round: Seq<F>,
    after_constants: Seq<F>,
    after_sbox: [F; WIDTH],
    after_mds: Seq<F>,
    next_start_of_round: Seq<F>,
) -> Seq<F> {
    let w = WIDTH as int;
    let full_round = F::one_spec().minus_spec(partial_round);
    let mixed = mds.permute_spec(after_sbox)@;
    Seq::new(
        (4 * w + 2) as nat,
        |k: int|
            if k == 0 {
                partial_round.times_spec(partial_round.minus_spec(F::one_spec()))
            } else if k <= w {
                after_constants[k - 1].minus_spec(
                    start_of_round[k - 1].plus_spec(
                        round_constant_spec(local_flags, constants, WIDTH as nat, k - 1, local_flags.len()),
                    ),
                )
            } else if k == w + 1 {
                after_sbox@[0].minus_spec(pow_spec(after_constants[0], alpha as nat))
            } else if k <= 2 * w + 1 {
                pow_spec(after_constants[k - w - 2], alpha as nat).times_spec(full_round).minus_spec(
                    after_sbox@[k - w - 2].times_spec(full_round),
                )
            } else if k <= 3 * w + 1 {
                mixed[k - 2 * w - 2].minus_spec(after_mds[k - 2 * w - 2])
            } else {
                after_mds[k - 3 * w - 2].minus_spec(next_start_of_round[k - 3 * w - 2])
            },
    )
}

impl<Mds, const WIDTH: usize, const ALPHA: u64, const N_ROUNDS: usize> PoseidonAir<
    Mds,
    WIDTH,
    ALPHA,
    N_ROUNDS,
> {
    /// The constraints of one round besides those on the round flags.
    pub open spec fn constraints_spec<F: Ring>(
        self,
        local: PoseidonCols<F, WIDTH, N_ROUNDS>,
        next: PoseidonCols<F, WIDTH, N_ROUNDS>,
    ) -> Seq<F> where Mds: MdsPermutation<F, WIDTH> {
        round_constraints_spec::<F, WIDTH, Mds>(
            ALPHA,
            self.round_constants@,
            self.mds,
            local.round_flags@,
            local.partial_round,
            local.start_of_round@,
            local.after_constants@,
            local.after_sbox,
            local.after_mds@,
            next.start_of_round@,
        )
    }

    /// The constant that the flags of the row pick for entry `i`.
    pub fn round_constant<F: Ring>(&self, local: &PoseidonCols<F, WIDTH, N_ROUNDS>, i: usize) -> (r: F)
        requires
            self.wf(),
            i < WIDTH,
        ensures
            r == round_constant_spec(
                local.round_flags@,
                self.round_constants@,
                WIDTH as nat,
                i as int,
                N_ROUNDS as nat,
            ),
    {
        let count = self.round_constants.len();
        let mut acc = F::zero();
        let mut r: usize = 0;
        while r < N_ROUNDS
            invariant
                self.wf(),
                i < WIDTH,
                count == self.round_constants@.len(),
                r <= N_ROUNDS,
                acc == round_constant_spec(
                    local.round_flags@,
                    self.round_constants@,
                    WIDTH as nat,
                    i as int,
                    r as nat,
                ),
            decreases N_ROUNDS - r,
        {
            proof {
                assert(r * WIDTH + i < WIDTH * N_ROUNDS) by (nonlinear_arith)
                    requires
                        r < N_ROUNDS,
                        i < WIDTH,
                ;
                assert(0 <= r * WIDTH) by (nonlinear_arith);
            }
            acc = acc.plus(local.round_flags[r].times(F::from_u64(self.round_constants[r * WIDTH + i])));
            r += 1;
        }
        acc
    }

    /// The constraints of one round besides those on the round flags, as
    /// values.
    pub fn constraints<F: Ring>(
        &self,
        local: &PoseidonCols<F, WIDTH, N_ROUNDS>,
        next: &PoseidonCols<F, WIDTH, N_ROUNDS>,
    ) -> (r: Vec<F>) where Mds: MdsPermutation<F, WIDTH>
        requires
            self.wf(),
            1 <= WIDTH <= (usize::MAX - 2) / 4,
            forall|a: [F; WIDTH]| self.mds.accepts(a),
        ensures
            r@ == self.constraints_spec(*local, *next),
    {
        let ghost spec = self.constraints_spec(*local, *next);
        let mut out: Vec<F> = Vec::new();
        out.push(local.partial_round.times(local.partial_round.minus(F::one())));
        let mut i: usize = 0;
        while i < WIDTH
            invariant
                self.wf(),
                i <= WIDTH,
                WIDTH <= (usize::MAX - 2) / 4,
                spec == self.constraints_spec(*local, *next),
                out@.len() == 1 + i,
                forall|k: int| 0 <= k < 1 + i ==> out@[k] == spec[k],
            decreases WIDTH - i,
        {
            let round_constant = self.round_constant(local, i);
            out.push(local.after_constants[i].minus(local.start_of_round[i].plus(round_constant)));
            i += 1;
        }
        out.push(local.after_sbox[0].minus(pow(local.after_constants[0], ALPHA)));
        let full_round = F::one().minus(local.partial_round);
        let mut i: usize = 0;
        while i < WIDTH
            invariant
                i <= WIDTH,
                1 <= WIDTH <= (usize::MAX - 2) / 4,
                spec == self.constraints_spec(*local, *next),
                full_round == F::one_spec().minus_spec(local.partial_round),
                out@.len() == WIDTH + 2 + i,
                forall|k: int| 0 <= k < WIDTH + 2 + i ==> out@[k] == spec[k],
            decreases WIDTH - i,
        {
            let after = pow(local.after_constants[i], ALPHA);
            out.push(after.times(full_round).minus(local.after_sbox[i].times(full_round)));
            i += 1;
        }
        let mixed = self.mds.permute(local.after_sbox);
        let mut i: usize = 0;
        while i < WIDTH
            invariant
                i <= WIDTH,
                1 <= WIDTH <= (usize::MAX - 2) / 4,
                spec == self.constraints_spec(*local, *next),
                mixed == self.mds.permute_spec(local.after_sbox),
                out@.len() == 2 * WIDTH + 2 + i,
                forall|k: int| 0 <= k < 2 * WIDTH + 2 + i ==> out@[k] == spec[k],
            decreases WIDTH - i,
        {
            out.push(mixed[i].minus(local.after_mds[i]));
            i += 1;
        }
        let mut i: usize = 0;
        while i < WIDTH
            invariant
                i <= WIDTH,
                1 <= WIDTH <= (usize::MAX - 2) / 4,
                spec == self.constraints_spec(*local, *next),
                out@.len() == 3 * WIDTH + 2 + i,
                forall|k: int| 0 <= k < 3 * WIDTH + 2 + i ==> out@[k] == spec[k],
            decreases WIDTH - i,
        {
            out.push(local.after_mds[i].minus(next.start_of_round[i]));
            i += 1;
        }
        proof {
            assert(out@ =~= spec);
        }
        out
    }

    /// Hands the constraints of one round to the consumer: those on the
    /// round flags, then the others.
    pub fn eval<F: Ring, CC: ConstraintConsumer<F>>(
        &self,
        local: &PoseidonCols<F, WIDTH, N_ROUNDS>,
        next: &PoseidonCols<F, WIDTH, N_ROUNDS>,
        is_first_row: F,
        is_transition: F,
        consumer: &mut CC,
    ) where Mds: MdsPermutation<F, WIDTH>
        requires
            self.wf(),
            1 <= N_ROUNDS <= usize::MAX / 2,
            1 <= WIDTH <= (usize::MAX - 2) / 4,
            forall|a: [F; WIDTH]| self.mds.accepts(a),
        ensures
            final(consumer).collected() == old(consumer).collected() + seen_all(
                *old(consumer),
                round_flag_constraints_spec(
                    local.round_flags@,
                    next.round_flags@,
                    is_first_row,
                    is_transition,
                ) + self.constraints_spec(*local, *next),
            ),
            forall|c: F| final(consumer).seen(c) == old(consumer).seen(c),
    {
        eval_round_flags(local, next, is_first_row, is_transition, consumer);
        let ghost between = *consumer;
        let constraints = self.constraints(local, next);
        feed(consumer, &constraints);
        proof {
            let flags = round_flag_constraints_spec(
                local.round_flags@,
                next.round_flags@,
                is_first_row,
                is_transition,
            );
            assert(seen_all(between, constraints@) =~= seen_all(*old(consumer), constraints@));
            assert(seen_all(*old(consumer), flags) + seen_all(*old(consumer), constraints@)
                =~= seen_all(*old(consumer), flags + constraints@));
        }
    }
}

} // verus!
