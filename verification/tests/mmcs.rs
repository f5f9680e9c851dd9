use circle_pcs::extension::Ext3;
use circle_pcs::extension_mmcs::{
    flatten, flatten_matrix, unflatten, BaseMmcs, Commitment, ExtensionMmcs, FlatMatrix, Mmcs,
    MmcsError,
};
use circle_pcs::field::Ring;
use circle_pcs::matrix::{columnwise_dot_product, from_rows, Dimensions, RowMajorMatrix};
use circle_pcs::mersenne31::M31;
use circle_pcs::mmcs::check_heights_fit;

const P: u64 = (1 << 31) - 1;

struct Lcg(u64);

impl Lcg {
    fn next_m31(&mut self) -> M31 {
        self.0 = self.0.wrapping_mul(6364136223846793005).wrapping_add(1442695040888963407);
        M31::new(((self.0 >> 33) % P) as u32)
    }

    fn next_ext(&mut self) -> Ext3 {
        Ext3::new(self.next_m31(), self.next_m31(), self.next_m31())
    }

    fn base_matrix(&mut self, height: usize, width: usize) -> RowMajorMatrix<M31> {
        RowMajorMatrix::new((0..height * width).map(|_| self.next_m31()).collect(), width)
    }

    fn ext_matrix(&mut self, height: usize, width: usize) -> RowMajorMatrix<Ext3> {
        RowMajorMatrix::new((0..height * width).map(|_| self.next_ext()).collect(), width)
    }
}

fn dims<T: Copy>(mats: &[RowMajorMatrix<T>]) -> Vec<Dimensions> {
    mats.iter().map(|m| m.dimensions()).collect()
}

#[test]
fn base_scheme_verifies_what_it_opens() {
    let mut rng = Lcg(1);
    let mats = vec![rng.base_matrix(8, 3), rng.base_matrix(4, 2), rng.base_matrix(8, 1), rng.base_matrix(1, 5)];
    let mmcs = BaseMmcs;
    let (commit, data) = mmcs.commit(mats.clone());
    assert_eq!(mmcs.get_matrices(&data), mats);
    let dimensions = dims(&mats);
    for index in 0..8usize {
        let (rows, proof) = mmcs.open_batch(index, &data);
        assert_eq!(rows.len(), 4);
        assert_eq!(rows[0], mats[0].row(index));
        assert_eq!(rows[1], mats[1].row(index >> 1));
        assert_eq!(rows[2], mats[2].row(index));
        assert_eq!(rows[3], mats[3].row(0));
        assert_eq!(mmcs.verify_batch(&commit, &dimensions, index, &rows, &proof), Ok(()));
    }
}

#[test]
fn base_scheme_rejects_what_was_not_opened() {
    let mut rng = Lcg(2);
    let mats = vec![rng.base_matrix(8, 3), rng.base_matrix(4, 2)];
    let mmcs = BaseMmcs;
    let (commit, data) = mmcs.commit(mats.clone());
    let dimensions = dims(&mats);
    let (rows, proof) = mmcs.open_batch(5, &data);
    assert_eq!(mmcs.verify_batch(&commit, &dimensions, 5, &rows, &proof), Ok(()));

    for m in 0..rows.len() {
        for c in 0..rows[m].len() {
            let mut wrong = rows.clone();
            wrong[m][c] = wrong[m][c].plus(M31::one());
            assert_eq!(
                mmcs.verify_batch(&commit, &dimensions, 5, &wrong, &proof),
                Err(MmcsError::OpeningProofInvalid)
            );
        }
    }
    for i in 0..proof.len() {
        for byte in [0usize, 13, 31] {
            let mut wrong = proof.clone();
            wrong[i][byte] ^= 0x10;
            assert_eq!(
                mmcs.verify_batch(&commit, &dimensions, 5, &rows, &wrong),
                Err(MmcsError::OpeningProofInvalid)
            );
        }
    }
    assert_eq!(
        mmcs.verify_batch(&commit, &dimensions, 4, &rows, &proof),
        Err(MmcsError::OpeningProofInvalid)
    );
    let mut other = commit;
    other.root[0] ^= 1;
    assert_eq!(
        mmcs.verify_batch(&other, &dimensions, 5, &rows, &proof),
        Err(MmcsError::OpeningProofInvalid)
    );
    let mut short = proof.clone();
    short.pop();
    assert_eq!(
        mmcs.verify_batch(&commit, &dimensions, 5, &rows, &short),
        Err(MmcsError::OpeningProofInvalid)
    );
}

#[test]
fn commitment_depends_on_the_matrices_alone() {
    let mut rng = Lcg(3);
    let mats = vec![rng.base_matrix(4, 2)];
    let (a, _) = BaseMmcs.commit(mats.clone());
    let (b, _) = BaseMmcs.commit(mats.clone());
    assert_eq!(a, b);
    let mut changed = mats;
    changed[0].values[3] = changed[0].values[3].plus(M31::one());
    let (c, _) = BaseMmcs.commit(changed);
    assert_ne!(a, c);
}

#[test]
fn extension_scheme_verifies_what_it_opens() {
    let mut rng = Lcg(4);
    let mats = vec![rng.ext_matrix(4, 2), rng.ext_matrix(8, 1), rng.ext_matrix(2, 3)];
    let mmcs = ExtensionMmcs::new(BaseMmcs);
    let (commit, data) = mmcs.commit(mats.clone());
    assert_eq!(mmcs.get_matrices(&data), mats);
    let dimensions = dims(&mats);
    for index in 0..8usize {
        let (rows, proof) = mmcs.open_batch(index, &data);
        assert_eq!(rows[0], mats[0].row(index >> 1));
        assert_eq!(rows[1], mats[1].row(index));
        assert_eq!(rows[2], mats[2].row(index >> 2));
        assert_eq!(mmcs.verify_batch(&commit, &dimensions, index, &rows, &proof), Ok(()));

        let mut wrong = rows.clone();
        wrong[2][1].c2 = wrong[2][1].c2.plus(M31::one());
        assert_eq!(
            mmcs.verify_batch(&commit, &dimensions, index, &wrong, &proof),
            Err(MmcsError::OpeningProofInvalid)
        );
        let mut wrong = proof.clone();
        wrong[0][0] ^= 1;
        assert_eq!(
            mmcs.verify_batch(&commit, &dimensions, index, &rows, &wrong),
            Err(MmcsError::OpeningProofInvalid)
        );
    }
}

#[test]
fn extension_scheme_commits_to_the_coefficients() {
    let mut rng = Lcg(5);
    let mats = vec![rng.ext_matrix(4, 2)];
    let (ext_commit, _) = ExtensionMmcs::new(BaseMmcs).commit(mats.clone());
    let (base_commit, _) = BaseMmcs.commit(vec![flatten_matrix(&mats[0])]);
    assert_eq!(ext_commit, base_commit);
}

#[test]
fn extension_scheme_turns_down_widths_that_cannot_be_laid_out() {
    let mut rng = Lcg(6);
    let mats = vec![rng.ext_matrix(2, 1)];
    let mmcs = ExtensionMmcs::new(BaseMmcs);
    let (commit, data) = mmcs.commit(mats);
    let (rows, proof) = mmcs.open_batch(0, &data);
    let dimensions = vec![Dimensions { width: usize::MAX / 2, height: 2 }];
    assert_eq!(
        mmcs.verify_batch(&commit, &dimensions, 0, &rows, &proof),
        Err(MmcsError::MalformedInput)
    );
}

#[test]
fn flattening_lays_out_the_coefficients() {
    let a = Ext3::new(M31::new(1), M31::new(2), M31::new(3));
    let b = Ext3::new(M31::new(4), M31::new(5), M31::new(6));
    let flat = flatten(&vec![a, b]);
    assert_eq!(flat, (1..7).map(M31::new).collect::<Vec<_>>());
    assert_eq!(unflatten(&flat), vec![a, b]);
    assert_eq!(unflatten(&flat[..5].to_vec()), vec![a]);

    let m = RowMajorMatrix::new(vec![a, b, b, a], 2);
    let view = FlatMatrix::new(m.clone());
    assert_eq!(view.width(), 6);
    assert_eq!(view.height(), 2);
    assert_eq!(view.row(1), flatten(&vec![b, a]));
    assert_eq!(view.row_slice(0), flat);
    assert_eq!(view.to_row_major_matrix(), flatten_matrix(&m));
    assert_eq!(flatten_matrix(&m).width, 6);
}

#[test]
fn matrices_give_their_rows_and_entries() {
    let m = RowMajorMatrix::new(vec![1, 2, 3, 4, 5, 6], 3);
    assert_eq!(m.width(), 3);
    assert_eq!(m.height(), 2);
    assert_eq!(m.get(1, 2), 6);
    assert_eq!(m.row(0), vec![1, 2, 3]);
    assert_eq!(m.dimensions(), Dimensions { width: 3, height: 2 });
    assert_eq!(RowMajorMatrix::new_col(vec![7, 8]).height(), 2);
    assert_eq!(RowMajorMatrix::<u8>::new(vec![], 0).height(), 0);
    assert_eq!(from_rows(&vec![vec![1, 2, 3], vec![4, 5, 6]], 3), m);

    let f = RowMajorMatrix::new((1..7).map(M31::new).collect(), 3);
    let weights = vec![M31::new(10), M31::new(100)];
    // 1 * 10 + 4 * 100, 2 * 10 + 5 * 100, 3 * 10 + 6 * 100
    assert_eq!(
        columnwise_dot_product(&f, &weights),
        vec![M31::new(410), M31::new(520), M31::new(630)]
    );
}

#[test]
fn schemes_turn_down_heights_that_cannot_be_rounded_up() {
    let mut rng = Lcg(9);
    let mats = vec![rng.base_matrix(4, 2)];
    let mmcs = BaseMmcs;
    let (commit, data) = mmcs.commit(mats.clone());
    let (rows, proof) = mmcs.open_batch(1, &data);
    assert_eq!(mmcs.verify_batch(&commit, &dims(&mats), 1, &rows, &proof), Ok(()));
    for height in [usize::MAX, usize::MAX / 2 + 1] {
        let tall = vec![Dimensions { width: 2, height }];
        assert_eq!(
            mmcs.verify_batch(&commit, &tall, 1, &rows, &proof),
            Err(MmcsError::OpeningProofInvalid)
        );
        let ext_rows = vec![vec![Ext3::one(); 2]];
        assert_eq!(
            ExtensionMmcs::new(BaseMmcs).verify_batch(&commit, &tall, 1, &ext_rows, &proof),
            Err(MmcsError::OpeningProofInvalid)
        );
    }
    assert!(check_heights_fit(&vec![Dimensions { width: 1, height: usize::MAX / 2 }]));
    assert!(!check_heights_fit(&vec![Dimensions { width: 1, height: usize::MAX / 2 + 1 }]));
}

fn committed_through<S: Mmcs>(
    scheme: &S,
    mats: Vec<RowMajorMatrix<M31>>,
) -> (Commitment, Vec<RowMajorMatrix<M31>>) {
    let (commit, data) = scheme.commit(mats);
    (commit, scheme.get_matrices(&data))
}

fn opens_what_it_commits_to<S: Mmcs>(scheme: S, mats: Vec<RowMajorMatrix<Ext3>>, height: usize) {
    let adapter = ExtensionMmcs::new(scheme);
    let (commit, data) = adapter.commit(mats.clone());
    assert_eq!(adapter.get_matrices(&data), mats);
    let dimensions = dims(&mats);
    for index in 0..height {
        let (rows, proof) = adapter.open_batch(index, &data);
        assert_eq!(rows[0], mats[0].row(index));
        assert_eq!(adapter.verify_batch(&commit, &dimensions, index, &rows, &proof), Ok(()));
        let mut wrong = rows.clone();
        wrong[0][0] = wrong[0][0].plus(Ext3::one());
        assert_eq!(
            adapter.verify_batch(&commit, &dimensions, index, &wrong, &proof),
            Err(MmcsError::OpeningProofInvalid)
        );
    }
}

#[test]
fn adapter_composes_with_a_scheme_through_its_interface() {
    let mut rng = Lcg(10);
    let mats = vec![rng.base_matrix(8, 2), rng.base_matrix(4, 3)];
    let (commit, back) = committed_through(&BaseMmcs, mats.clone());
    assert_eq!(commit, BaseMmcs.commit(mats.clone()).0);
    assert_eq!(back, mats);
    opens_what_it_commits_to(BaseMmcs, vec![rng.ext_matrix(8, 2), rng.ext_matrix(2, 1)], 8);
}
