//! Modulo-2 vector and matrix primitives shared by all three code families.
//!
//! A bit is a `bool`; addition is XOR and multiplication is AND. Vectors are
//! `Vec<bool>`, matrices are `Vec<Vec<bool>>` (rows of equal length).

use vstd::prelude::*;

verus! {

/// Modulo-2 dot product of two equally long bit vectors: the XOR-reduction
/// of the pairwise ANDs.
pub open spec fn dot(u: Seq<bool>, v: Seq<bool>) -> bool
    recommends
        u.len() == v.len(),
    decreases u.len(),
{
    if u.len() == 0 || v.len() == 0 {
        false
    } else {
        dot(u.drop_last(), v.drop_last()) ^ (u.last() && v.last())
    }
}

/// The rows of an executable matrix as a sequence of bit vectors.
pub open spec fn mat_view(m: &Vec<Vec<bool>>) -> Seq<Seq<bool>> {
    Seq::new(m@.len(), |i: int| m@[i]@)
}

/// A rectangular matrix with the given number of rows and columns.
pub open spec fn is_matrix(m: Seq<Seq<bool>>, rows: nat, cols: nat) -> bool {
    m.len() == rows && forall|i: int| 0 <= i < rows ==> (#[trigger] m[i]).len() == cols
}

/// Column `j` of a matrix, as a bit vector of one entry per row.
pub open spec fn column(m: Seq<Seq<bool>>, j: int) -> Seq<bool> {
    Seq::new(m.len(), |i: int| m[i][j])
}

/// The all-zero bit vector of the given length.
pub open spec fn zero_vector(len: nat) -> Seq<bool> {
    Seq::new(len, |i: int| false)
}

/// Row-vector times matrix: entry `j` of the result is the dot product of
/// the vector with column `j`.
pub open spec fn vec_mat_mul(v: Seq<bool>, m: Seq<Seq<bool>>) -> Seq<bool>
    recommends
        m.len() == v.len(),
{
    Seq::new(if m.len() == 0 { 0 } else { m[0].len() }, |j: int| dot(v, column(m, j)))
}

/// `w` with bit `i` inverted.
pub open spec fn flip(w: Seq<bool>, i: int) -> Seq<bool> {
    w.update(i, !w[i])
}

pub proof fn lemma_flip_involution(w: Seq<bool>, i: int)
    requires
        0 <= i < w.len(),
    ensures
        flip(flip(w, i), i) == w,
{
    assert(flip(flip(w, i), i) =~= w);
}

/// Flipping one bit of `v` flips the dot product by the matching bit of `u`.
pub proof fn lemma_dot_flip(u: Seq<bool>, v: Seq<bool>, i: int)
    requires
        u.len() == v.len(),
        0 <= i < v.len(),
    ensures
        dot(u, flip(v, i)) == dot(u, v) ^ u[i],
    decreases u.len(),
{
    let fv = flip(v, i);
    if i == u.len() - 1 {
        assert(fv.drop_last() =~= v.drop_last());
    } else {
        assert(fv.drop_last() =~= flip(v.drop_last(), i));
        lemma_dot_flip(u.drop_last(), v.drop_last(), i);
    }
}

/// A dot product splits as the XOR of the dot products of matching prefixes
/// and suffixes.
pub proof fn lemma_dot_split(u: Seq<bool>, v: Seq<bool>, m: int)
    requires
        u.len() == v.len(),
        0 <= m <= u.len(),
    ensures
        dot(u, v) == dot(u.take(m), v.take(m)) ^ dot(u.skip(m), v.skip(m)),
    decreases u.len(),
{
    if u.len() == m {
        assert(u.take(m) =~= u);
        assert(v.take(m) =~= v);
        assert(u.skip(m).len() == 0);
    } else {
        lemma_dot_split(u.drop_last(), v.drop_last(), m);
        assert(u.drop_last().take(m) =~= u.take(m));
        assert(v.drop_last().take(m) =~= v.take(m));
        assert(u.drop_last().skip(m) =~= u.skip(m).drop_last());
        assert(v.drop_last().skip(m) =~= v.skip(m).drop_last());
        assert(u.skip(m).last() == u.last());
        assert(v.skip(m).last() == v.last());
    }
}

/// Dotting with an all-false vector yields false.
pub proof fn lemma_dot_zero_left(u: Seq<bool>, v: Seq<bool>)
    requires
        u.len() == v.len(),
        forall|j: int| 0 <= j < u.len() ==> !u[j],
    ensures
        !dot(u, v),
    decreases u.len(),
{
    if u.len() > 0 {
        lemma_dot_zero_left(u.drop_last(), v.drop_last());
    }
}

/// Dotting a unit vector (true only at `i`) with `v` selects `v[i]`.
pub proof fn lemma_dot_unit_left(u: Seq<bool>, v: Seq<bool>, i: int)
    requires
        u.len() == v.len(),
        0 <= i < u.len(),
        forall|j: int| 0 <= j < u.len() ==> u[j] == (j == i),
    ensures
        dot(u, v) == v[i],
    decreases u.len(),
{
    if i == u.len() - 1 {
        lemma_dot_zero_left(u.drop_last(), v.drop_last());
    } else {
        lemma_dot_unit_left(u.drop_last(), v.drop_last(), i);
    }
}

pub proof fn lemma_dot_comm(u: Seq<bool>, v: Seq<bool>)
    requires
        u.len() == v.len(),
    ensures
        dot(u, v) == dot(v, u),
    decreases u.len(),
{
    if u.len() > 0 {
        lemma_dot_comm(u.drop_last(), v.drop_last());
    }
}

/// Dotting `v` with a unit vector (true only at `i`) selects `v[i]`.
pub proof fn lemma_dot_unit_right(u: Seq<bool>, v: Seq<bool>, i: int)
    requires
        u.len() == v.len(),
        0 <= i < v.len(),
        forall|j: int| 0 <= j < v.len() ==> v[j] == (j == i),
    ensures
        dot(u, v) == u[i],
{
    lemma_dot_comm(u, v);
    lemma_dot_unit_left(v, u, i);
}

proof fn lemma_dot_step(u: Seq<bool>, v: Seq<bool>, i: int)
    requires
        u.len() == v.len(),
        0 <= i < u.len(),
    ensures
        dot(u.take(i + 1), v.take(i + 1)) == (dot(u.take(i), v.take(i)) ^ (u[i] && v[i])),
{
    assert(u.take(i + 1).drop_last() =~= u.take(i));
    assert(v.take(i + 1).drop_last() =~= v.take(i));
}

/// Computes the modulo-2 dot product of two equally long bit vectors.
pub fn dot_product(u: &Vec<bool>, v: &Vec<bool>) -> (r: bool)
    requires
        u@.len() == v@.len(),
    ensures
        r == dot(u@, v@),
{
    let mut acc: bool = false;
    let mut i: usize = 0;
    while i < u.len()
        invariant
            u@.len() == v@.len(),
            0 <= i <= u@.len(),
            acc == dot(u@.take(i as int), v@.take(i as int)),
        decreases u@.len() - i,
    {
        proof {
            lemma_dot_step(u@, v@, i as int);
        }
        acc = acc ^ (u[i] && v[i]);
        i = i + 1;
    }
    proof {
        assert(u@.take(u@.len() as int) =~= u@);
        assert(v@.take(v@.len() as int) =~= v@);
    }
    acc
}

/// Multiplies a row vector by a matrix modulo 2: entry `j` of the result
/// is the dot product of the vector with column `j`.
pub fn multiply(v: &Vec<bool>, mat: &Vec<Vec<bool>>, cols: usize) -> (r: Vec<bool>)
    requires
        is_matrix(mat_view(mat), v@.len() as nat, cols as nat),
        v@.len() >= 1,
    ensures
        r@ == vec_mat_mul(v@, mat_view(mat)),
        r@.len() == cols,
{
    let mut r: Vec<bool> = Vec::new();
    let mut j: usize = 0;
    while j < cols
        invariant
            is_matrix(mat_view(mat), v@.len() as nat, cols as nat),
            v@.len() >= 1,
            0 <= j <= cols,
            r@.len() == j,
            forall|l: int| 0 <= l < j ==> r@[l] == vec_mat_mul(v@, mat_view(mat))[l],
        decreases cols - j,
    {
        proof {
            assert forall|i: int| 0 <= i < mat@.len() implies (j as int)
                < (#[trigger] mat@[i])@.len() by {
                assert(mat_view(mat)[i] == mat@[i]@);
            }
        }
        let col = matrix_column(mat, j);
        let bit = dot_product(v, &col);
        r.push(bit);
        j = j + 1;
    }
    proof {
        assert(mat_view(mat)[0].len() == cols);
        assert(r@ =~= vec_mat_mul(v@, mat_view(mat)));
    }
    r
}

/// Extracts column `j` of a matrix as a vector with one entry per row.
pub fn matrix_column(mat: &Vec<Vec<bool>>, j: usize) -> (col: Vec<bool>)
    requires
        forall|i: int| 0 <= i < mat@.len() ==> (j as int) < (#[trigger] mat@[i])@.len(),
    ensures
        col@ == column(mat_view(mat), j as int),
{
    let mut col: Vec<bool> = Vec::new();
    let mut i: usize = 0;
    while i < mat.len()
        invariant
            forall|r: int| 0 <= r < mat@.len() ==> (j as int) < (#[trigger] mat@[r])@.len(),
            0 <= i <= mat@.len(),
            col@.len() == i,
            forall|r: int| 0 <= r < i ==> col@[r] == mat@[r]@[j as int],
        decreases mat@.len() - i,
    {
        col.push(mat[i][j]);
        i = i + 1;
    }
    proof {
        assert(col@ =~= column(mat_view(mat), j as int));
    }
    col
}

/// Transposes a rectangular matrix.
pub fn transpose(mat: &Vec<Vec<bool>>, rows: usize, cols: usize) -> (t: Vec<Vec<bool>>)
    requires
        is_matrix(mat_view(mat), rows as nat, cols as nat),
    ensures
        is_matrix(mat_view(&t), cols as nat, rows as nat),
        forall|i: int, j: int|
            0 <= i < cols && 0 <= j < rows ==> mat_view(&t)[i][j] == mat_view(mat)[j][i],
{
    let mut t: Vec<Vec<bool>> = Vec::new();
    let mut j: usize = 0;
    while j < cols
        invariant
            is_matrix(mat_view(mat), rows as nat, cols as nat),
            0 <= j <= cols,
            t@.len() == j,
            forall|c: int| 0 <= c < j ==> (#[trigger] t@[c])@.len() == rows,
            forall|c: int, r: int|
                0 <= c < j && 0 <= r < rows ==> t@[c]@[r] == mat_view(mat)[r][c],
        decreases cols - j,
    {
        proof {
            assert forall|i: int| 0 <= i < mat@.len() implies (j as int) < (#[trigger] mat@[i])@.len() by {
                assert(mat_view(mat)[i] == mat@[i]@);
            }
        }
        let col = matrix_column(mat, j);
        proof {
            assert(col@.len() == rows);
        }
        t.push(col);
        j = j + 1;
    }
    t
}

/// Copies a bit vector.
pub fn copy_bits(v: &Vec<bool>) -> (res: Vec<bool>)
    ensures
        res@ == v@,
{
    let mut res: Vec<bool> = Vec::new();
    let mut i: usize = 0;
    while i < v.len()
        invariant
            0 <= i <= v@.len(),
            res@ =~= v@.take(i as int),
        decreases v@.len() - i,
    {
        res.push(v[i]);
        i = i + 1;
    }
    proof {
        assert(v@.take(v@.len() as int) =~= v@);
    }
    res
}

/// Compares two bit vectors for equality.
pub fn bits_equal(a: &Vec<bool>, b: &Vec<bool>) -> (r: bool)
    ensures
        r == (a@ == b@),
{
    if a.len() != b.len() {
        return false;
    }
    let mut i: usize = 0;
    while i < a.len()
        invariant
            a@.len() == b@.len(),
            0 <= i <= a@.len(),
            forall|l: int| 0 <= l < i ==> a@[l] == b@[l],
        decreases a@.len() - i,
    {
        if a[i] != b[i] {
            return false;
        }
        i = i + 1;
    }
    proof {
        assert(a@ =~= b@);
    }
    true
}

/// Inverts bit `i` of `w` in place.
pub fn flip_bit(w: &mut Vec<bool>, i: usize)
    requires
        (i as int) < old(w)@.len(),
    ensures
        final(w)@ == flip(old(w)@, i as int),
{
    let b = w[i];
    w.set(i, !b);
    proof {
        assert(w@ =~= flip(old(w)@, i as int));
    }
}

} // verus!
