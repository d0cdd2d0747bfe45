//! Bookkeeping of a QP: allocation of decision variables and the row layout of its
//! constraints.
use vstd::prelude::*;
use vstd::string::*;

use super::constraint::{ConstraintPriority, ConstraintType};
use super::error::QpError;
use super::variable::Variable;

verus! {

/// The decision variables of a problem: consecutive blocks handed out in order.
#[derive(Clone, Copy, Debug)]
pub struct ProblemVariables {
    /// Number of scalar decision variables added so far.
    pub n_variables: usize,
}

impl ProblemVariables {
    /// No variables.
    pub fn new() -> (r: ProblemVariables)
        ensures
            r.n_variables == 0,
    {
        ProblemVariables { n_variables: 0 }
    }

    /// Adds a `size`-dimensional variable right after the existing ones.
    pub fn add_variable(&mut self, size: usize) -> (v: Variable)
        requires
            old(self).n_variables + size <= usize::MAX,
        ensures
            v.k_start == old(self).n_variables,
            v.k_end == old(self).n_variables + size,
            final(self).n_variables == v.k_end,
    {
        let v = Variable { k_start: self.n_variables, k_end: self.n_variables + size };
        self.n_variables = self.n_variables + size;
        v
    }

    /// Number of scalar decision variables added so far.
    pub fn n_variables(&self) -> (r: usize)
        ensures
            r == self.n_variables,
    {
        self.n_variables
    }

    /// Removes all variables.
    pub fn clear(&mut self)
        ensures
            final(self).n_variables == 0,
    {
        self.n_variables = 0;
    }
}

/// The shape of a constraint `A·x + b (= | >=) 0`, as the QP assembly reads it.
#[derive(Clone, Copy, Debug)]
pub struct ConstraintShape {
    /// Equality or inequality.
    pub type_: ConstraintType,
    /// Hard or soft.
    pub priority: ConstraintPriority,
    /// Rows of `A`.
    pub rows: usize,
    /// Columns of `A`.
    pub cols: usize,
    /// Rows of `b`.
    pub b_rows: usize,
}

/// Which constraints a row count or row list ranges over.
pub enum RowKind {
    /// Hard equalities: stacked into the equality constraints.
    HardEquality,
    /// All inequalities.
    Inequality,
    /// Hard inequalities: stacked into the inequality constraints.
    HardInequality,
    /// Soft inequalities: one non-negative slack variable per row.
    SoftInequality,
}

/// Whether a constraint of shape `s` is of kind `kind`.
pub open spec fn selects(kind: RowKind, s: ConstraintShape) -> bool {
    match kind {
        RowKind::HardEquality => s.type_ == ConstraintType::Equality && s.priority
            == ConstraintPriority::Hard,
        RowKind::Inequality => s.type_ == ConstraintType::Inequality,
        RowKind::HardInequality => s.type_ == ConstraintType::Inequality && s.priority
            == ConstraintPriority::Hard,
        RowKind::SoftInequality => s.type_ == ConstraintType::Inequality && s.priority
            == ConstraintPriority::Soft,
    }
}

/// Total rows of the shapes of kind `kind`.
pub open spec fn rows_where(shapes: Seq<ConstraintShape>, kind: RowKind) -> nat
    decreases shapes.len(),
{
    if shapes.len() == 0 {
        0
    } else {
        rows_where(shapes.drop_last(), kind) + if selects(kind, shapes.last()) {
            shapes.last().rows as nat
        } else {
            0
        }
    }
}

/// For each row of the shapes of kind `kind`, in order, the index of its constraint.
pub open spec fn row_owners(shapes: Seq<ConstraintShape>, kind: RowKind) -> Seq<Option<usize>>
    decreases shapes.len(),
{
    if shapes.len() == 0 {
        Seq::empty()
    } else {
        row_owners(shapes.drop_last(), kind) + if selects(kind, shapes.last()) {
            Seq::new(shapes.last().rows as nat, |r: int| Some((shapes.len() - 1) as usize))
        } else {
            Seq::empty()
        }
    }
}

/// Why a constraint of this shape cannot enter a problem with `n_variables`
/// variables, if it cannot.
pub open spec fn shape_fault(n_variables: usize, s: ConstraintShape) -> Option<Seq<char>> {
    if s.cols > n_variables {
        Some("inconsistent problem size"@)
    } else if s.rows == 0 || s.b_rows == 0 {
        Some("A or b is empty"@)
    } else if s.rows != s.b_rows {
        Some("A.rows() != b.rows()"@)
    } else {
        None
    }
}

/// A constraint of this shape fits a problem with `n_variables` variables: its `A`
/// references no more columns than there are variables, and `A` and `b` have the same,
/// non-zero, number of rows.
pub open spec fn shape_is_valid(n_variables: usize, s: ConstraintShape) -> bool {
    s.cols <= n_variables && s.rows > 0 && s.b_rows > 0 && s.rows == s.b_rows
}

/// A shape has a fault exactly when it is not valid.
pub proof fn lemma_shape_fault_iff_invalid(n_variables: usize, s: ConstraintShape)
    ensures
        shape_fault(n_variables, s) is None <==> shape_is_valid(n_variables, s),
{
}

/// A sequence of shapes has a first fault exactly when some shape in it, whatever its
/// kind or priority, is not valid.
pub proof fn lemma_first_fault_iff_some_invalid(n_variables: usize, shapes: Seq<ConstraintShape>)
    ensures
        first_fault(n_variables, shapes) is None <==> forall|k: int|
            0 <= k < shapes.len() ==> #[trigger] shape_is_valid(n_variables, shapes[k]),
    decreases shapes.len(),
{
    if shapes.len() > 0 {
        let t = shapes.drop_first();
        lemma_first_fault_iff_some_invalid(n_variables, t);
        if first_fault(n_variables, shapes) is None {
            assert forall|k: int| 0 <= k < shapes.len() implies #[trigger] shape_is_valid(
                n_variables,
                shapes[k],
            ) by {
                if k > 0 {
                    assert(shapes[k] == t[k - 1]);
                }
            }
        } else if shape_fault(n_variables, shapes[0]) is None {
            let k = choose|k: int|
                0 <= k < t.len() && !#[trigger] shape_is_valid(n_variables, t[k]);
            assert(t[k] == shapes[k + 1]);
            assert(!shape_is_valid(n_variables, shapes[k + 1]));
        } else {
            assert(!shape_is_valid(n_variables, shapes[0]));
        }
    }
}

/// The fault of the first faulty shape, if any.
pub open spec fn first_fault(n_variables: usize, shapes: Seq<ConstraintShape>) -> Option<Seq<char>>
    decreases shapes.len(),
{
    if shapes.len() == 0 {
        None
    } else if shape_fault(n_variables, shapes[0]) is Some {
        shape_fault(n_variables, shapes[0])
    } else {
        first_fault(n_variables, shapes.drop_first())
    }
}

/// Checks that a constraint of this shape fits a problem with `n_variables` variables.
pub fn validate_shape(n_variables: usize, shape: &ConstraintShape) -> (r: Result<(), QpError>)
    ensures
        shape_fault(n_variables, *shape) is None <==> r is Ok,
        shape_fault(n_variables, *shape) matches Some(msg) ==> (r matches Err(
            QpError::Malformed(m),
        ) && m@ == msg),
{
    if shape.cols > n_variables {
        return Err(QpError::Malformed(String::from_str("inconsistent problem size")));
    }
    if shape.rows == 0 || shape.b_rows == 0 {
        return Err(QpError::Malformed(String::from_str("A or b is empty")));
    }
    if shape.rows != shape.b_rows {
        return Err(QpError::Malformed(String::from_str("A.rows() != b.rows()")));
    }
    Ok(())
}

/// Row counts of a QP and, for each inequality and slack row, the constraint that owns it.
#[derive(Clone, Debug)]
pub struct QpLayout {
    /// Rows of hard equalities.
    pub n_equalities: usize,
    /// Rows of inequalities (the non-negativity rows of the slacks, then the hard
    /// inequalities).
    pub n_inequalities: usize,
    /// Slack variables (one per soft-inequality row).
    pub slack_variables: usize,
    /// For each inequality row, the constraint it comes from (`None` for slack rows).
    pub hard_row_owner: Vec<Option<usize>>,
    /// For each slack variable, the soft inequality it comes from.
    pub soft_slack_owner: Vec<Option<usize>>,
}

/// Extends the layout of `shapes[..i]` by `shapes[i]`.
proof fn lemma_rows_step(shapes: Seq<ConstraintShape>, i: int, kind: RowKind)
    requires
        0 <= i < shapes.len(),
    ensures
        rows_where(shapes.take(i + 1), kind) == rows_where(shapes.take(i), kind) + if selects(kind, shapes[i]) {
            shapes[i].rows as nat
        } else {
            0
        },
        row_owners(shapes.take(i + 1), kind) == row_owners(shapes.take(i), kind) + if selects(kind, shapes[i]) {
            Seq::new(shapes[i].rows as nat, |r: int| Some(i as usize))
        } else {
            Seq::empty()
        },
{
    assert(shapes.take(i + 1).drop_last() =~= shapes.take(i));
}

/// There is one owner per row of a kind.
proof fn lemma_row_owners_len(shapes: Seq<ConstraintShape>, kind: RowKind)
    ensures
        row_owners(shapes, kind).len() == rows_where(shapes, kind),
    decreases shapes.len(),
{
    if shapes.len() > 0 {
        lemma_row_owners_len(shapes.drop_last(), kind);
    }
}

/// The rows of one kind in a prefix are at most those in the whole sequence.
proof fn lemma_rows_prefix(shapes: Seq<ConstraintShape>, i: int, kind: RowKind)
    requires
        0 <= i <= shapes.len(),
    ensures
        rows_where(shapes.take(i), kind) <= rows_where(shapes, kind),
    decreases shapes.len() - i,
{
    if i < shapes.len() {
        lemma_rows_prefix(shapes, i + 1, kind);
        lemma_rows_step(shapes, i, kind);
    } else {
        assert(shapes.take(i) =~= shapes);
    }
}

/// The first fault of `shapes` when the first `i` shapes have none.
proof fn lemma_first_fault_skip(n: usize, shapes: Seq<ConstraintShape>, i: int)
    requires
        0 <= i <= shapes.len(),
        forall|k: int| 0 <= k < i ==> shape_fault(n, #[trigger] shapes[k]) is None,
    ensures
        first_fault(n, shapes) == first_fault(n, shapes.skip(i)),
    decreases i,
{
    if i > 0 {
        let t = shapes.drop_first();
        assert forall|k: int| 0 <= k < i - 1 implies shape_fault(n, #[trigger] t[k]) is None by {
            assert(t[k] == shapes[k + 1]);
        }
        lemma_first_fault_skip(n, t, i - 1);
        assert(t.skip(i - 1) =~= shapes.skip(i));
    } else {
        assert(shapes.skip(0) =~= shapes);
    }
}

/// Lays out the rows of a QP whose constraints have the given shapes: checks every
/// shape in order, then counts equality, inequality and slack rows and records which
/// constraint owns each inequality and slack row.
pub fn qp_layout(n_variables: usize, shapes: &Vec<ConstraintShape>) -> (r: Result<QpLayout, QpError>)
    requires
        rows_where(shapes@, RowKind::HardEquality) <= usize::MAX,
        rows_where(shapes@, RowKind::Inequality) <= usize::MAX,
    ensures
        first_fault(n_variables, shapes@) is None <==> r is Ok,
        r is Ok <==> forall|k: int|
            0 <= k < shapes@.len() ==> #[trigger] shape_is_valid(n_variables, shapes@[k]),
        first_fault(n_variables, shapes@) matches Some(msg) ==> (r matches Err(
            QpError::Malformed(m),
        ) && m@ == msg),
        r matches Ok(layout) ==> {
            &&& layout.n_equalities == rows_where(shapes@, RowKind::HardEquality)
            &&& layout.n_inequalities == rows_where(shapes@, RowKind::Inequality)
            &&& layout.slack_variables == rows_where(
shapes@, RowKind::SoftInequality)
            &&& layout.hard_row_owner@ == Seq::new(
                layout.slack_variables as nat,
                |r: int| None::<usize>,
            ) + row_owners(shapes@, RowKind::HardInequality)
            &&& layout.soft_slack_owner@ == row_owners(
shapes@, RowKind::SoftInequality)
        },
{
    let n = shapes.len();
    let ghost sh = shapes@;
    for i in 0..n
        invariant
            n == sh.len(),
            sh == shapes@,
            forall|k: int| 0 <= k < i ==> shape_fault(n_variables, #[trigger] sh[k]) is None,
    {
        if let Err(e) = validate_shape(n_variables, &shapes[i]) {
            proof {
                lemma_first_fault_skip(n_variables, sh, i as int);
                assert(sh.skip(i as int)[0] == sh[i as int]);
                lemma_first_fault_iff_some_invalid(n_variables, sh);
            }
            return Err(e);
        }
    }
    proof {
        lemma_first_fault_skip(n_variables, sh, n as int);
        lemma_first_fault_iff_some_invalid(n_variables, sh);
    }
    let mut n_equalities: usize = 0;
    let mut n_inequalities: usize = 0;
    let mut slack_variables: usize = 0;
    let mut hard_rows: Vec<Option<usize>> = Vec::new();
    let mut soft_slack_owner: Vec<Option<usize>> = Vec::new();
    proof {
        assert(sh.take(0) =~= Seq::<ConstraintShape>::empty());
    }
    for i in 0..n
        invariant
            n == sh.len(),
            sh == shapes@,
            rows_where(sh, RowKind::HardEquality) <= usize::MAX,
            rows_where(sh, RowKind::Inequality) <= usize::MAX,
            n_equalities == rows_where(sh.take(i as int), RowKind::HardEquality),
            n_inequalities == rows_where(sh.take(i as int), RowKind::Inequality),
            slack_variables == rows_where(sh.take(i as int), RowKind::SoftInequality),
            hard_rows@ == row_owners(sh.take(i as int), RowKind::HardInequality),
            soft_slack_owner@ == row_owners(sh.take(i as int), RowKind::SoftInequality),
    {
        let shape = shapes[i];
        proof {
            lemma_rows_step(sh, i as int, RowKind::HardEquality);
            lemma_rows_step(sh, i as int, RowKind::Inequality);
            lemma_rows_step(sh, i as int, RowKind::HardInequality);
            lemma_rows_step(sh, i as int, RowKind::SoftInequality);
            lemma_rows_prefix(sh, i + 1, RowKind::HardEquality);
            lemma_rows_prefix(sh, i + 1, RowKind::Inequality);
            lemma_inequality_rows_split(sh.take(i + 1));
        }
        match shape.type_ {
            ConstraintType::Equality => {
                if shape.priority == ConstraintPriority::Hard {
                    n_equalities = n_equalities + shape.rows;
                }
            },
            ConstraintType::Inequality => {
                n_inequalities = n_inequalities + shape.rows;
                let ghost before_hard = hard_rows@;
                let ghost before_soft = soft_slack_owner@;
                let is_soft = shape.priority == ConstraintPriority::Soft;
                if is_soft {
                    slack_variables = slack_variables + shape.rows;
                }
                for r in 0..shape.rows
                    invariant
                        is_soft == (shape.priority == ConstraintPriority::Soft),
                        is_soft ==> hard_rows@ == before_hard && soft_slack_owner@ == before_soft
                            + Seq::new(r as nat, |k: int| Some(i as usize)),
                        !is_soft ==> soft_slack_owner@ == before_soft && hard_rows@ == before_hard
                            + Seq::new(r as nat, |k: int| Some(i as usize)),
                {
                    if is_soft {
                        soft_slack_owner.push(Some(i));
                        proof {
                            assert(soft_slack_owner@ =~= before_soft + Seq::new(
                                (r + 1) as nat,
                                |k: int| Some(i as usize),
                            ));
                        }
                    } else {
                        hard_rows.push(Some(i));
                        proof {
                            assert(hard_rows@ =~= before_hard + Seq::new(
                                (r + 1) as nat,
                                |k: int| Some(i as usize),
                            ));
                        }
                    }
                }
            },
        }
        proof {
            if shape.type_ != ConstraintType::Inequality {
                assert(hard_rows@ =~= row_owners(sh.take(i + 1), RowKind::HardInequality));
                assert(soft_slack_owner@ =~= row_owners(sh.take(i + 1), RowKind::SoftInequality));
            }
        }
    }
    proof {
        assert(sh.take(n as int) =~= sh);
    }
    let mut hard_row_owner: Vec<Option<usize>> = Vec::new();
    for k in 0..slack_variables
        invariant
            hard_row_owner@ == Seq::new(k as nat, |r: int| None::<usize>),
    {
        hard_row_owner.push(None);
        proof {
            assert(hard_row_owner@ =~= Seq::new((k + 1) as nat, |r: int| None::<usize>));
        }
    }
    let ghost prefix = hard_row_owner@;
    let m = hard_rows.len();
    for k in 0..m
        invariant
            m == hard_rows@.len(),
            hard_row_owner@ == prefix + hard_rows@.take(k as int),
    {
        hard_row_owner.push(hard_rows[k]);
        proof {
            assert(hard_row_owner@ =~= prefix + hard_rows@.take(k + 1));
        }
    }
    proof {
        assert(hard_rows@.take(m as int) =~= hard_rows@);
    }
    Ok(
        QpLayout {
            n_equalities,
            n_inequalities,
            slack_variables,
            hard_row_owner,
            soft_slack_owner,
        },
    )
}

/// Every inequality row is either a slack row (soft) or a hard inequality row, so the
/// inequality rows of a layout are its slack rows followed by its hard rows.
pub proof fn lemma_inequality_rows_split(shapes: Seq<ConstraintShape>)
    ensures
        rows_where(shapes, RowKind::Inequality) == rows_where(shapes, RowKind::SoftInequality)
            + rows_where(shapes, RowKind::HardInequality),
        row_owners(shapes, RowKind::HardInequality).len() == rows_where(
            shapes,
            RowKind::HardInequality,
        ),
        row_owners(shapes, RowKind::SoftInequality).len() == rows_where(
            shapes,
            RowKind::SoftInequality,
        ),
    decreases shapes.len(),
{
    lemma_row_owners_len(shapes, RowKind::HardInequality);
    lemma_row_owners_len(shapes, RowKind::SoftInequality);
    if shapes.len() > 0 {
        lemma_inequality_rows_split(shapes.drop_last());
    }
}

/// The row owners of a prefix of the shapes begin the row owners of all of them.
proof fn lemma_row_owners_prefix(shapes: Seq<ConstraintShape>, i: int, kind: RowKind)
    requires
        0 <= i <= shapes.len(),
    ensures
        row_owners(shapes.take(i), kind).len() <= row_owners(shapes, kind).len(),
        forall|p: int|
            0 <= p < row_owners(shapes.take(i), kind).len() ==> #[trigger] row_owners(
                shapes.take(i),
                kind,
            )[p] == row_owners(shapes, kind)[p],
    decreases shapes.len() - i,
{
    if i < shapes.len() {
        lemma_row_owners_prefix(shapes, i + 1, kind);
        lemma_rows_step(shapes, i, kind);
        let a = row_owners(shapes.take(i), kind);
        let b = row_owners(shapes.take(i + 1), kind);
        assert forall|p: int| 0 <= p < a.len() implies #[trigger] a[p] == row_owners(
            shapes,
            kind,
        )[p] by {
            assert(a[p] == b[p]);
        }
    } else {
        assert(shapes.take(i) =~= shapes);
    }
}

/// Every row of a kind belongs to a constraint of that kind, and the constraints own
/// their rows in order: the `r`-th row of a selected constraint `k` comes right after the
/// rows of the constraints before `k`, so each selected constraint owns exactly its
/// `rows` consecutive rows.
pub proof fn lemma_row_owners_blocks(shapes: Seq<ConstraintShape>, kind: RowKind)
    requires
        shapes.len() <= usize::MAX,
    ensures
        row_owners(shapes, kind).len() == rows_where(shapes, kind),
        forall|p: int|
            0 <= p < row_owners(shapes, kind).len() ==> (#[trigger] row_owners(shapes, kind)[p]
                matches Some(k) && k < shapes.len() && selects(kind, shapes[k as int])),
        forall|k: int, p: int|
            0 <= k < shapes.len() && selects(kind, #[trigger] shapes[k]) && rows_where(
                shapes.take(k),
                kind,
            ) <= p < rows_where(shapes.take(k), kind) + shapes[k].rows ==> #[trigger] row_owners(
                shapes,
                kind,
            )[p] == Some(k as usize),
    decreases shapes.len(),
{
    lemma_row_owners_len(shapes, kind);
    if shapes.len() > 0 {
        let prefix = shapes.drop_last();
        lemma_row_owners_blocks(prefix, kind);
        let a = row_owners(prefix, kind);
        let all = row_owners(shapes, kind);
        assert forall|p: int| 0 <= p < all.len() implies (#[trigger] all[p] matches Some(k) && k
            < shapes.len() && selects(kind, shapes[k as int])) by {
            if p < a.len() {
                assert(all[p] == a[p]);
                let k = a[p]->0;
                assert(prefix[k as int] == shapes[k as int]);
            } else {
                let last = shapes.len() - 1;
                assert(selects(kind, shapes[last]));
                assert(all[p] == Some(last as usize));
            }
        }
    }
    assert forall|k: int, p: int|
        0 <= k < shapes.len() && selects(kind, #[trigger] shapes[k]) && rows_where(
            shapes.take(k),
            kind,
        ) <= p < rows_where(shapes.take(k), kind) + shapes[k].rows implies #[trigger] row_owners(
        shapes,
        kind,
    )[p] == Some(k as usize) by {
        lemma_rows_step(shapes, k, kind);
        lemma_row_owners_len(shapes.take(k), kind);
        lemma_row_owners_len(shapes.take(k + 1), kind);
        lemma_row_owners_prefix(shapes, k + 1, kind);
        assert(row_owners(shapes.take(k + 1), kind)[p] == Some(k as usize));
    }
}

/// The fault reported for a sequence of shapes is that of its first invalid shape: some
/// shape has exactly that fault and every shape before it is valid.
pub proof fn lemma_first_fault_is_earliest(n_variables: usize, shapes: Seq<ConstraintShape>)
    ensures
        first_fault(n_variables, shapes) matches Some(msg) ==> exists|k: int|
            0 <= k < shapes.len() && #[trigger] shape_fault(n_variables, shapes[k]) == Some(msg)
                && forall|j: int| 0 <= j < k ==> #[trigger] shape_is_valid(n_variables, shapes[j]),
    decreases shapes.len(),
{
    if shapes.len() > 0 {
        if shape_fault(n_variables, shapes[0]) is Some {
            assert(shape_fault(n_variables, shapes[0]) == first_fault(n_variables, shapes));
        } else {
            let t = shapes.drop_first();
            lemma_first_fault_is_earliest(n_variables, t);
            if first_fault(n_variables, shapes) is Some {
                let msg = first_fault(n_variables, shapes)->0;
                let k = choose|k: int|
                    0 <= k < t.len() && #[trigger] shape_fault(n_variables, t[k]) == Some(msg)
                        && forall|j: int| 0 <= j < k ==> #[trigger] shape_is_valid(n_variables, t[j]);
                assert(shapes[k + 1] == t[k]);
                assert forall|j: int| 0 <= j < k + 1 implies #[trigger] shape_is_valid(
                    n_variables,
                    shapes[j],
                ) by {
                    if j > 0 {
                        assert(shapes[j] == t[j - 1]);
                        assert(shape_is_valid(n_variables, t[j - 1]));
                    }
                }
                assert(shape_fault(n_variables, shapes[k + 1]) == Some(msg));
            }
        }
    }
}

} // verus!
