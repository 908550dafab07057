//! Multivariate polynomials given as arithmetic circuits: a list of expressions in which
//! each expression refers only to those before it, the last one being the polynomial.

use vstd::prelude::*;
use crate::field::PackedTowerVector;
use crate::lanes::{
    lane_count, lemma_level_facts, lemma_low_bits_shr, lemma_width_values, lemma_word_algebra,
    low_bits, width,
};
use crate::tower::{is_scalar, tower_mul, tower_pow};

verus! {

/// Index of an expression in the list.
pub type ExprId = usize;

/// One node of a circuit.
#[derive(Clone, Copy, Debug, PartialEq, Eq)]
pub enum Expr {
    /// A scalar of the circuit's tower level.
    Const(u128),
    /// The variable of the given index.
    Var(usize),
    Add(ExprId, ExprId),
    Mul(ExprId, ExprId),
    Pow(ExprId, u64),
}

/// Why a circuit could not be evaluated.
#[derive(Clone, Copy, Debug, PartialEq, Eq)]
pub enum Error {
    /// The query does not hold one vector per variable.
    IncorrectQuerySize { expected: usize },
}

/// Every expression refers only to earlier ones, every constant is a level-`level` scalar,
/// and the list is not empty.
pub open spec fn well_formed(exprs: Seq<Expr>, level: nat) -> bool {
    &&& exprs.len() >= 1
    &&& forall|i: int|
        0 <= i < exprs.len() ==> match #[trigger] exprs[i] {
            Expr::Const(v) => is_scalar(level, v),
            Expr::Var(k) => k < usize::MAX,
            Expr::Add(x, y) => x < i && y < i,
            Expr::Mul(x, y) => x < i && y < i,
            Expr::Pow(x, _) => x < i,
        }
}

/// Degree of expression `i`: 0 for a constant, 1 for a variable, the larger degree for a sum,
/// the sum of degrees for a product, the degree times the exponent for a power.
pub open spec fn expr_degree(exprs: Seq<Expr>, i: int) -> nat
    decreases i,
{
    if i < 0 || i >= exprs.len() {
        0
    } else {
        match exprs[i] {
            Expr::Const(_) => 0,
            Expr::Var(_) => 1,
            Expr::Add(x, y) => if x < i && y < i {
                let (dx, dy) = (expr_degree(exprs, x as int), expr_degree(exprs, y as int));
                if dx >= dy {
                    dx
                } else {
                    dy
                }
            } else {
                0
            },
            Expr::Mul(x, y) => if x < i && y < i {
                expr_degree(exprs, x as int) + expr_degree(exprs, y as int)
            } else {
                0
            },
            Expr::Pow(x, n) => if x < i {
                expr_degree(exprs, x as int) * (n as nat)
            } else {
                0
            },
        }
    }
}

/// One more than the largest variable index among the first `k` expressions; 0 if none.
pub open spec fn var_bound(exprs: Seq<Expr>, k: int) -> nat
    decreases k,
{
    if k <= 0 {
        0
    } else {
        let before = var_bound(exprs, k - 1);
        match exprs[k - 1] {
            Expr::Var(j) => if j + 1 > before {
                (j + 1) as nat
            } else {
                before
            },
            _ => before,
        }
    }
}

/// Lane `j` of the value of expression `i` on the query `q` (one lane sequence per
/// variable), computed in level-`level` scalars.
pub open spec fn expr_value(exprs: Seq<Expr>, q: Seq<Seq<u128>>, level: nat, i: int, j: int) -> u128
    decreases i,
{
    if i < 0 || i >= exprs.len() {
        0
    } else {
        match exprs[i] {
            Expr::Const(v) => v,
            Expr::Var(k) => q[k as int][j],
            Expr::Add(x, y) => if x < i && y < i {
                expr_value(exprs, q, level, x as int, j) ^ expr_value(exprs, q, level, y as int, j)
            } else {
                0
            },
            Expr::Mul(x, y) => if x < i && y < i {
                tower_mul(
                    level,
                    expr_value(exprs, q, level, x as int, j),
                    expr_value(exprs, q, level, y as int, j),
                )
            } else {
                0
            },
            Expr::Pow(x, n) => if x < i {
                tower_pow(level, expr_value(exprs, q, level, x as int, j), n as nat)
            } else {
                0
            },
        }
    }
}

proof fn lemma_var_bound(exprs: Seq<Expr>, k: int, i: int)
    requires
        0 <= i < k <= exprs.len(),
    ensures
        exprs[i] is Var ==> exprs[i]->Var_0 < var_bound(exprs, k),
        var_bound(exprs, k) >= var_bound(exprs, i),
    decreases k,
{
    if k - 1 > i {
        lemma_var_bound(exprs, k - 1, i);
    }
}

/// A polynomial given by a circuit over level-`tower_level` constants.
#[derive(Debug)]
pub struct ArithCircuitPoly {
    exprs: Vec<Expr>,
    degree: usize,
    n_vars: usize,
    tower_level: usize,
}

impl ArithCircuitPoly {
    pub closed spec fn exprs_view(&self) -> Seq<Expr> {
        self.exprs@
    }

    pub closed spec fn level_view(&self) -> nat {
        self.tower_level as nat
    }

    pub closed spec fn degree_view(&self) -> nat {
        self.degree as nat
    }

    pub closed spec fn n_vars_view(&self) -> nat {
        self.n_vars as nat
    }

    /// The circuit is well formed, and its degree and number of variables are those of
    /// its expressions.
    pub closed spec fn wf(&self) -> bool {
        &&& self.tower_level <= 7
        &&& well_formed(self.exprs@, self.tower_level as nat)
        &&& self.degree == expr_degree(self.exprs@, self.exprs@.len() - 1)
        &&& self.n_vars == var_bound(self.exprs@, self.exprs@.len() as int)
    }

    /// The circuit with these expressions, the last being the polynomial, and the degree
    /// and number of variables it has.
    pub fn new(exprs: Vec<Expr>, tower_level: usize) -> (r: Self)
        requires
            tower_level <= 7,
            well_formed(exprs@, tower_level as nat),
            forall|i: int| 0 <= i < exprs.len() ==> expr_degree(exprs@, i) <= usize::MAX,
        ensures
            r.wf(),
            r.exprs_view() == exprs@,
            r.level_view() == tower_level,
            r.degree_view() == expr_degree(exprs@, exprs.len() - 1),
            r.n_vars_view() == var_bound(exprs@, exprs.len() as int),
    {
        let n = exprs.len();
        let mut degrees: Vec<usize> = Vec::new();
        let mut n_vars: usize = 0;
        let mut i: usize = 0;
        while i < n
            invariant
                n == exprs.len(),
                i <= n,
                degrees.len() == i,
                well_formed(exprs@, tower_level as nat),
                forall|t: int| 0 <= t < exprs.len() ==> expr_degree(exprs@, t) <= usize::MAX,
                forall|t: int| 0 <= t < i ==> degrees[t] == expr_degree(exprs@, t),
                n_vars == var_bound(exprs@, i as int),
            decreases n - i,
        {
            let e = exprs[i];
            assert(exprs@[i as int] == e);
            let d: usize = match e {
                Expr::Const(_) => 0,
                Expr::Var(index) => {
                    if index + 1 > n_vars {
                        n_vars = index + 1;
                    }
                    1
                },
                Expr::Add(x, y) => {
                    if degrees[x] >= degrees[y] {
                        degrees[x]
                    } else {
                        degrees[y]
                    }
                },
                Expr::Mul(x, y) => {
                    assert(expr_degree(exprs@, i as int) <= usize::MAX);
                    degrees[x] + degrees[y]
                },
                Expr::Pow(x, exp) => {
                    assert(expr_degree(exprs@, i as int) <= usize::MAX);
                    if degrees[x] == 0 {
                        assert(degrees[x as int] * (exp as nat) == 0) by (nonlinear_arith)
                            requires
                                degrees[x as int] == 0,
                        ;
                        0
                    } else {
                        let dx = degrees[x];
                        assert(exp <= usize::MAX) by (nonlinear_arith)
                            requires
                                dx >= 1,
                                dx * (exp as nat) <= usize::MAX,
                        ;
                        assert((exp as usize) as nat == exp as nat);
                        dx * (exp as usize)
                    }
                },
            };
            assert(d == expr_degree(exprs@, i as int)) by {
                match e {
                    Expr::Const(_) => {},
                    Expr::Var(_) => {},
                    Expr::Add(x, y) => {
                        assert(degrees[x as int] == expr_degree(exprs@, x as int));
                        assert(degrees[y as int] == expr_degree(exprs@, y as int));
                    },
                    Expr::Mul(x, y) => {
                        assert(degrees[x as int] == expr_degree(exprs@, x as int));
                        assert(degrees[y as int] == expr_degree(exprs@, y as int));
                    },
                    Expr::Pow(x, n) => {
                        assert(degrees[x as int] == expr_degree(exprs@, x as int));
                        assert(expr_degree(exprs@, i as int) == expr_degree(exprs@, x as int) * (n as nat));
                        assert(d == degrees[x as int] * (n as nat));
                    },
                }
            }
            degrees.push(d);
            i = i + 1;
        }
        ArithCircuitPoly { exprs, degree: degrees[n - 1], n_vars, tower_level }
    }

    /// Degree of the polynomial.
    pub fn degree(&self) -> (r: usize)
        ensures
            r == self.degree_view(),
    {
        self.degree
    }

    /// Number of variables: one more than the largest variable index.
    pub fn n_vars(&self) -> (r: usize)
        ensures
            r == self.n_vars_view(),
    {
        self.n_vars
    }

    /// Tower level of the constants.
    pub fn binary_tower_level(&self) -> (r: usize)
        ensures
            r == self.level_view(),
    {
        self.tower_level
    }

    /// The lanes of the polynomial's value on `query`, one vector per variable, with the
    /// constants read as level-`packed_level` scalars.
    pub fn evaluate(&self, query: &Vec<PackedTowerVector>, packed_level: usize) -> (r: Result<
        PackedTowerVector,
        Error,
    >)
        requires
            self.wf(),
            self.level_view() <= packed_level <= 7,
            forall|k: int| 0 <= k < query.len() ==> (#[trigger] query[k]).level == packed_level,
        ensures
            query.len() != self.n_vars_view() <==> r == Err::<PackedTowerVector, Error>(
                Error::IncorrectQuerySize { expected: self.n_vars_view() as usize },
            ),
            query.len() == self.n_vars_view() ==> r is Ok,
            r is Ok ==> r->Ok_0.level == packed_level && r->Ok_0@.len() == lane_count(
                packed_level as nat,
            ) && forall|j: int|
                0 <= j < lane_count(packed_level as nat) ==> #[trigger] r->Ok_0@[j] == expr_value(
                    self.exprs_view(),
                    query@.map_values(|v: PackedTowerVector| v@),
                    packed_level as nat,
                    self.exprs_view().len() - 1,
                    j,
                ),
    {
        if query.len() != self.n_vars {
            return Err(Error::IncorrectQuerySize { expected: self.n_vars });
        }
        let ghost q = query@.map_values(|v: PackedTowerVector| v@);
        let ghost pl = packed_level as nat;
        let ghost ex = self.exprs@;
        let n = self.exprs.len();
        let mut evals: Vec<PackedTowerVector> = Vec::new();
        let mut i: usize = 0;
        while i < n
            invariant
                self.wf(),
                ex == self.exprs@,
                n == ex.len(),
                pl == packed_level as nat,
                self.tower_level <= packed_level <= 7,
                query.len() == self.n_vars,
                q == query@.map_values(|v: PackedTowerVector| v@),
                forall|k: int| 0 <= k < query.len() ==> (#[trigger] query[k]).level == packed_level,
                i <= n,
                evals.len() == i,
                forall|t: int|
                    0 <= t < i ==> (#[trigger] evals[t]).level == packed_level && evals[t]@.len()
                        == lane_count(pl) && forall|j: int|
                        0 <= j < lane_count(pl) ==> #[trigger] evals[t]@[j] == expr_value(
                            ex,
                            q,
                            pl,
                            t,
                            j,
                        ),
            decreases n - i,
        {
            let e = self.exprs[i];
            assert(ex[i as int] == e);
            let v = match e {
                Expr::Const(c) => {
                    proof {
                        lemma_scalar_lifts(c, self.tower_level as nat, pl);
                    }
                    PackedTowerVector::broadcast(c, packed_level)
                },
                Expr::Var(k) => {
                    proof {
                        lemma_var_bound(ex, n as int, i as int);
                    }
                    query[k]
                },
                Expr::Add(x, y) => evals[x].add(evals[y]),
                Expr::Mul(x, y) => evals[x].mul(evals[y]),
                Expr::Pow(x, exp) => evals[x].pow(exp),
            };
            proof {
                assert forall|j: int| 0 <= j < lane_count(pl) implies #[trigger] v@[j]
                    == expr_value(ex, q, pl, i as int, j) by {
                    match e {
                        Expr::Add(x, y) => {
                            assert(evals[x as int]@[j] == expr_value(ex, q, pl, x as int, j));
                            assert(evals[y as int]@[j] == expr_value(ex, q, pl, y as int, j));
                        },
                        Expr::Mul(x, y) => {
                            assert(evals[x as int]@[j] == expr_value(ex, q, pl, x as int, j));
                            assert(evals[y as int]@[j] == expr_value(ex, q, pl, y as int, j));
                        },
                        Expr::Pow(x, _) => {
                            assert(evals[x as int]@[j] == expr_value(ex, q, pl, x as int, j));
                        },
                        Expr::Var(k) => {
                            assert(q[k as int] == query[k as int]@);
                        },
                        Expr::Const(_) => {},
                    }
                }
            }
            evals.push(v);
            i = i + 1;
        }
        Ok(evals[n - 1])
    }
}

/// A scalar of a level is a scalar of every level above it.
proof fn lemma_scalar_lifts(c: u128, low: nat, high: nat)
    requires
        low <= high <= 7,
        is_scalar(low, c),
    ensures
        is_scalar(high, c),
{
    if low < high {
        lemma_level_facts(low);
        lemma_width_values();
        let wl = width(low) as u128;
        let wh = width(high) as u128;
        assert(wl <= wh) by {
            if high == 7 {
            } else {
                lemma_level_facts(high);
                assert(low == 0 || low == 1 || low == 2 || low == 3 || low == 4 || low == 5
                    || low == 6);
                assert(high == 1 || high == 2 || high == 3 || high == 4 || high == 5
                    || high == 6);
            }
        }
        lemma_low_bits_shr(wl, wh);
        lemma_word_algebra(c, low_bits(wl), low_bits(wh), 0);
        lemma_word_algebra(low_bits(wh), low_bits(wl), 0, 0);
    }
}

} // verus!
