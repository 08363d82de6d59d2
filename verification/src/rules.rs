//! The rule matrix: one signed coefficient for each ordered pair of species.

use vstd::prelude::*;
use vstd::arithmetic::div_mod::{lemma_fundamental_div_mod, lemma_fundamental_div_mod_converse};
use crate::scalar::{Scalar, Value};

verus! {

/// Every row of `m` is as long as `m` itself.
pub open spec fn square(m: Seq<Seq<Scalar>>) -> bool {
    forall|s: int| 0 <= s < m.len() ==> (#[trigger] m[s]).len() == m.len()
}

/// The coefficient of the pair `(s1, s2)` in `m`. A pair that `m` does not
/// hold has the coefficient zero: no interaction.
pub open spec fn coefficient_in(m: Seq<Seq<Scalar>>, s1: int, s2: int) -> Scalar {
    if 0 <= s1 < m.len() && 0 <= s2 < m[s1].len() {
        m[s1][s2]
    } else {
        Scalar { bits: 0 }
    }
}

/// A coefficient that differs from zero makes its pair interact.
pub open spec fn interacts(g: Scalar) -> bool {
    g@ != Value::Finite(0)
}

/// `m` with the coefficient of `(s1, s2)` replaced by `g`.
pub open spec fn with_rule(m: Seq<Seq<Scalar>>, s1: int, s2: int, g: Scalar) -> Seq<Seq<Scalar>> {
    if 0 <= s1 < m.len() && 0 <= s2 < m[s1].len() {
        m.update(s1, m[s1].update(s2, g))
    } else {
        m
    }
}

/// The interacting pairs among the first `cells` cells of `m`, the cells
/// counted row by row.
pub open spec fn active_cells(m: Seq<Seq<Scalar>>, cells: nat) -> Seq<(usize, usize)>
    decreases cells,
{
    if cells == 0 || m.len() == 0 {
        Seq::empty()
    } else {
        let before = active_cells(m, (cells - 1) as nat);
        let s1 = (cells - 1) / (m.len() as int);
        let s2 = (cells - 1) % (m.len() as int);
        if interacts(coefficient_in(m, s1, s2)) {
            before.push((s1 as usize, s2 as usize))
        } else {
            before
        }
    }
}

/// The species among the first `upto` that a row makes its owner feel, each
/// with its coefficient.
pub open spec fn felt_in(row: Seq<Scalar>, upto: nat) -> Seq<(usize, Scalar)>
    decreases upto,
{
    if upto == 0 {
        Seq::empty()
    } else {
        let before = felt_in(row, (upto - 1) as nat);
        if upto <= row.len() && interacts(row[upto - 1]) {
            before.push(((upto - 1) as usize, row[upto - 1]))
        } else {
            before
        }
    }
}

/// The coefficients of attraction between species. The matrix need not be
/// symmetric: what `a` feels from `b` is not what `b` feels from `a`.
#[derive(Debug)]
pub struct RuleMatrix {
    rows: Vec<Vec<Scalar>>,
}

impl RuleMatrix {
    #[verifier::type_invariant]
    spec fn well_formed(self) -> bool {
        forall|s: int|
            0 <= s < self.rows@.len() ==> (#[trigger] self.rows@[s])@.len() == self.rows@.len()
    }

    /// The coefficients, row by row: row `s1` holds what species `s1` feels
    /// from each species.
    pub closed spec fn view(&self) -> Seq<Seq<Scalar>> {
        Seq::new(self.rows@.len(), |s: int| self.rows@[s]@)
    }

    /// The number of species.
    pub open spec fn size(&self) -> nat {
        self@.len()
    }

    /// The coefficient of the ordered pair `(s1, s2)`.
    pub open spec fn coefficient(&self, s1: int, s2: int) -> Scalar {
        coefficient_in(self@, s1, s2)
    }

    /// The matrix of `species` species in which no pair interacts.
    pub fn new(species: usize) -> (r: RuleMatrix)
        ensures
            r.size() == species,
            square(r@),
            forall|s1: int, s2: int| r.coefficient(s1, s2) == (Scalar { bits: 0 }),
    {
        let mut rows: Vec<Vec<Scalar>> = Vec::new();
        let mut s: usize = 0;
        while s < species
            invariant
                s <= species,
                rows@.len() == s,
                forall|a: int| 0 <= a < s ==> (#[trigger] rows@[a])@.len() == species,
                forall|a: int, b: int|
                    0 <= a < s && 0 <= b < species ==> (#[trigger] rows@[a]@[b]).bits == 0,
            decreases species - s,
        {
            let mut row: Vec<Scalar> = Vec::new();
            let mut t: usize = 0;
            while t < species
                invariant
                    t <= species,
                    row@.len() == t,
                    forall|b: int| 0 <= b < t ==> (#[trigger] row@[b]).bits == 0,
                decreases species - t,
            {
                row.push(Scalar::zero());
                t += 1;
            }
            rows.push(row);
            s += 1;
        }
        let r = RuleMatrix { rows };
        assert forall|s1: int, s2: int| r.coefficient(s1, s2) == (Scalar { bits: 0 }) by {
            if 0 <= s1 < r@.len() && 0 <= s2 < r@[s1].len() {
                assert(r.rows@[s1]@[s2].bits == 0);
            }
        }
        r
    }

    /// The number of species. The matrix has as many rows, each as long.
    pub fn species(&self) -> (r: usize)
        ensures
            r == self.size(),
            square(self@),
    {
        proof {
            use_type_invariant(self);
        }
        self.rows.len()
    }

    /// The coefficient of the ordered pair `(s1, s2)`: how strongly species
    /// `s1` is drawn to species `s2`. Zero for a species that the matrix does
    /// not know.
    pub fn get(&self, s1: usize, s2: usize) -> (r: Scalar)
        ensures
            r == self.coefficient(s1 as int, s2 as int),
    {
        proof {
            use_type_invariant(self);
        }
        if s1 < self.rows.len() && s2 < self.rows.len() {
            self.rows[s1][s2]
        } else {
            Scalar::zero()
        }
    }

    /// Whether species `s1` feels species `s2` at all: whether the pair's
    /// coefficient differs from zero.
    pub fn is_active(&self, s1: usize, s2: usize) -> (r: bool)
        ensures
            r == interacts(self.coefficient(s1 as int, s2 as int)),
    {
        !self.get(s1, s2).is_zero()
    }

    /// The species that species `s1` feels, in order, each with the
    /// coefficient of the pair. The force on a particle of `s1` is summed
    /// over these species and over no others; it reads no other row of the
    /// matrix. Empty for a species that the matrix does not know.
    pub fn sources(&self, s1: usize) -> (r: Vec<(usize, Scalar)>)
        ensures
            r@ == (if s1 < self.size() {
                felt_in(self@[s1 as int], self.size())
            } else {
                Seq::<(usize, Scalar)>::empty()
            }),
    {
        proof {
            use_type_invariant(self);
        }
        let n = self.rows.len();
        let mut out: Vec<(usize, Scalar)> = Vec::new();
        if s1 < n {
            let row = &self.rows[s1];
            let mut s2: usize = 0;
            while s2 < n
                invariant
                    s2 <= n,
                    n == row@.len(),
                    out@ == felt_in(row@, s2 as nat),
                decreases n - s2,
            {
                let g = row[s2];
                if !g.is_zero() {
                    out.push((s2, g));
                }
                s2 += 1;
            }
        }
        out
    }

    /// The ordered pairs of species that interact, row by row. A frame
    /// evaluates forces for these pairs and for no others.
    pub fn active_pairs(&self) -> (r: Vec<(usize, usize)>)
        ensures
            r@ == active_cells(self@, self.size() * self.size()),
    {
        proof {
            use_type_invariant(self);
        }
        let n = self.rows.len();
        let mut out: Vec<(usize, usize)> = Vec::new();
        let mut s1: usize = 0;
        while s1 < n
            invariant
                s1 <= n,
                n == self.rows@.len(),
                n == self@.len(),
                forall|a: int| 0 <= a < n ==> (#[trigger] self.rows@[a])@.len() == n,
                out@ == active_cells(self@, (s1 * n) as nat),
            decreases n - s1,
        {
            let mut s2: usize = 0;
            while s2 < n
                invariant
                    s2 <= n,
                    s1 < n,
                    n == self.rows@.len(),
                    n == self@.len(),
                    forall|a: int| 0 <= a < n ==> (#[trigger] self.rows@[a])@.len() == n,
                    out@ == active_cells(self@, (s1 * n + s2) as nat),
                decreases n - s2,
            {
                let g = self.rows[s1][s2];
                proof {
                    let cell = s1 * n + s2;
                    assert(cell == n * s1 + s2) by (nonlinear_arith)
                        requires
                            cell == s1 * n + s2,
                    ;
                    lemma_fundamental_div_mod_converse(cell, n as int, s1 as int, s2 as int);
                    assert(self@[s1 as int][s2 as int] == g);
                    assert((cell + 1 - 1) / (n as int) == s1);
                }
                if !g.is_zero() {
                    out.push((s1, s2));
                }
                s2 += 1;
            }
            proof {
                assert(s1 * n + n == (s1 + 1) * n) by (nonlinear_arith);
            }
            s1 += 1;
        }
        proof {
            assert(s1 * n == self.size() * self.size());
        }
        out
    }

    /// Sets the coefficient of the ordered pair `(s1, s2)`, and says whether
    /// the matrix knows both species. Nothing else changes, and for species
    /// that it does not know nothing changes at all.
    pub fn set(&mut self, s1: usize, s2: usize, g: Scalar) -> (known: bool)
        ensures
            known == (s1 < old(self).size() && s2 < old(self).size()),
            final(self)@ == with_rule(old(self)@, s1 as int, s2 as int, g),
            final(self).size() == old(self).size(),
    {
        proof {
            use_type_invariant(&*self);
        }
        let n = self.rows.len();
        if s1 < n && s2 < n {
            let mut rows: Vec<Vec<Scalar>> = Vec::new();
            let mut s: usize = 0;
            while s < n
                invariant
                    s <= n,
                    n == self.rows@.len(),
                    s1 < n,
                    s2 < n,
                    *self == *old(self),
                    forall|a: int| 0 <= a < n ==> (#[trigger] self.rows@[a])@.len() == n,
                    rows@.len() == s,
                    forall|a: int|
                        0 <= a < s ==> (#[trigger] rows@[a])@ == (if a == s1 {
                            self.rows@[a]@.update(s2 as int, g)
                        } else {
                            self.rows@[a]@
                        }),
                decreases n - s,
            {
                let mut row = copy_of(&self.rows[s]);
                if s == s1 {
                    row.set(s2, g);
                }
                rows.push(row);
                s += 1;
            }
            self.rows = rows;
            assert(self@ =~= with_rule(old(self)@, s1 as int, s2 as int, g));
            true
        } else {
            false
        }
    }
}

/// The pairs listed are the pairs that interact: a pair of known species
/// occurs among the first `cells` cells if and only if its cell is one of
/// them and its coefficient differs from zero.
pub proof fn lemma_active_cells_members(m: Seq<Seq<Scalar>>, cells: nat, s1: int, s2: int)
    requires
        square(m),
        m.len() <= usize::MAX,
        0 <= s1 < m.len(),
        0 <= s2 < m.len(),
    ensures
        active_cells(m, cells).contains((s1 as usize, s2 as usize)) <==> (s1 * m.len() + s2 < cells
            && interacts(m[s1][s2])),
    decreases cells,
{
    let n = m.len() as int;
    let here = s1 * n + s2;
    assert(here == n * s1 + s2 && here >= 0) by (nonlinear_arith)
        requires
            here == s1 * n + s2,
            s1 >= 0,
            s2 >= 0,
            n > 0,
    ;
    let p = (s1 as usize, s2 as usize);
    if cells > 0 {
        lemma_active_cells_members(m, (cells - 1) as nat, s1, s2);
        let before = active_cells(m, (cells - 1) as nat);
        let c = cells - 1;
        let t1 = c / n;
        let t2 = c % n;
        lemma_fundamental_div_mod(c, n);
        lemma_fundamental_div_mod_converse(here, n, s1, s2);
        assert(here == c <==> (s1 == t1 && s2 == t2));
        if interacts(coefficient_in(m, t1, t2)) {
            let last = (t1 as usize, t2 as usize);
            assert(0 <= t1 < m.len() && 0 <= t2 < m.len());
            assert(p == last <==> here == c);
            assert(active_cells(m, cells) == before.push(last));
            if before.contains(p) {
                let k = choose|k: int| 0 <= k < before.len() && before[k] == p;
                assert(before.push(last)[k] == p);
            }
            if p == last {
                assert(before.push(last)[before.len() as int] == p);
            }
        } else {
            assert(active_cells(m, cells) == before);
        }
    }
}

/// Where no coefficient differs from zero, no pair interacts.
pub proof fn lemma_no_rules_no_pairs(m: Seq<Seq<Scalar>>, cells: nat)
    requires
        forall|s1: int, s2: int| !interacts(coefficient_in(m, s1, s2)),
    ensures
        active_cells(m, cells) == Seq::<(usize, usize)>::empty(),
    decreases cells,
{
    if cells > 0 && m.len() > 0 {
        lemma_no_rules_no_pairs(m, (cells - 1) as nat);
    }
}

/// A row without a coefficient that differs from zero makes its owner feel
/// no species.
pub proof fn lemma_no_rules_no_sources(row: Seq<Scalar>, upto: nat)
    requires
        forall|s2: int| 0 <= s2 < row.len() ==> !interacts(#[trigger] row[s2]),
    ensures
        felt_in(row, upto) == Seq::<(usize, Scalar)>::empty(),
    decreases upto,
{
    if upto > 0 {
        lemma_no_rules_no_sources(row, (upto - 1) as nat);
    }
}

/// A change of one coefficient is felt by one ordered pair: every other
/// pair keeps its coefficient, every other row stays as it was, and the
/// matrix stays square.
pub proof fn lemma_rule_change_is_local(m: Seq<Seq<Scalar>>, a: int, b: int, g: Scalar)
    requires
        square(m),
    ensures
        square(with_rule(m, a, b, g)),
        with_rule(m, a, b, g).len() == m.len(),
        forall|s1: int, s2: int|
            !(s1 == a && s2 == b) ==> coefficient_in(with_rule(m, a, b, g), s1, s2)
                == coefficient_in(m, s1, s2),
        forall|s1: int| 0 <= s1 < m.len() && s1 != a ==> with_rule(m, a, b, g)[s1] == m[s1],
        0 <= a < m.len() && 0 <= b < m.len() ==> coefficient_in(with_rule(m, a, b, g), a, b) == g,
{
}

/// A change of one coefficient does not decide whether any other pair
/// interacts.
pub proof fn lemma_rule_change_keeps_other_pairs(
    m: Seq<Seq<Scalar>>,
    a: int,
    b: int,
    g: Scalar,
    s1: int,
    s2: int,
)
    requires
        square(m),
        m.len() <= usize::MAX,
        0 <= s1 < m.len(),
        0 <= s2 < m.len(),
        !(s1 == a && s2 == b),
    ensures
        active_cells(with_rule(m, a, b, g), m.len() * m.len()).contains((s1 as usize, s2 as usize))
            == active_cells(m, m.len() * m.len()).contains((s1 as usize, s2 as usize)),
{
    lemma_rule_change_is_local(m, a, b, g);
    let changed = with_rule(m, a, b, g);
    assert(coefficient_in(changed, s1, s2) == coefficient_in(m, s1, s2));
    lemma_active_cells_members(m, m.len() * m.len(), s1, s2);
    lemma_active_cells_members(changed, m.len() * m.len(), s1, s2);
}

/// A species is felt if and only if its coefficient differs from zero, and
/// it is listed with that coefficient.
pub proof fn lemma_felt_members(row: Seq<Scalar>, upto: nat, s2: int, g: Scalar)
    requires
        row.len() <= usize::MAX,
        0 <= s2 < row.len(),
    ensures
        felt_in(row, upto).contains((s2 as usize, g)) <==> (s2 < upto && g == row[s2] && interacts(
            g,
        )),
    decreases upto,
{
    if upto > 0 {
        lemma_felt_members(row, (upto - 1) as nat, s2, g);
        let before = felt_in(row, (upto - 1) as nat);
        let p = (s2 as usize, g);
        if upto <= row.len() && interacts(row[upto - 1]) {
            let last = ((upto - 1) as usize, row[upto - 1]);
            assert(felt_in(row, upto) == before.push(last));
            if before.contains(p) {
                let k = choose|k: int| 0 <= k < before.len() && before[k] == p;
                assert(before.push(last)[k] == p);
            }
            if p == last {
                assert(before.push(last)[before.len() as int] == p);
            }
        }
    }
}

/// What a species feels is written in its own row: a change of a
/// coefficient in another row changes nothing of it.
pub proof fn lemma_rule_change_keeps_other_rows(
    m: Seq<Seq<Scalar>>,
    a: int,
    b: int,
    g: Scalar,
    s1: int,
)
    requires
        square(m),
        0 <= s1 < m.len(),
        s1 != a,
    ensures
        felt_in(with_rule(m, a, b, g)[s1], m.len()) == felt_in(m[s1], m.len()),
{
}

/// A copy of a row.
fn copy_of(row: &Vec<Scalar>) -> (r: Vec<Scalar>)
    ensures
        r@ == row@,
{
    let mut r: Vec<Scalar> = Vec::new();
    let mut i: usize = 0;
    while i < row.len()
        invariant
            i <= row@.len(),
            r@ == row@.subrange(0, i as int),
        decreases row@.len() - i,
    {
        r.push(row[i]);
        assert(r@ == row@.subrange(0, i + 1));
        i += 1;
    }
    assert(row@.subrange(0, row@.len() as int) == row@);
    r
}

} // verus!
