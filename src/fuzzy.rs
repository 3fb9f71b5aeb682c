//! Fuzzy variables: fuzzification of crisp values and centroid
//! defuzzification of clipped, aggregated output sets.
use vstd::prelude::*;
use crate::{FuzzyError, Label, ONE};
use crate::arith::floor_div;
use crate::funcs::{degree, lemma_degree_bounded, Shape};
use crate::table::{find, lookup};

verus! {

/// Number of samples of a defuzzification unless configured otherwise.
pub const DEFAULT_RESOLUTION: usize = 100;

/// Largest number of samples of a defuzzification.
pub const MAX_RESOLUTION: usize = 65536;

/// A linguistic variable: labelled membership functions over a range.
///
/// Crisp values are normalized from `start..end` onto `0..=ONE` before the
/// membership functions see them; the defuzzified centroid is mapped back.
pub struct Fuzzy<V> {
    name: String,
    functions: Vec<(V, Shape)>,
    start: i64,
    end: i64,
    resolution: usize,
    clamp: bool,
}

/// The mathematical content of a fuzzy variable.
pub struct FuzzyModel<V> {
    pub functions: Seq<(V, Shape)>,
    pub start: int,
    pub end: int,
    pub resolution: nat,
    pub clamp: bool,
}

/// No two entries share a label.
pub open spec fn distinct_labels<V>(functions: Seq<(V, Shape)>) -> bool {
    forall|i: int, j: int|
        0 <= i < j < functions.len() ==> #[trigger] functions[i].0 != #[trigger] functions[j].0
}

impl<V> FuzzyModel<V> {
    pub open spec fn wf(self) -> bool {
        &&& self.start < self.end
        &&& 2 <= self.resolution <= MAX_RESOLUTION
        &&& distinct_labels(self.functions)
    }

    /// The crisp value `x` mapped onto the membership functions' domain,
    /// where `start` becomes 0 and `end` becomes `ONE`; when clamping, values
    /// outside the range are held at its bounds.
    pub open spec fn normalize(self, x: int) -> int {
        let raw = (x - self.start) * ONE / (self.end - self.start);
        if self.clamp && raw < 0 {
            0
        } else if self.clamp && raw > ONE {
            ONE as int
        } else {
            raw
        }
    }

    /// The `i`-th sample point of the normalized domain.
    pub open spec fn sample(self, i: int) -> int {
        i * ONE / (self.resolution - 1)
    }

    /// The alpha-cut of every membership function, in their order; a label
    /// without a cut gets 0.
    pub open spec fn aligned(self, cuts: Seq<(V, i64)>) -> Seq<int> {
        Seq::new(
            self.functions.len(),
            |j: int|
                match lookup(cuts, self.functions[j].0) {
                    Some(c) => c as int,
                    None => 0,
                },
        )
    }

    /// Height at `x` of the union of the first `n` clipped sets: the largest
    /// `min(degree, cut)`, and at least 0.
    pub open spec fn peak(self, cuts: Seq<int>, x: int, n: nat) -> int
        decreases n,
    {
        if n == 0 {
            0
        } else {
            let prev = self.peak(cuts, x, (n - 1) as nat);
            let d = degree(self.functions[n - 1].1, x);
            let c = if d <= cuts[n - 1] { d } else { cuts[n - 1] };
            if c > prev { c } else { prev }
        }
    }

    /// Height of the aggregated set at the `i`-th sample.
    pub open spec fn height(self, cuts: Seq<int>, i: int) -> int {
        self.peak(cuts, self.sample(i), self.functions.len())
    }

    /// Sum of the heights of the first `n` samples.
    pub open spec fn mass(self, cuts: Seq<int>, n: nat) -> int
        decreases n,
    {
        if n == 0 {
            0
        } else {
            self.mass(cuts, (n - 1) as nat) + self.height(cuts, n - 1)
        }
    }

    /// Sum of height times position over the first `n` samples.
    pub open spec fn moment(self, cuts: Seq<int>, n: nat) -> int
        decreases n,
    {
        if n == 0 {
            0
        } else {
            self.moment(cuts, (n - 1) as nat) + self.height(cuts, n - 1) * self.sample(n - 1)
        }
    }

    /// Centroid of the aggregated set in the variable's own units; the
    /// middle of the range when the set is empty.
    pub open spec fn centroid(self, cuts: Seq<int>) -> int {
        let m = self.mass(cuts, self.resolution);
        if m == 0 {
            self.start + (self.end - self.start) / 2
        } else {
            self.start + self.moment(cuts, self.resolution) * (self.end - self.start) / (m * ONE)
        }
    }

    /// Outcome of defuzzifying the labelled alpha-cuts `cuts`.
    pub open spec fn defuzzify(self, cuts: Seq<(V, i64)>) -> Result<int, FuzzyError> {
        if cuts.len() != self.functions.len() {
            Err(FuzzyError::LabelCountMismatch)
        } else if exists|j: int|
            0 <= j < self.functions.len() && #[trigger] lookup(cuts, self.functions[j].0) is None {
            Err(FuzzyError::UnknownLabel)
        } else {
            Ok(self.centroid(self.aligned(cuts)))
        }
    }
}

impl<V> View for Fuzzy<V> {
    type V = FuzzyModel<V>;

    closed spec fn view(&self) -> FuzzyModel<V> {
        FuzzyModel {
            functions: self.functions@,
            start: self.start as int,
            end: self.end as int,
            resolution: self.resolution as nat,
            clamp: self.clamp,
        }
    }
}

impl<V> Fuzzy<V> {
    #[verifier::type_invariant]
    spec fn inv(self) -> bool {
        self@.wf()
    }
}

impl<V: Label> Fuzzy<V> {
    /// A variable over `start..end` with the given labelled membership
    /// functions, sampled `DEFAULT_RESOLUTION` times when defuzzifying and
    /// not clamping its inputs.
    pub fn new(name: String, functions: Vec<(V, Shape)>, start: i64, end: i64) -> (r: Result<
        Fuzzy<V>,
        FuzzyError,
    >)
        ensures
            start >= end ==> (r matches Err(FuzzyError::EmptyRange)),
            start < end && !distinct_labels(functions@) ==> (r matches Err(FuzzyError::DuplicateLabel)),
            start < end && distinct_labels(functions@) ==> (r matches Ok(f) && f@ == (FuzzyModel {
                functions: functions@,
                start: start as int,
                end: end as int,
                resolution: DEFAULT_RESOLUTION as nat,
                clamp: false,
            })),
    {
        if start >= end {
            return Err(FuzzyError::EmptyRange);
        }
        let n = functions.len();
        let mut i: usize = 0;
        while i < n
            invariant
                n == functions@.len(),
                start < end,
                i <= n,
                forall|p: int, q: int|
                    0 <= p < q < n && p < i ==> #[trigger] functions@[p].0 != #[trigger] functions@[q].0,
            decreases n - i,
        {
            let mut j: usize = i + 1;
            while j < n
                invariant
                    n == functions@.len(),
                    start < end,
                    i < n,
                    i + 1 <= j <= n,
                    forall|p: int, q: int|
                        0 <= p < q < n && p < i ==> #[trigger] functions@[p].0 != #[trigger] functions@[q].0,
                    forall|q: int| i < q < j ==> functions@[i as int].0 != #[trigger] functions@[q].0,
                decreases n - j,
            {
                if functions[i].0.same(&functions[j].0) {
                    return Err(FuzzyError::DuplicateLabel);
                }
                j = j + 1;
            }
            i = i + 1;
        }
        Ok(Fuzzy { name, functions, start, end, resolution: DEFAULT_RESOLUTION, clamp: false })
    }
}

impl<V> FuzzyModel<V> {
    pub proof fn lemma_peak_bounded(self, cuts: Seq<int>, x: int, n: nat)
        requires
            n <= self.functions.len(),
            cuts.len() == self.functions.len(),
        ensures
            0 <= self.peak(cuts, x, n) <= ONE,
        decreases n,
    {
        if n > 0 {
            self.lemma_peak_bounded(cuts, x, (n - 1) as nat);
            lemma_degree_bounded(self.functions[n - 1].1, x);
        }
    }

    pub proof fn lemma_sample_bounded(self, i: int)
        requires
            2 <= self.resolution,
            0 <= i < self.resolution,
        ensures
            0 <= self.sample(i) <= ONE,
    {
        let d = self.resolution - 1;
        assert(0 <= i * ONE <= d * ONE) by (nonlinear_arith)
            requires 0 <= i <= d;
        assert(i * ONE / d <= d * ONE / d) by (nonlinear_arith)
            requires i * ONE <= d * ONE, 0 < d;
        assert(d * ONE / d == ONE) by (nonlinear_arith)
            requires 0 < d;
        assert(0 <= i * ONE / d) by (nonlinear_arith)
            requires 0 <= i * ONE, 0 < d;
    }

    /// The running sums stay within what `n` samples of height at most `ONE`
    /// at positions at most `ONE` can reach.
    pub proof fn lemma_sums_bounded(self, cuts: Seq<int>, n: nat)
        requires
            n <= self.resolution,
            2 <= self.resolution,
            cuts.len() == self.functions.len(),
        ensures
            0 <= self.mass(cuts, n) <= n * ONE,
            0 <= self.moment(cuts, n) <= self.mass(cuts, n) * ONE,
        decreases n,
    {
        if n > 0 {
            self.lemma_sums_bounded(cuts, (n - 1) as nat);
            self.lemma_peak_bounded(cuts, self.sample(n - 1), self.functions.len());
            self.lemma_sample_bounded(n - 1);
            let h = self.height(cuts, n - 1);
            let x = self.sample(n - 1);
            assert(0 <= h * x <= h * ONE) by (nonlinear_arith)
                requires 0 <= h, 0 <= x <= ONE;
            assert((self.mass(cuts, (n - 1) as nat) + h) * ONE == self.mass(cuts, (n - 1) as nat)
                * ONE + h * ONE) by (nonlinear_arith);
        }
    }
}

impl<V: Label> Fuzzy<V> {
    /// The crisp value `x` on the membership functions' domain.
    fn normalize(&self, x: i64) -> (r: i128)
        ensures
            r == self@.normalize(x as int),
            -0x1_0000_0000_0000_0000_0000_0000 <= r <= 0x1_0000_0000_0000_0000_0000_0000,
    {
        proof {
            use_type_invariant(self);
        }
        let num: i128 = (x as i128 - self.start as i128) * (ONE as i128);
        let den: i128 = self.end as i128 - self.start as i128;
        proof {
            assert(-0x1_0000_0000_0000_0000_0000_0000 <= num <= 0x1_0000_0000_0000_0000_0000_0000)
                by (nonlinear_arith)
                requires
                    num == (x as int - self.start as int) * ONE,
                    -0x1_0000_0000_0000_0000 <= x as int - self.start as int <= 0x1_0000_0000_0000_0000;
        }
        let raw = floor_div(num, den);
        proof {
            assert(-0x1_0000_0000_0000_0000_0000_0000 <= raw <= 0x1_0000_0000_0000_0000_0000_0000)
                by (nonlinear_arith)
                requires
                    raw == num / den,
                    den >= 1,
                    -0x1_0000_0000_0000_0000_0000_0000 <= num <= 0x1_0000_0000_0000_0000_0000_0000;
        }
        if self.clamp && raw < 0 {
            0
        } else if self.clamp && raw > ONE as i128 {
            ONE as i128
        } else {
            raw
        }
    }

    /// The degree of every label at the crisp value `x`, in the order of the
    /// membership functions.
    pub fn fuzzify(&self, x: i64) -> (r: Vec<(V, i64)>)
        ensures
            r@.len() == self@.functions.len(),
            forall|j: int|
                0 <= j < r@.len() ==> #[trigger] r@[j] == (
                    self@.functions[j].0,
                    degree(self@.functions[j].1, self@.normalize(x as int)) as i64,
                ),
            crate::rules::degrees_in_range(r@),
    {
        let xn = self.normalize(x);
        let n = self.functions.len();
        let mut r: Vec<(V, i64)> = Vec::with_capacity(n);
        let mut j: usize = 0;
        while j < n
            invariant
                n == self@.functions.len(),
                xn == self@.normalize(x as int),
                -0x1_0000_0000_0000_0000_0000_0000 <= xn <= 0x1_0000_0000_0000_0000_0000_0000,
                j <= n,
                r@.len() == j,
                forall|k: int|
                    0 <= k < j ==> #[trigger] r@[k] == (
                        self@.functions[k].0,
                        degree(self@.functions[k].1, xn as int) as i64,
                    ),
                forall|k: int| 0 <= k < j ==> 0 <= #[trigger] r@[k].1 <= ONE,
            decreases n - j,
        {
            let d = self.functions[j].1.eval_wide(xn);
            r.push((self.functions[j].0, d));
            j = j + 1;
        }
        r
    }
}

impl<V: Label> Fuzzy<V> {
    /// The alpha-cut of each membership function, in their order.
    fn align(&self, cuts: &Vec<(V, i64)>) -> (r: Result<Vec<i64>, FuzzyError>)
        ensures
            match r {
                Ok(a) => {
                    &&& forall|j: int|
                        0 <= j < self@.functions.len() ==> #[trigger] lookup(
                            cuts@,
                            self@.functions[j].0,
                        ) is Some
                    &&& a@.len() == self@.functions.len()
                    &&& forall|j: int|
                        0 <= j < a@.len() ==> #[trigger] a@[j] as int == self@.aligned(cuts@)[j]
                },
                Err(e) => {
                    &&& e == FuzzyError::UnknownLabel
                    &&& exists|j: int|
                        0 <= j < self@.functions.len() && #[trigger] lookup(
                            cuts@,
                            self@.functions[j].0,
                        ) is None
                },
            },
    {
        let n = self.functions.len();
        let mut a: Vec<i64> = Vec::with_capacity(n);
        let mut j: usize = 0;
        while j < n
            invariant
                n == self@.functions.len(),
                j <= n,
                a@.len() == j,
                forall|k: int| 0 <= k < j ==> #[trigger] lookup(cuts@, self@.functions[k].0) is Some,
                forall|k: int| 0 <= k < j ==> #[trigger] a@[k] as int == self@.aligned(cuts@)[k],
            decreases n - j,
        {
            match find(cuts, &self.functions[j].0) {
                Some(c) => a.push(c),
                None => {
                    assert(lookup(cuts@, self@.functions[j as int].0) is None);
                    return Err(FuzzyError::UnknownLabel);
                },
            }
            j = j + 1;
        }
        Ok(a)
    }

    /// Height of the aggregated, clipped set at the normalized point `x`.
    fn peak(&self, cuts: &Vec<i64>, x: i64) -> (r: i64)
        requires
            cuts@.len() == self@.functions.len(),
        ensures
            r == self@.peak(cuts@.map_values(|c: i64| c as int), x as int, self@.functions.len()),
            0 <= r <= ONE,
    {
        let ghost gc = cuts@.map_values(|c: i64| c as int);
        let n = self.functions.len();
        let mut y: i64 = 0;
        let mut j: usize = 0;
        while j < n
            invariant
                n == self@.functions.len(),
                cuts@.len() == n,
                gc == cuts@.map_values(|c: i64| c as int),
                j <= n,
                y == self@.peak(gc, x as int, j as nat),
                0 <= y <= ONE,
            decreases n - j,
        {
            proof {
                self@.lemma_peak_bounded(gc, x as int, (j + 1) as nat);
            }
            let d = self.functions[j].1.eval(x);
            let c = if d <= cuts[j] { d } else { cuts[j] };
            if c > y {
                y = c;
            }
            j = j + 1;
        }
        y
    }

    /// Centroid of the union of the membership functions, each clipped at
    /// its label's alpha-cut, sampled at the variable's resolution and
    /// mapped back onto its range; the middle of the range when every
    /// sample is 0. Fails with `LabelCountMismatch` unless there is one cut
    /// per label, and with `UnknownLabel` when a label has no cut.
    pub fn defuzzify(&self, cuts: &Vec<(V, i64)>) -> (r: Result<i64, FuzzyError>)
        ensures
            match self@.defuzzify(cuts@) {
                Ok(v) => r matches Ok(x) && x as int == v && self@.start <= v <= self@.end,
                Err(e) => r == Err::<i64, FuzzyError>(e),
            },
    {
        proof {
            use_type_invariant(self);
        }
        if cuts.len() != self.functions.len() {
            return Err(FuzzyError::LabelCountMismatch);
        }
        let a = match self.align(cuts) {
            Ok(a) => a,
            Err(e) => return Err(e),
        };
        let ghost gc = a@.map_values(|c: i64| c as int);
        assert(gc =~= self@.aligned(cuts@));
        let res = self.resolution;
        let mut mass: i128 = 0;
        let mut moment: i128 = 0;
        let mut i: usize = 0;
        while i < res
            invariant
                res == self@.resolution,
                self@.wf(),
                a@.len() == self@.functions.len(),
                gc == a@.map_values(|c: i64| c as int),
                i <= res,
                mass == self@.mass(gc, i as nat),
                moment == self@.moment(gc, i as nat),
                0 <= mass <= i * ONE,
                0 <= moment <= mass * ONE,
            decreases res - i,
        {
            proof {
                self@.lemma_sample_bounded(i as int);
                self@.lemma_sums_bounded(gc, (i + 1) as nat);
                assert(i * ONE <= MAX_RESOLUTION * ONE) by (nonlinear_arith)
                    requires i <= MAX_RESOLUTION;
                assert(mass * ONE <= MAX_RESOLUTION * ONE * ONE) by (nonlinear_arith)
                    requires mass <= MAX_RESOLUTION * ONE;
            }
            let x: i64 = ((i as i128) * (ONE as i128) / ((res - 1) as i128)) as i64;
            let y = self.peak(&a, x);
            proof {
                assert(0 <= y * x <= ONE * ONE) by (nonlinear_arith)
                    requires 0 <= y <= ONE, 0 <= x <= ONE;
            }
            mass = mass + y as i128;
            moment = moment + (y as i128) * (x as i128);
            i = i + 1;
        }
        let span: i128 = self.end as i128 - self.start as i128;
        if mass == 0 {
            Ok((self.start as i128 + span / 2) as i64)
        } else {
            proof {
                assert(moment * span <= mass * ONE * span) by (nonlinear_arith)
                    requires moment <= mass * ONE, span > 0;
                assert(mass * ONE <= MAX_RESOLUTION * ONE * ONE) by (nonlinear_arith)
                    requires mass <= MAX_RESOLUTION * ONE;
                assert(0 <= moment * span <= MAX_RESOLUTION * ONE * ONE * 0x1_0000_0000_0000_0000)
                    by (nonlinear_arith)
                    requires
                        0 <= moment <= MAX_RESOLUTION * ONE * ONE,
                        0 < span <= 0x1_0000_0000_0000_0000;
                assert(moment * span / (mass * ONE) <= mass * ONE * span / (mass * ONE))
                    by (nonlinear_arith)
                    requires moment * span <= mass * ONE * span, mass > 0;
                assert(mass * ONE * span / (mass * ONE) == span) by (nonlinear_arith)
                    requires mass > 0;
                assert(0 <= moment * span / (mass * ONE)) by (nonlinear_arith)
                    requires 0 <= moment * span, mass > 0;
            }
            let q: i128 = moment * span / (mass * (ONE as i128));
            Ok((self.start as i128 + q) as i64)
        }
    }
}

/// Defuzzification depends on the alpha-cuts only through the cut that
/// each label gets: two lists of cuts of one length that give every label
/// the same cut (in any order) defuzzify to the same outcome. In particular
/// defuzzifying the same cuts twice gives the same value.
pub proof fn lemma_defuzzify_same_cuts<V>(f: FuzzyModel<V>, c1: Seq<(V, i64)>, c2: Seq<(V, i64)>)
    requires
        c1.len() == c2.len(),
        forall|l: V| #[trigger] lookup(c1, l) == lookup(c2, l),
    ensures
        f.defuzzify(c1) == f.defuzzify(c2),
{
    assert(f.aligned(c1) =~= f.aligned(c2));
    if exists|j: int| 0 <= j < f.functions.len() && #[trigger] lookup(c1, f.functions[j].0) is None {
        let j = choose|j: int| 0 <= j < f.functions.len() && #[trigger] lookup(c1, f.functions[j].0) is None;
        assert(lookup(c2, f.functions[j].0) is None);
    }
    if exists|j: int| 0 <= j < f.functions.len() && #[trigger] lookup(c2, f.functions[j].0) is None {
        let j = choose|j: int| 0 <= j < f.functions.len() && #[trigger] lookup(c2, f.functions[j].0) is None;
        assert(lookup(c1, f.functions[j].0) is None);
    }
}

impl<V: Label> Fuzzy<V> {
    /// The labelled membership functions, in their order.
    pub fn functions(&self) -> (r: &Vec<(V, Shape)>)
        ensures
            r@ == self@.functions,
    {
        &self.functions
    }

    /// The variable's display name.
    pub fn name(&self) -> (r: &String) {
        &self.name
    }

    /// The range `(start, end)` of crisp values.
    pub fn range(&self) -> (r: (i64, i64))
        ensures
            r.0 == self@.start,
            r.1 == self@.end,
            r.0 < r.1,
    {
        proof {
            use_type_invariant(self);
        }
        (self.start, self.end)
    }

    /// Number of samples of a defuzzification.
    pub fn resolution(&self) -> (r: usize)
        ensures
            r == self@.resolution,
    {
        self.resolution
    }

    /// Sets the number of samples of a defuzzification.
    pub fn set_resolution(&mut self, resolution: usize)
        requires
            2 <= resolution <= MAX_RESOLUTION,
        ensures
            final(self)@ == (FuzzyModel { resolution: resolution as nat, ..old(self)@ }),
    {
        proof {
            use_type_invariant(&*self);
        }
        self.resolution = resolution;
    }

    /// Whether crisp values outside the range are held at its bounds.
    pub fn clamp(&self) -> (r: bool)
        ensures
            r == self@.clamp,
    {
        self.clamp
    }

    /// Chooses whether crisp values outside the range are held at its
    /// bounds before fuzzification.
    pub fn set_clamp(&mut self, clamp: bool)
        ensures
            final(self)@ == (FuzzyModel { clamp, ..old(self)@ }),
    {
        proof {
            use_type_invariant(&*self);
        }
        self.clamp = clamp;
    }
}

} // verus!
