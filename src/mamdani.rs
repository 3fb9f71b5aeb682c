//! Mamdani inference: fuzzify the measurements, evaluate every rule,
//! aggregate the rule strengths per output label by maximum and defuzzify
//! the output variable.
use vstd::prelude::*;
use crate::{FuzzyError, Label, ONE};
use crate::funcs::degree;
use crate::fuzzy::{Fuzzy, FuzzyModel};
use crate::rules::{
    degrees_in_range, eval, keys, lemma_eval_defined, lemma_uses_only_widen, uses_only, InputType, Inputs,
    Outputs, Rule,
};
use crate::table::{lemma_lookup_some, lookup};

verus! {

/// A rule set with its input variables and its single output variable.
pub struct Mamdani {
    /// Each rule with the output label that it fires.
    pub rules: Vec<(Rule, Outputs)>,
    /// The input variables, by the quantity that they measure.
    pub inputs: Vec<(InputType, Fuzzy<Inputs>)>,
    pub output: Fuzzy<Outputs>,
}

/// No two input variables measure the same quantity.
pub open spec fn distinct_quantities(inputs: Seq<(InputType, Fuzzy<Inputs>)>) -> bool {
    forall|i: int, j: int| 0 <= i < j < inputs.len() ==> #[trigger] inputs[i].0 != #[trigger] inputs[j].0
}

/// Index of the first variable for quantity `t`.
pub open spec fn var_index(inputs: Seq<(InputType, Fuzzy<Inputs>)>, t: InputType) -> Option<int>
    decreases inputs.len(),
{
    if inputs.len() == 0 {
        None
    } else {
        match var_index(inputs.drop_last(), t) {
            Some(i) => Some(i),
            None => if inputs.last().0 == t {
                Some(inputs.len() - 1)
            } else {
                None
            },
        }
    }
}

/// The degrees of every label of `f` at the crisp value `x`.
pub open spec fn fuzzified<V>(f: FuzzyModel<V>, x: int) -> Seq<(V, i64)> {
    Seq::new(
        f.functions.len(),
        |j: int| (f.functions[j].0, degree(f.functions[j].1, f.normalize(x)) as i64),
    )
}

/// The table of degrees that the measurements yield, in their order, or
/// `None` when one names a quantity without variable.
pub open spec fn fuzzify_all(
    inputs: Seq<(InputType, Fuzzy<Inputs>)>,
    crisp: Seq<(InputType, i64)>,
) -> Option<Seq<(Inputs, i64)>>
    decreases crisp.len(),
{
    if crisp.len() == 0 {
        Some(Seq::empty())
    } else {
        match (fuzzify_all(inputs, crisp.drop_last()), var_index(inputs, crisp.last().0)) {
            (Some(t), Some(i)) => Some(t + fuzzified(inputs[i].1@, crisp.last().1 as int)),
            _ => None,
        }
    }
}

/// Largest strength of the first `n` rules that fire `label`; 0 if none does.
pub open spec fn aggregate(rules: Seq<(Rule, Outputs)>, table: Seq<(Inputs, i64)>, label: Outputs, n: nat) -> int
    decreases n,
{
    if n == 0 {
        0
    } else {
        let prev = aggregate(rules, table, label, (n - 1) as nat);
        let s = match eval(rules[n - 1].0, table) {
            Some(v) => v,
            None => 0,
        };
        if rules[n - 1].1 == label && s > prev { s } else { prev }
    }
}

/// The alpha-cut of every output label.
pub open spec fn cuts(rules: Seq<(Rule, Outputs)>, table: Seq<(Inputs, i64)>, out: Seq<(Outputs, crate::funcs::Shape)>) -> Seq<(Outputs, i64)> {
    Seq::new(out.len(), |j: int| (out[j].0, aggregate(rules, table, out[j].0, rules.len()) as i64))
}

pub open spec fn has_label(out: Seq<(Outputs, crate::funcs::Shape)>, l: Outputs) -> bool {
    exists|j: int| 0 <= j < out.len() && #[trigger] out[j].0 == l
}

impl Mamdani {
    /// Outcome of inferring from the measurements `crisp`.
    pub open spec fn infer_spec(self, crisp: Seq<(InputType, i64)>) -> Result<int, FuzzyError> {
        let rules = self.rules@;
        if !distinct_quantities(self.inputs@) {
            Err(FuzzyError::DuplicateInput)
        } else {
        match fuzzify_all(self.inputs@, crisp) {
            None => Err(FuzzyError::UnknownInput),
            Some(t) => if exists|k: int| 0 <= k < rules.len() && #[trigger] eval(rules[k].0, t) is None {
                Err(FuzzyError::UnknownAtom)
            } else if exists|k: int|
                0 <= k < rules.len() && !has_label(self.output@.functions, #[trigger] rules[k].1) {
                Err(FuzzyError::UnknownLabel)
            } else {
                self.output@.defuzzify(cuts(rules, t, self.output@.functions))
            },
        }
        }
    }
}

proof fn lemma_var_index_found(s: Seq<(InputType, Fuzzy<Inputs>)>, i: int, m: int, t: InputType)
    requires
        0 <= i < m <= s.len(),
        var_index(s.subrange(0, i), t) is None,
        s[i].0 == t,
    ensures
        var_index(s.subrange(0, m), t) == Some(i),
    decreases m - i,
{
    if m == i + 1 {
        assert(s.subrange(0, m).drop_last() =~= s.subrange(0, i));
    } else {
        lemma_var_index_found(s, i, m - 1, t);
        assert(s.subrange(0, m).drop_last() =~= s.subrange(0, m - 1));
    }
}

proof fn lemma_fuzzify_all_missing(
    inputs: Seq<(InputType, Fuzzy<Inputs>)>,
    crisp: Seq<(InputType, i64)>,
    m: int,
)
    requires
        0 <= m <= crisp.len(),
        fuzzify_all(inputs, crisp.subrange(0, m)) is None,
    ensures
        fuzzify_all(inputs, crisp) is None,
    decreases crisp.len() - m,
{
    if m < crisp.len() {
        assert(crisp.subrange(0, m + 1).drop_last() =~= crisp.subrange(0, m));
        lemma_fuzzify_all_missing(inputs, crisp, m + 1);
    } else {
        assert(crisp.subrange(0, m) =~= crisp);
    }
}

/// The aggregated cuts hold one cut for each output label, so they are
/// always accepted by the output variable's defuzzification.
pub proof fn lemma_cuts_accepted(
    out: FuzzyModel<Outputs>,
    rules: Seq<(Rule, Outputs)>,
    table: Seq<(Inputs, i64)>,
)
    ensures
        out.defuzzify(cuts(rules, table, out.functions)) is Ok,
{
    let c = cuts(rules, table, out.functions);
    assert forall|j: int| 0 <= j < out.functions.len() implies #[trigger] lookup(c, out.functions[j].0) is Some by {
        lemma_lookup_some(c, j);
    }
}

impl Mamdani {
    /// Position of the variable that measures `t`.
    fn find_var(&self, t: InputType) -> (r: Option<usize>)
        ensures
            r matches Some(i) ==> i < self.inputs@.len() && var_index(self.inputs@, t) == Some(i as int),
            r is None ==> var_index(self.inputs@, t) is None,
    {
        let n = self.inputs.len();
        let mut i: usize = 0;
        while i < n
            invariant
                n == self.inputs@.len(),
                i <= n,
                var_index(self.inputs@.subrange(0, i as int), t) is None,
            decreases n - i,
        {
            if self.inputs[i].0 == t {
                proof {
                    lemma_var_index_found(self.inputs@, i as int, n as int, t);
                    assert(self.inputs@.subrange(0, n as int) =~= self.inputs@);
                }
                return Some(i);
            }
            proof {
                assert(self.inputs@.subrange(0, i + 1).drop_last() =~= self.inputs@.subrange(0, i as int));
            }
            i = i + 1;
        }
        assert(self.inputs@.subrange(0, n as int) =~= self.inputs@);
        None
    }

    /// Whether no two input variables measure the same quantity.
    fn quantities_distinct(&self) -> (r: bool)
        ensures
            r == distinct_quantities(self.inputs@),
    {
        let n = self.inputs.len();
        let mut i: usize = 0;
        while i < n
            invariant
                n == self.inputs@.len(),
                i <= n,
                forall|p: int, q: int|
                    0 <= p < q < n && p < i ==> #[trigger] self.inputs@[p].0 != #[trigger] self.inputs@[q].0,
            decreases n - i,
        {
            let mut j: usize = i + 1;
            while j < n
                invariant
                    n == self.inputs@.len(),
                    i < n,
                    i + 1 <= j <= n,
                    forall|p: int, q: int|
                        0 <= p < q < n && p < i ==> #[trigger] self.inputs@[p].0 != #[trigger] self.inputs@[q].0,
                    forall|q: int| i < q < j ==> self.inputs@[i as int].0 != #[trigger] self.inputs@[q].0,
                decreases n - j,
            {
                if self.inputs[i].0 == self.inputs[j].0 {
                    return false;
                }
                j = j + 1;
            }
            i = i + 1;
        }
        true
    }

    /// Fuzzifies every measurement through its variable and gathers the
    /// degrees of all their labels in one table; fails with `DuplicateInput`
    /// when two variables measure the same quantity and with `UnknownInput`
    /// when a measurement has no variable.
    pub fn fuzzify(&self, crisp: &[(InputType, i64)]) -> (r: Result<Vec<(Inputs, i64)>, FuzzyError>)
        ensures
            !distinct_quantities(self.inputs@) ==> r == Err::<Vec<(Inputs, i64)>, FuzzyError>(
                FuzzyError::DuplicateInput,
            ),
            distinct_quantities(self.inputs@) ==> match fuzzify_all(self.inputs@, crisp@) {
                Some(t) => r matches Ok(v) && v@ == t && degrees_in_range(t),
                None => r == Err::<Vec<(Inputs, i64)>, FuzzyError>(FuzzyError::UnknownInput),
            },
    {
        if !self.quantities_distinct() {
            return Err(FuzzyError::DuplicateInput);
        }
        let n = crisp.len();
        let mut table: Vec<(Inputs, i64)> = Vec::new();
        let mut i: usize = 0;
        assert(crisp@.subrange(0, 0) =~= Seq::<(InputType, i64)>::empty());
        while i < n
            invariant
                n == crisp@.len(),
                i <= n,
                distinct_quantities(self.inputs@),
                fuzzify_all(self.inputs@, crisp@.subrange(0, i as int)) == Some(table@),
                degrees_in_range(table@),
            decreases n - i,
        {
            proof {
                assert(crisp@.subrange(0, i + 1).drop_last() =~= crisp@.subrange(0, i as int));
            }
            let (t, x) = crisp[i];
            match self.find_var(t) {
                Some(k) => {
                    let mut d = self.inputs[k].1.fuzzify(x);
                    proof {
                        assert(d@ =~= fuzzified(self.inputs@[k as int].1@, x as int));
                    }
                    let ghost before = table@;
                    let ghost added = d@;
                    table.append(&mut d);
                    proof {
                        assert(table@ =~= before + added);
                        let pre = crisp@.subrange(0, i + 1);
                        assert(pre.last() == (t, x));
                        assert(fuzzify_all(self.inputs@, pre) == Some(before + added));
                        assert forall|j: int| 0 <= j < table@.len() implies 0 <= #[trigger] table@[j].1 <= ONE by {
                            if j >= before.len() {
                                assert(table@[j] == added[j - before.len()]);
                            }
                        }
                    }
                },
                None => {
                    proof {
                        lemma_fuzzify_all_missing(self.inputs@, crisp@, i + 1);
                    }
                    return Err(FuzzyError::UnknownInput);
                },
            }
            i = i + 1;
        }
        assert(crisp@.subrange(0, n as int) =~= crisp@);
        Ok(table)
    }
}

impl Mamdani {
    /// The strength of every rule against `table`; fails with `UnknownAtom`
    /// when a rule names an atom that the table lacks.
    fn strengths(&self, table: &Vec<(Inputs, i64)>) -> (r: Result<Vec<i64>, FuzzyError>)
        requires
            degrees_in_range(table@),
        ensures
            match r {
                Ok(s) => s@.len() == self.rules@.len() && forall|k: int|
                    0 <= k < s@.len() ==> #[trigger] eval(self.rules@[k].0, table@) == Some(s@[k] as int)
                        && 0 <= s@[k] <= ONE,
                Err(e) => e == FuzzyError::UnknownAtom && exists|k: int|
                    0 <= k < self.rules@.len() && #[trigger] eval(self.rules@[k].0, table@) is None,
            },
    {
        let n = self.rules.len();
        let mut s: Vec<i64> = Vec::with_capacity(n);
        let mut k: usize = 0;
        while k < n
            invariant
                n == self.rules@.len(),
                degrees_in_range(table@),
                k <= n,
                s@.len() == k,
                forall|q: int|
                    0 <= q < k ==> #[trigger] eval(self.rules@[q].0, table@) == Some(s@[q] as int)
                        && 0 <= s@[q] <= ONE,
            decreases n - k,
        {
            match self.rules[k].0.resolve(table) {
                Ok(v) => s.push(v),
                Err(e) => {
                    assert(eval(self.rules@[k as int].0, table@) is None);
                    return Err(e);
                },
            }
            k = k + 1;
        }
        Ok(s)
    }

    /// Whether every rule fires a label of the output variable.
    fn labels_known(&self) -> (r: bool)
        ensures
            r == forall|k: int| 0 <= k < self.rules@.len() ==> has_label(self.output@.functions, #[trigger] self.rules@[k].1),
    {
        let out = self.output.functions();
        let n = self.rules.len();
        let m = out.len();
        let mut k: usize = 0;
        while k < n
            invariant
                n == self.rules@.len(),
                m == out@.len(),
                out@ == self.output@.functions,
                k <= n,
                forall|q: int| 0 <= q < k ==> has_label(out@, #[trigger] self.rules@[q].1),
            decreases n - k,
        {
            let mut j: usize = 0;
            let mut found = false;
            while j < m
                invariant
                    m == out@.len(),
                    k < n,
                    n == self.rules@.len(),
                    j <= m,
                    found == exists|p: int| 0 <= p < j && #[trigger] out@[p].0 == self.rules@[k as int].1,
                decreases m - j,
            {
                if out[j].0.same(&self.rules[k].1) {
                    found = true;
                }
                j = j + 1;
            }
            if !found {
                assert(!has_label(out@, self.rules@[k as int].1));
                return false;
            }
            k = k + 1;
        }
        true
    }

    /// The alpha-cut of every output label: the strongest rule firing it.
    fn aggregate(&self, table: Ghost<Seq<(Inputs, i64)>>, s: &Vec<i64>) -> (r: Vec<(Outputs, i64)>)
        requires
            s@.len() == self.rules@.len(),
            forall|k: int|
                0 <= k < s@.len() ==> #[trigger] eval(self.rules@[k].0, table@) == Some(s@[k] as int)
                    && 0 <= s@[k] <= ONE,
        ensures
            r@ == cuts(self.rules@, table@, self.output@.functions),
    {
        let out = self.output.functions();
        let n = self.rules.len();
        let m = out.len();
        let mut r: Vec<(Outputs, i64)> = Vec::with_capacity(m);
        let mut j: usize = 0;
        while j < m
            invariant
                n == self.rules@.len(),
                m == out@.len(),
                out@ == self.output@.functions,
                s@.len() == n,
                forall|k: int|
                    0 <= k < s@.len() ==> #[trigger] eval(self.rules@[k].0, table@) == Some(s@[k] as int)
                        && 0 <= s@[k] <= ONE,
                j <= m,
                r@.len() == j,
                forall|p: int| 0 <= p < j ==> #[trigger] r@[p] == cuts(self.rules@, table@, out@)[p],
            decreases m - j,
        {
            let label = out[j].0;
            let mut c: i64 = 0;
            let mut k: usize = 0;
            while k < n
                invariant
                    n == self.rules@.len(),
                    s@.len() == n,
                    forall|q: int|
                        0 <= q < s@.len() ==> #[trigger] eval(self.rules@[q].0, table@) == Some(s@[q] as int)
                            && 0 <= s@[q] <= ONE,
                    k <= n,
                    c == aggregate(self.rules@, table@, label, k as nat),
                decreases n - k,
            {
                if self.rules[k].1.same(&label) && s[k] > c {
                    c = s[k];
                }
                k = k + 1;
            }
            r.push((label, c));
            j = j + 1;
        }
        assert(r@ =~= cuts(self.rules@, table@, self.output@.functions));
        r
    }

    /// Fuzzifies the measurements, evaluates every rule, takes for each
    /// output label the strongest rule that fires it (0 when none does) and
    /// defuzzifies the output variable with those alpha-cuts.
    pub fn infer(&self, crisp: &[(InputType, i64)]) -> (r: Result<i64, FuzzyError>)
        ensures
            match self.infer_spec(crisp@) {
                Ok(v) => r matches Ok(x) && x as int == v && self.output@.start <= v <= self.output@.end,
                Err(e) => r == Err::<i64, FuzzyError>(e),
            },
    {
        let table = match self.fuzzify(crisp) {
            Ok(t) => t,
            Err(e) => return Err(e),
        };
        let s = match self.strengths(&table) {
            Ok(s) => s,
            Err(e) => return Err(e),
        };
        if !self.labels_known() {
            return Err(FuzzyError::UnknownLabel);
        }
        let c = self.aggregate(Ghost(table@), &s);
        self.output.defuzzify(&c)
    }
}

/// A controller infers a value whenever its variables measure distinct
/// quantities, every measurement has a variable,
/// every atom of every rule is a label of a measured variable, and every
/// rule fires a label of the output variable.
pub proof fn lemma_infer_succeeds(m: Mamdani, crisp: Seq<(InputType, i64)>)
    requires
        distinct_quantities(m.inputs@),
        fuzzify_all(m.inputs@, crisp) matches Some(t) && forall|k: int|
            0 <= k < m.rules@.len() ==> uses_only(#[trigger] m.rules@[k].0, keys(t)),
        forall|k: int| 0 <= k < m.rules@.len() ==> has_label(m.output@.functions, #[trigger] m.rules@[k].1),
    ensures
        m.infer_spec(crisp) is Ok,
{
    let t = fuzzify_all(m.inputs@, crisp)->Some_0;
    assert forall|k: int| 0 <= k < m.rules@.len() implies #[trigger] eval(m.rules@[k].0, t) is Some by {
        lemma_eval_defined(m.rules@[k].0, t);
    }
    lemma_cuts_accepted(m.output@, m.rules@, t);
}

/// The labels of all input variables of `m`.
pub open spec fn input_labels(m: Mamdani) -> Set<Inputs> {
    Set::new(
        |l: Inputs|
            exists|i: int, j: int|
                0 <= i < m.inputs@.len() && 0 <= j < m.inputs@[i].1@.functions.len()
                    && #[trigger] m.inputs@[i].1@.functions[j].0 == l,
    )
}

/// `m` has one variable for each of the distinct quantities `types`, in
/// their order; its rules name only labels of its input variables and fire
/// only labels of its output variable.
pub open spec fn configured_for(m: Mamdani, types: Seq<InputType>) -> bool {
    &&& m.inputs@.len() == types.len()
    &&& forall|i: int| 0 <= i < types.len() ==> #[trigger] m.inputs@[i].0 == types[i]
    &&& forall|i: int, j: int| 0 <= i < j < types.len() ==> #[trigger] types[i] != #[trigger] types[j]
    &&& forall|k: int| 0 <= k < m.rules@.len() ==> uses_only(#[trigger] m.rules@[k].0, input_labels(m))
    &&& forall|k: int| 0 <= k < m.rules@.len() ==> has_label(m.output@.functions, #[trigger] m.rules@[k].1)
}

proof fn lemma_var_index_of_distinct(s: Seq<(InputType, Fuzzy<Inputs>)>, i: int)
    requires
        0 <= i < s.len(),
        forall|p: int, q: int| 0 <= p < q < s.len() ==> #[trigger] s[p].0 != #[trigger] s[q].0,
    ensures
        var_index(s, s[i].0) == Some(i),
    decreases s.len(),
{
    if i < s.len() - 1 {
        let d = s.drop_last();
        assert forall|p: int, q: int| 0 <= p < q < d.len() implies #[trigger] d[p].0 != #[trigger] d[q].0 by {
            assert(s[p].0 != s[q].0);
        }
        lemma_var_index_of_distinct(d, i);
    } else {
        assert forall|p: int| 0 <= p < s.len() - 1 implies s[p].0 != s[i].0 by {}
        lemma_var_index_none(s.drop_last(), s[i].0);
    }
}

proof fn lemma_var_index_none(s: Seq<(InputType, Fuzzy<Inputs>)>, t: InputType)
    requires
        forall|p: int| 0 <= p < s.len() ==> s[p].0 != t,
    ensures
        var_index(s, t) is None,
    decreases s.len(),
{
    if s.len() > 0 {
        lemma_var_index_none(s.drop_last(), t);
    }
}

/// Measuring the quantities of a controller configured for them, in their
/// order, yields a table that holds every label of its input variables.
proof fn lemma_fuzzify_all_covers(m: Mamdani, types: Seq<InputType>, crisp: Seq<(InputType, i64)>, n: int)
    requires
        configured_for(m, types),
        crisp.len() == types.len(),
        forall|i: int| 0 <= i < crisp.len() ==> #[trigger] crisp[i].0 == types[i],
        0 <= n <= crisp.len(),
    ensures
        fuzzify_all(m.inputs@, crisp.subrange(0, n)) matches Some(t) && forall|i: int, j: int|
            0 <= i < n && 0 <= j < m.inputs@[i].1@.functions.len() ==> keys(t).contains(
                #[trigger] m.inputs@[i].1@.functions[j].0,
            ),
    decreases n,
{
    let s = m.inputs@;
    if n == 0 {
        assert(crisp.subrange(0, 0) =~= Seq::<(InputType, i64)>::empty());
    } else {
        lemma_fuzzify_all_covers(m, types, crisp, n - 1);
        let pre = crisp.subrange(0, n);
        assert(pre.drop_last() =~= crisp.subrange(0, n - 1));
        assert forall|p: int, q: int| 0 <= p < q < s.len() implies #[trigger] s[p].0 != #[trigger] s[q].0 by {
            assert(types[p] != types[q]);
        }
        assert(s[n - 1].0 == crisp[n - 1].0);
        lemma_var_index_of_distinct(s, n - 1);
        let prev = fuzzify_all(s, crisp.subrange(0, n - 1))->Some_0;
        let add = fuzzified(s[n - 1].1@, crisp[n - 1].1 as int);
        let t = prev + add;
        assert(fuzzify_all(s, pre) == Some(t));
        assert forall|i: int, j: int|
            0 <= i < n && 0 <= j < s[i].1@.functions.len() implies keys(t).contains(
                #[trigger] s[i].1@.functions[j].0,
            ) by {
            let l = s[i].1@.functions[j].0;
            if i < n - 1 {
                assert(keys(prev).contains(l));
                let q = choose|q: int| 0 <= q < prev.len() && #[trigger] prev[q].0 == l;
                assert(t[q].0 == l);
            } else {
                assert(t[prev.len() + j].0 == l);
            }
        }
    }
}

/// A controller configured for the quantities that it is given, in their
/// order, always infers a value.
pub proof fn lemma_configured_infers(m: Mamdani, types: Seq<InputType>, crisp: Seq<(InputType, i64)>)
    requires
        configured_for(m, types),
        crisp.len() == types.len(),
        forall|i: int| 0 <= i < crisp.len() ==> #[trigger] crisp[i].0 == types[i],
    ensures
        m.infer_spec(crisp) is Ok,
{
    lemma_fuzzify_all_covers(m, types, crisp, crisp.len() as int);
    assert(crisp.subrange(0, crisp.len() as int) =~= crisp);
    let t = fuzzify_all(m.inputs@, crisp)->Some_0;
    assert(input_labels(m).subset_of(keys(t)));
    assert forall|k: int| 0 <= k < m.rules@.len() implies uses_only(#[trigger] m.rules@[k].0, keys(t)) by {
        lemma_uses_only_widen(m.rules@[k].0, input_labels(m), keys(t));
    }
    lemma_infer_succeeds(m, crisp);
}

} // verus!
