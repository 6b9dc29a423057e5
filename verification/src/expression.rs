use vstd::prelude::*;

verus! {

/// The settings of an expression node, shared by its user interface and the
/// node: which inputs are on (x, y, a, b, c, d, then the two signals sig1 and
/// sig2), the formula being edited, and the submitted formula with a flag
/// telling the node to compile it.
pub struct ExpressionConfig {
    pub enabled: [bool; 8],
    pub edit: String,
    pub new_formula: bool,
    pub ready: String,
}

impl ExpressionConfig {
    /// Inputs x and y on, the formula `sin(x + y)` submitted.
    pub fn new() -> (res: Self)
        ensures
            res.enabled@ == seq![true, true, false, false, false, false, false, false],
            res.edit@ == "sin(x + y)"@,
            res.ready@ == "sin(x + y)"@,
            res.new_formula,
    {
        ExpressionConfig {
            enabled: [true, true, false, false, false, false, false, false],
            edit: String::from_str("sin(x + y)"),
            new_formula: true,
            ready: String::from_str("sin(x + y)"),
        }
    }

    /// Submits the edited formula: when it differs from the submitted one it
    /// replaces it and the node is told to compile it.
    pub fn submit(&mut self)
        ensures
            final(self).enabled == old(self).enabled,
            final(self).edit@ == old(self).edit@,
            final(self).ready@ == old(self).edit@,
            final(self).new_formula == (old(self).new_formula || old(self).ready@ != old(
                self,
            ).edit@),
    {
        if self.ready != self.edit {
            self.ready = self.edit.clone();
            self.new_formula = true;
        }
    }
}

/// One of the six variables of the formula and whether it is an input.
pub struct ExprInput {
    pub name: String,
    pub enabled: bool,
}

impl ExprInput {
    /// The variables x, y, a, b, c, d, with x and y enabled.
    pub fn new() -> (res: Vec<ExprInput>)
        ensures
            res@.len() == 6,
            res@[0].name@ == "x"@ && res@[0].enabled,
            res@[1].name@ == "y"@ && res@[1].enabled,
            res@[2].name@ == "a"@ && !res@[2].enabled,
            res@[3].name@ == "b"@ && !res@[3].enabled,
            res@[4].name@ == "c"@ && !res@[4].enabled,
            res@[5].name@ == "d"@ && !res@[5].enabled,
    {
        let mut res: Vec<ExprInput> = Vec::new();
        res.push(ExprInput { name: String::from_str("x"), enabled: true });
        res.push(ExprInput { name: String::from_str("y"), enabled: true });
        res.push(ExprInput { name: String::from_str("a"), enabled: false });
        res.push(ExprInput { name: String::from_str("b"), enabled: false });
        res.push(ExprInput { name: String::from_str("c"), enabled: false });
        res.push(ExprInput { name: String::from_str("d"), enabled: false });
        res
    }
}

/// The number of enabled variables among the first `n`.
pub open spec fn enabled_before(inputs: Seq<ExprInput>, n: int) -> nat
    decreases n,
{
    if n <= 0 {
        0
    } else {
        enabled_before(inputs, n - 1) + if inputs[n - 1].enabled {
            1nat
        } else {
            0nat
        }
    }
}

/// Fewer variables before `w` are enabled than before a later `v` when `w` is.
pub proof fn lemma_enabled_before_bound(inputs: Seq<ExprInput>, w: int, v: int)
    requires
        0 <= w < v <= inputs.len(),
        inputs[w].enabled,
    ensures
        enabled_before(inputs, w) < enabled_before(inputs, v),
    decreases v - w,
{
    if v > w + 1 {
        lemma_enabled_before_bound(inputs, w, v - 1);
    }
}

/// Where each value of an expression node comes from in its input data:
/// `vars[v]` is the data slot of variable `v` (none when it is off), then
/// the slots of the two signals.
pub struct DataSlots {
    pub vars: Vec<Option<usize>>,
    pub sig1: Option<usize>,
    pub sig2: Option<usize>,
}

/// The control state of an expression node: the formula last compiled, its
/// variables and signals, and whether the settings still have to be told
/// the formula after the node was restored from a save.
pub struct Expression {
    pub last_valid_expr: String,
    pub restored: bool,
    pub inputs: Vec<ExprInput>,
    pub sig1: bool,
    pub sig2: bool,
}

/// The inputs the node has differ from those the settings enable.
pub open spec fn differs(e: Expression, config: ExpressionConfig) -> bool {
    e.sig1 != config.enabled@[6] || e.sig2 != config.enabled@[7] || exists|v: int|
        0 <= v < e.inputs@.len() && #[trigger] e.inputs@[v].enabled != config.enabled@[v]
}

/// A new expression node: no formula compiled yet, x and y on, no signal.
pub fn expression() -> (res: Expression)
    ensures
        res.last_valid_expr@ == Seq::<char>::empty(),
        res.restored,
        res.inputs@.len() == 6,
        res.inputs@[0].name@ == "x"@ && res.inputs@[0].enabled,
        res.inputs@[1].name@ == "y"@ && res.inputs@[1].enabled,
        res.inputs@[2].name@ == "a"@ && !res.inputs@[2].enabled,
        res.inputs@[3].name@ == "b"@ && !res.inputs@[3].enabled,
        res.inputs@[4].name@ == "c"@ && !res.inputs@[4].enabled,
        res.inputs@[5].name@ == "d"@ && !res.inputs@[5].enabled,
        !res.sig1,
        !res.sig2,
{
    Expression {
        last_valid_expr: String::new(),
        restored: true,
        inputs: ExprInput::new(),
        sig1: false,
        sig2: false,
    }
}

impl Expression {
    /// The node has its six variables.
    pub open spec fn wf(&self) -> bool {
        self.inputs@.len() == 6
    }

    /// A node read back from a save: the settings have not seen its formula.
    pub fn restore(last_valid_expr: String, inputs: Vec<ExprInput>, sig1: bool, sig2: bool) -> (res: Expression)
        requires
            inputs@.len() == 6,
        ensures
            res.wf(),
            res.last_valid_expr@ == last_valid_expr@,
            !res.restored,
            res.inputs@ == inputs@,
            res.sig1 == sig1,
            res.sig2 == sig2,
    {
        Expression { last_valid_expr, restored: false, inputs, sig1, sig2 }
    }

    /// The formula to compile in this step, if any.
    ///
    /// After a restore the last valid formula is first submitted again. A
    /// submitted formula is taken (the flag drops) and returned.
    pub fn take_formula(&mut self, config: &mut ExpressionConfig) -> (res: Option<String>)
        ensures
            final(self).restored,
            final(self).last_valid_expr@ == old(self).last_valid_expr@,
            final(self).inputs@ == old(self).inputs@,
            final(self).sig1 == old(self).sig1,
            final(self).sig2 == old(self).sig2,
            !final(config).new_formula,
            final(config).enabled == old(config).enabled,
            final(config).edit@ == old(config).edit@,
            !old(self).restored ==> final(config).ready@ == old(self).last_valid_expr@,
            old(self).restored ==> final(config).ready@ == old(config).ready@,
            res matches Some(f) ==> f@ == final(config).ready@,
            res is Some <==> (!old(self).restored || old(config).new_formula),
    {
        if !self.restored {
            self.restored = true;
            config.ready = self.last_valid_expr.clone();
            config.new_formula = true;
        }
        if config.new_formula {
            config.new_formula = false;
            Some(config.ready.clone())
        } else {
            None
        }
    }

    /// The formula compiled: it becomes the last valid one.
    pub fn compiled(&mut self, formula: String)
        ensures
            final(self).last_valid_expr@ == formula@,
            final(self).restored == old(self).restored,
            final(self).inputs@ == old(self).inputs@,
            final(self).sig1 == old(self).sig1,
            final(self).sig2 == old(self).sig2,
    {
        self.last_valid_expr = formula;
    }

    /// The data slot of each variable and signal: enabled inputs take
    /// consecutive slots in order, variables first.
    pub fn data_slots(&self) -> (res: DataSlots)
        requires
            self.wf(),
        ensures
            res.vars@.len() == self.inputs@.len(),
            forall|v: int|
                0 <= v < self.inputs@.len() ==> #[trigger] res.vars@[v] == if self.inputs@[v].enabled {
                    Some(enabled_before(self.inputs@, v) as usize)
                } else {
                    None
                },
            res.sig1 == if self.sig1 {
                Some(enabled_before(self.inputs@, self.inputs@.len() as int) as usize)
            } else {
                None
            },
            res.sig2 == if self.sig2 {
                Some(
                    (enabled_before(self.inputs@, self.inputs@.len() as int) + if self.sig1 {
                        1nat
                    } else {
                        0nat
                    }) as usize,
                )
            } else {
                None
            },
    {
        let mut vars: Vec<Option<usize>> = Vec::new();
        let mut data_idx: usize = 0;
        let mut v: usize = 0;
        while v < self.inputs.len()
            invariant
                v <= self.inputs@.len(),
                data_idx == enabled_before(self.inputs@, v as int),
                data_idx <= v,
                vars@.len() == v,
                forall|w: int|
                    0 <= w < v ==> #[trigger] vars@[w] == if self.inputs@[w].enabled {
                        Some(enabled_before(self.inputs@, w) as usize)
                    } else {
                        None
                    },
            decreases self.inputs.len() - v,
        {
            if self.inputs[v].enabled {
                vars.push(Some(data_idx));
                data_idx = data_idx + 1;
            } else {
                vars.push(None);
            }
            v = v + 1;
        }
        let sig1 = if self.sig1 {
            let s = Some(data_idx);
            data_idx = data_idx + 1;
            s
        } else {
            None
        };
        let sig2 = if self.sig2 {
            Some(data_idx)
        } else {
            None
        };
        DataSlots { vars, sig1, sig2 }
    }

    /// Takes over which inputs the settings enable (the first six flags for
    /// the variables, then sig1 and sig2) and tells whether anything changed,
    /// in which case the node's inputs must be rebuilt.
    pub fn sync_inputs(&mut self, config: &ExpressionConfig) -> (recalc: bool)
        requires
            old(self).wf(),
        ensures
            final(self).wf(),
            forall|v: int|
                0 <= v < 6 ==> (#[trigger] final(self).inputs@[v]).enabled == config.enabled@[v],
            forall|v: int| 0 <= v < 6 ==> (#[trigger] final(self).inputs@[v]).name@ == old(self).inputs@[v].name@,
            final(self).sig1 == config.enabled@[6],
            final(self).sig2 == config.enabled@[7],
            final(self).last_valid_expr@ == old(self).last_valid_expr@,
            final(self).restored == old(self).restored,
            recalc == differs(*old(self), *config),
            !differs(*final(self), *config),
            recalc == (old(self).sig1 != config.enabled@[6] || old(self).sig2 != config.enabled@[7]
                || exists|v: int|
                0 <= v < 6 && #[trigger] old(self).inputs@[v].enabled != config.enabled@[v]),
    {
        let mut recalc = false;
        let mut v: usize = 0;
        while v < self.inputs.len()
            invariant
                old(self).inputs@.len() == 6,
                v <= self.inputs@.len(),
                self.inputs@.len() == old(self).inputs@.len(),
                self.last_valid_expr@ == old(self).last_valid_expr@,
                self.restored == old(self).restored,
                self.sig1 == old(self).sig1,
                self.sig2 == old(self).sig2,
                forall|w: int|
                    0 <= w < v ==> #[trigger] self.inputs@[w].enabled == config.enabled@[w]
                        && self.inputs@[w].name@ == old(self).inputs@[w].name@,
                forall|w: int| v <= w < self.inputs@.len() ==> #[trigger] self.inputs@[w] == old(self).inputs@[w],
                recalc == exists|w: int|
                    0 <= w < v && #[trigger] old(self).inputs@[w].enabled != config.enabled@[w],
            decreases self.inputs.len() - v,
        {
            let ghost prev = self.inputs@;
            let en = config.enabled[v];
            if self.inputs[v].enabled != en {
                recalc = true;
                let name = self.inputs[v].name.clone();
                self.inputs.set(v, ExprInput { name, enabled: en });
            }
            proof {
                assert forall|w: int| 0 <= w < self.inputs@.len() && w != v implies #[trigger] self.inputs@[w] == prev[w] by {}
                assert(self.inputs@[v as int].enabled == config.enabled@[v as int]);
                assert(self.inputs@[v as int].name@ == old(self).inputs@[v as int].name@);
                if old(self).inputs@[v as int].enabled != config.enabled@[v as int] {
                    assert(recalc);
                }
            }
            v = v + 1;
        }
        let ghost looped = self.inputs@;
        assert forall|w: int| 0 <= w < 6 implies (#[trigger] looped[w]).enabled == config.enabled@[w]
            && looped[w].name@ == old(self).inputs@[w].name@ by {
            assert(self.inputs@[w].enabled == config.enabled@[w]);
        }
        let sig1 = config.enabled[6];
        let sig2 = config.enabled[7];
        if self.sig1 != sig1 {
            recalc = true;
            self.sig1 = sig1;
        }
        if self.sig2 != sig2 {
            recalc = true;
            self.sig2 = sig2;
        }
        assert(self.inputs@ == looped);
        assert forall|v: int| 0 <= v < 6 implies (#[trigger] self.inputs@[v]).name@
            =~= old(self).inputs@[v].name@ by {
            assert(looped[v].name@ == old(self).inputs@[v].name@);
        }
        recalc
    }

    /// The names of the node's outputs: the value of the formula, then the
    /// two signals as the formula leaves them.
    pub fn output_names(&self) -> (res: Vec<&'static str>)
        ensures
            res@.map_values(|s: &'static str| s@) == seq!["f(..)"@, "sig1"@, "sig2"@],
    {
        let mut res: Vec<&'static str> = Vec::new();
        res.push("f(..)");
        res.push("sig1");
        res.push("sig2");
        proof {
            assert(res@.map_values(|s: &'static str| s@) =~= seq!["f(..)"@, "sig1"@, "sig2"@]);
        }
        res
    }

    /// The names of the node's inputs: the enabled variables in order, then
    /// the enabled signals.
    pub fn input_names(&self) -> (res: Vec<String>)
        requires
            self.wf(),
        ensures
            res@.len() == enabled_before(self.inputs@, self.inputs@.len() as int) + (if self.sig1 {
                1nat
            } else {
                0nat
            }) + (if self.sig2 {
                1nat
            } else {
                0nat
            }),
            forall|v: int|
                0 <= v < self.inputs@.len() && self.inputs@[v].enabled ==> #[trigger] res@[enabled_before(
                    self.inputs@,
                    v,
                ) as int]@ == self.inputs@[v].name@,
            self.sig1 ==> res@[enabled_before(self.inputs@, self.inputs@.len() as int) as int]@ == "sig1"@,
            self.sig2 ==> res@[res@.len() - 1]@ == "sig2"@,
    {
        let mut res: Vec<String> = Vec::new();
        let mut v: usize = 0;
        while v < self.inputs.len()
            invariant
                v <= self.inputs@.len(),
                res@.len() == enabled_before(self.inputs@, v as int),
                res@.len() <= v,
                forall|w: int|
                    0 <= w < v && self.inputs@[w].enabled ==> #[trigger] res@[enabled_before(
                        self.inputs@,
                        w,
                    ) as int]@ == self.inputs@[w].name@,
            decreases self.inputs.len() - v,
        {
            let ghost before = res@;
            if self.inputs[v].enabled {
                res.push(self.inputs[v].name.clone());
            }
            proof {
                assert(enabled_before(self.inputs@, v + 1) == enabled_before(self.inputs@, v as int) + if self.inputs@[v as int].enabled {
                    1nat
                } else {
                    0nat
                });
                assert forall|w: int|
                    0 <= w < v + 1 && self.inputs@[w].enabled implies #[trigger] res@[enabled_before(
                        self.inputs@,
                        w,
                    ) as int]@ == self.inputs@[w].name@ by {
                    if w < v {
                        lemma_enabled_before_bound(self.inputs@, w, v as int);
                        assert(res@[enabled_before(self.inputs@, w) as int] == before[enabled_before(self.inputs@, w) as int]);
                    }
                }
            }
            v = v + 1;
        }
        let ghost vars_only = res@;
        if self.sig1 {
            res.push(String::from_str("sig1"));
        }
        if self.sig2 {
            res.push(String::from_str("sig2"));
        }
        proof {
            assert forall|w: int|
                0 <= w < self.inputs@.len() && self.inputs@[w].enabled implies #[trigger] res@[enabled_before(
                    self.inputs@,
                    w,
                ) as int]@ == self.inputs@[w].name@ by {
                lemma_enabled_before_bound(self.inputs@, w, self.inputs@.len() as int);
                assert(res@[enabled_before(self.inputs@, w) as int] == vars_only[enabled_before(self.inputs@, w) as int]);
            }
        }
        res
    }
}

/// Enabled variables take distinct slots, in the order of the variables.
pub proof fn law_slots_ascend(inputs: Seq<ExprInput>, v: int, w: int)
    requires
        0 <= v < w < inputs.len(),
        inputs[v].enabled,
        inputs[w].enabled,
    ensures
        enabled_before(inputs, v) < enabled_before(inputs, w),
{
    lemma_enabled_before_bound(inputs, v, w);
}

/// The node's inputs differ from its settings exactly when one of the eight
/// flags (the six variables, then sig1 and sig2) disagrees: switching any
/// one of them, the signals included, asks for the inputs to be rebuilt.
pub proof fn law_any_flag_change_rebuilds(e: Expression, config: ExpressionConfig)
    requires
        e.wf(),
    ensures
        differs(e, config) <==> (e.sig1 != config.enabled@[6] || e.sig2 != config.enabled@[7] || exists|v: int|
            0 <= v < 6 && #[trigger] e.inputs@[v].enabled != config.enabled@[v]),
        e.sig2 != config.enabled@[7] ==> differs(e, config),
        e.sig1 != config.enabled@[6] ==> differs(e, config),
        forall|v: int| 0 <= v < 6 && #[trigger] e.inputs@[v].enabled != config.enabled@[v] ==> differs(e, config),
{
}

} // verus!
