//! Per-field sampling policies of a composite type, checked when the type is
//! declared, and the order in which the fields are bound.

use vstd::prelude::*;

verus! {

/// What is wrong with a declaration; it is caught before any sampling.
#[derive(Debug, Clone, Copy, PartialEq, Eq, Structural)]
pub enum PolicyError {
    /// A field carries two policies, or a policy together with a transform.
    Conflicting,
    /// Some variants of a sum type declare a weight and others do not.
    InconsistentWeights,
    /// A sum type without variants.
    NoVariants,
}

/// One keyword written on a field.
#[derive(Debug, Clone, Copy, PartialEq, Eq, Structural)]
pub enum Attribute {
    /// Draw uniformly from an explicit range.
    Range,
    /// A collection whose length is an expression over earlier fields.
    Len,
    /// Draw the field's own value, then compute it from an expression.
    After,
    /// The type's default value.
    Default,
    /// A default computed from an expression.
    DefaultWith,
    /// Multiply the drawn value.
    Mul,
    /// Divide the drawn value.
    Div,
    /// Add to the drawn value.
    Add,
    /// Subtract from the drawn value.
    Sub,
}

/// Which arithmetic steps a transform applies to a delegated draw.
#[derive(Debug, Clone, Copy, PartialEq, Eq, Structural)]
pub struct Transform {
    pub mul: bool,
    pub div: bool,
    pub add: bool,
    pub sub: bool,
}

/// How one field gets its value.
#[derive(Debug, Clone, Copy, PartialEq, Eq, Structural)]
pub enum FieldPolicy {
    /// The field type's own sampling.
    Delegate,
    /// A uniform draw from a range.
    Range,
    /// The type's default value.
    Default,
    /// A default computed from already bound fields.
    Computed,
    /// The field's own draw, then an expression over it and earlier fields.
    After,
    /// A collection of independently drawn elements.
    Len,
    /// A delegated draw followed by arithmetic.
    Transform(Transform),
}

/// One arithmetic step of a transform.
#[derive(Debug, Clone, Copy, PartialEq, Eq, Structural)]
pub enum ArithOp {
    Mul,
    Div,
    Add,
    Sub,
}

/// One instruction of a binding plan; the index names the field.
#[derive(Debug, Clone, Copy, PartialEq, Eq, Structural)]
pub enum Binding {
    /// Bind the field from its policy.
    Bind(usize),
    /// Bind the field's own freshly drawn value, just ahead of its expression.
    Draw(usize),
    /// Rebind the field from its expression.
    Finish(usize),
}

pub open spec fn is_transform(a: Attribute) -> bool {
    a == Attribute::Mul || a == Attribute::Div || a == Attribute::Add || a == Attribute::Sub
}

/// The keywords that choose a policy, in order.
pub open spec fn choices(s: Seq<Attribute>) -> Seq<Attribute>
    decreases s.len(),
{
    if s.len() == 0 {
        seq![]
    } else if is_transform(s.last()) {
        choices(s.drop_last())
    } else {
        choices(s.drop_last()).push(s.last())
    }
}

/// The policy that a keyword chooses.
pub open spec fn chosen(a: Attribute) -> FieldPolicy {
    match a {
        Attribute::Range => FieldPolicy::Range,
        Attribute::Len => FieldPolicy::Len,
        Attribute::After => FieldPolicy::After,
        Attribute::Default => FieldPolicy::Default,
        Attribute::DefaultWith => FieldPolicy::Computed,
        _ => FieldPolicy::Delegate,
    }
}

/// The policy of a field with keywords `s`: none means the type's own
/// sampling; one choosing keyword alone gives its policy; transform keywords
/// alone give a transform; anything else conflicts.
pub open spec fn policy_of(s: Seq<Attribute>) -> Result<FieldPolicy, PolicyError> {
    let c = choices(s);
    if s.len() == 0 {
        Ok(FieldPolicy::Delegate)
    } else if c.len() == 0 {
        Ok(
            FieldPolicy::Transform(
                Transform {
                    mul: s.contains(Attribute::Mul),
                    div: s.contains(Attribute::Div),
                    add: s.contains(Attribute::Add),
                    sub: s.contains(Attribute::Sub),
                },
            ),
        )
    } else if c.len() == 1 && s.len() == 1 {
        Ok(chosen(c[0]))
    } else {
        Err(PolicyError::Conflicting)
    }
}

proof fn lemma_choices_len(s: Seq<Attribute>)
    ensures
        choices(s).len() <= s.len(),
        choices(s).len() == s.len() ==> forall|k: int| 0 <= k < s.len() ==> !is_transform(#[trigger] s[k]),
        choices(s).len() == s.len() ==> choices(s) == s,
    decreases s.len(),
{
    if s.len() > 0 {
        lemma_choices_len(s.drop_last());
        if choices(s).len() == s.len() {
            assert(choices(s.drop_last()).len() == s.len() - 1);
            assert(choices(s) =~= s);
        }
    }
}

/// The policy that the keywords `attrs` declare on one field.
pub fn field_policy(attrs: &Vec<Attribute>) -> (r: Result<FieldPolicy, PolicyError>)
    ensures
        r == policy_of(attrs@),
{
    let ghost s = attrs@;
    let mut n_choices: usize = 0;
    let mut first = Attribute::Mul;
    let mut t = Transform { mul: false, div: false, add: false, sub: false };
    let mut i: usize = 0;
    while i < attrs.len()
        invariant
            s == attrs@,
            i <= s.len(),
            n_choices == choices(s.take(i as int)).len(),
            n_choices >= 1 ==> first == choices(s.take(i as int))[0],
            t.mul == s.take(i as int).contains(Attribute::Mul),
            t.div == s.take(i as int).contains(Attribute::Div),
            t.add == s.take(i as int).contains(Attribute::Add),
            t.sub == s.take(i as int).contains(Attribute::Sub),
        decreases s.len() - i,
    {
        let a = attrs[i];
        proof {
            let next = s.take(i + 1);
            assert(next.drop_last() =~= s.take(i as int));
            assert(next.last() == a);
            lemma_choices_len(s.take(i as int));
            assert forall|x: Attribute| next.contains(x) <==> (s.take(i as int).contains(x) || x == a) by {
                if next.contains(x) {
                    let k = choose|k: int| 0 <= k < next.len() && next[k] == x;
                    if k < i {
                        assert(s.take(i as int)[k] == x);
                    }
                }
                if s.take(i as int).contains(x) {
                    let k = choose|k: int| 0 <= k < i && s.take(i as int)[k] == x;
                    assert(next[k] == x);
                }
                if x == a {
                    assert(next[i as int] == x);
                }
            }
        }
        match a {
            Attribute::Mul => t.mul = true,
            Attribute::Div => t.div = true,
            Attribute::Add => t.add = true,
            Attribute::Sub => t.sub = true,
            _ => {
                if n_choices == 0 {
                    first = a;
                }
                n_choices = n_choices + 1;
            },
        }
        i = i + 1;
    }
    proof {
        assert(s.take(s.len() as int) =~= s);
        lemma_choices_len(s);
    }
    if attrs.len() == 0 {
        Ok(FieldPolicy::Delegate)
    } else if n_choices == 0 {
        Ok(FieldPolicy::Transform(t))
    } else if n_choices == 1 && attrs.len() == 1 {
        let p = match first {
            Attribute::Range => FieldPolicy::Range,
            Attribute::Len => FieldPolicy::Len,
            Attribute::After => FieldPolicy::After,
            Attribute::Default => FieldPolicy::Default,
            Attribute::DefaultWith => FieldPolicy::Computed,
            _ => FieldPolicy::Delegate,
        };
        Ok(p)
    } else {
        Err(PolicyError::Conflicting)
    }
}

/// The steps of a transform, in the fixed order multiply, divide, add,
/// subtract, each only where declared.
pub open spec fn transform_steps(t: Transform) -> Seq<ArithOp> {
    (if t.mul { seq![ArithOp::Mul] } else { seq![] }) + (if t.div { seq![ArithOp::Div] } else { seq![] })
        + (if t.add { seq![ArithOp::Add] } else { seq![] }) + (if t.sub { seq![ArithOp::Sub] } else { seq![] })
}

/// The arithmetic steps of `t`, in the order they apply to the draw.
pub fn transform_ops(t: Transform) -> (r: Vec<ArithOp>)
    ensures
        r@ == transform_steps(t),
{
    let mut ops: Vec<ArithOp> = Vec::new();
    if t.mul {
        ops.push(ArithOp::Mul);
    }
    if t.div {
        ops.push(ArithOp::Div);
    }
    if t.add {
        ops.push(ArithOp::Add);
    }
    if t.sub {
        ops.push(ArithOp::Sub);
    }
    assert(ops@ =~= transform_steps(t));
    ops
}

/// The instructions that field `i` with policy `p` contributes to tier `t`:
/// defaults bind first; computed defaults second; all remaining fields last,
/// in declaration order, where an `After` field binds its own draw and right
/// after it the value of its expression.
pub open spec fn tier_entry(p: FieldPolicy, t: int, i: usize) -> Seq<Binding> {
    match p {
        FieldPolicy::Default => if t == 1 { seq![Binding::Bind(i)] } else { seq![] },
        FieldPolicy::Computed => if t == 2 { seq![Binding::Bind(i)] } else { seq![] },
        FieldPolicy::After => if t == 3 {
            seq![Binding::Draw(i), Binding::Finish(i)]
        } else {
            seq![]
        },
        _ => if t == 3 { seq![Binding::Bind(i)] } else { seq![] },
    }
}

/// Tier `t` of the plan over the fields `0..k`, in declaration order.
pub open spec fn tier(p: Seq<FieldPolicy>, t: int, k: nat) -> Seq<Binding>
    decreases k,
{
    if k == 0 {
        seq![]
    } else {
        tier(p, t, (k - 1) as nat) + tier_entry(p[k - 1], t, (k - 1) as usize)
    }
}

/// The whole binding plan: the three tiers one after the other.
pub open spec fn plan_of(p: Seq<FieldPolicy>) -> Seq<Binding> {
    tier(p, 1, p.len()) + tier(p, 2, p.len()) + tier(p, 3, p.len())
}

/// Appends tier `t` of the plan for `policies` to `out`.
fn push_tier(policies: &Vec<FieldPolicy>, t: u8, out: &mut Vec<Binding>)
    requires
        1 <= t <= 3,
    ensures
        final(out)@ == old(out)@ + tier(policies@, t as int, policies@.len()),
{
    let ghost start = out@;
    let mut i: usize = 0;
    while i < policies.len()
        invariant
            1 <= t <= 3,
            i <= policies@.len(),
            out@ == start + tier(policies@, t as int, i as nat),
        decreases policies.len() - i,
    {
        let p = policies[i];
        match p {
            FieldPolicy::Default => {
                if t == 1 {
                    out.push(Binding::Bind(i));
                }
            },
            FieldPolicy::Computed => {
                if t == 2 {
                    out.push(Binding::Bind(i));
                }
            },
            FieldPolicy::After => {
                if t == 3 {
                    out.push(Binding::Draw(i));
                    out.push(Binding::Finish(i));
                }
            },
            _ => {
                if t == 3 {
                    out.push(Binding::Bind(i));
                }
            },
        }
        assert(out@ =~= start + tier(policies@, t as int, (i + 1) as nat));
        i = i + 1;
    }
}

/// The order in which the fields with `policies` are bound: plain defaults
/// first, then computed defaults, then every other field in declaration
/// order, an `After` field by its own draw followed at once by its
/// expression.
pub fn binding_plan(policies: &Vec<FieldPolicy>) -> (r: Vec<Binding>)
    ensures
        r@ == plan_of(policies@),
{
    let mut out: Vec<Binding> = Vec::new();
    push_tier(policies, 1, &mut out);
    push_tier(policies, 2, &mut out);
    push_tier(policies, 3, &mut out);
    assert(out@ =~= plan_of(policies@));
    out
}

/// `e` stands in `s` as a block of consecutive positions starting at `j`.
spec fn block_at(s: Seq<Binding>, j: int, e: Seq<Binding>) -> bool {
    &&& 0 <= j
    &&& j + e.len() <= s.len()
    &&& forall|m: int| 0 <= m < e.len() ==> #[trigger] s[j + m] == e[m]
}

/// Field `i < k` contributes its tier-`t` entry as a block of consecutive
/// positions of `tier(p, t, k)`.
proof fn lemma_tier_holds(p: Seq<FieldPolicy>, t: int, k: nat, i: int)
    requires
        0 <= i < k <= p.len(),
    ensures
        exists|j: int| #[trigger] block_at(tier(p, t, k), j, tier_entry(p[i], t, i as usize)),
    decreases k,
{
    let e = tier_entry(p[i], t, i as usize);
    let prev = tier(p, t, (k - 1) as nat);
    let cur = tier(p, t, k);
    assert(cur == prev + tier_entry(p[k - 1], t, (k - 1) as usize));
    if i == k - 1 {
        let j = prev.len() as int;
        assert(forall|m: int| 0 <= m < e.len() ==> #[trigger] cur[j + m] == e[m]);
        assert(block_at(cur, j, e));
    } else {
        lemma_tier_holds(p, t, (k - 1) as nat, i);
        let j = choose|j: int| #[trigger] block_at(prev, j, e);
        assert forall|m: int| 0 <= m < e.len() implies #[trigger] cur[j + m] == e[m] by {
            assert(prev[j + m] == e[m]);
        }
        assert(block_at(cur, j, e));
    }
}

/// Every field is bound by the plan: a field with an `After` policy by its
/// own draw and, right after it, by its expression; every other field by one
/// `Bind`.
pub proof fn lemma_plan_binds_every_field(p: Seq<FieldPolicy>)
    ensures
        forall|i: int|
            0 <= i < p.len() && p[i] != FieldPolicy::After ==> #[trigger] plan_of(p).contains(
                Binding::Bind(i as usize),
            ),
        forall|i: int|
            0 <= i < p.len() && p[i] == FieldPolicy::After ==> exists|d: int|
                0 <= d && d + 1 < plan_of(p).len() && #[trigger] plan_of(p)[d] == Binding::Draw(i as usize)
                    && plan_of(p)[d + 1] == Binding::Finish(i as usize),
{
    let n = p.len();
    let one = tier(p, 1, n);
    let two = tier(p, 2, n);
    let three = tier(p, 3, n);
    let plan = plan_of(p);
    assert(plan == one + two + three);
    assert forall|i: int| 0 <= i < p.len() && p[i] != FieldPolicy::After implies #[trigger] plan_of(
        p,
    ).contains(Binding::Bind(i as usize)) by {
        let t: int = match p[i] {
            FieldPolicy::Default => 1,
            FieldPolicy::Computed => 2,
            _ => 3,
        };
        let e = tier_entry(p[i], t, i as usize);
        assert(e == seq![Binding::Bind(i as usize)]);
        lemma_tier_holds(p, t, n, i);
        let j = choose|j: int| #[trigger] block_at(tier(p, t, n), j, e);
        assert(tier(p, t, n)[j + 0] == e[0]);
        if t == 1 {
            assert(plan[j] == one[j]);
        } else if t == 2 {
            assert(plan[one.len() + j] == two[j]);
        } else {
            assert(plan[one.len() + two.len() + j] == three[j]);
        }
    }
    assert forall|i: int| 0 <= i < p.len() && p[i] == FieldPolicy::After implies exists|d: int|
        0 <= d && d + 1 < plan_of(p).len() && #[trigger] plan_of(p)[d] == Binding::Draw(i as usize)
            && plan_of(p)[d + 1] == Binding::Finish(i as usize) by {
        let e = tier_entry(p[i], 3, i as usize);
        assert(e == seq![Binding::Draw(i as usize), Binding::Finish(i as usize)]);
        lemma_tier_holds(p, 3, n, i);
        let j = choose|j: int| #[trigger] block_at(three, j, e);
        assert(three[j + 0] == e[0] && three[j + 1] == e[1]);
        let d = one.len() + two.len() + j;
        assert(plan[d] == three[j]);
        assert(plan[d + 1] == three[j + 1]);
    }
}

} // verus!
