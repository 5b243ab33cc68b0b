use csta::{
    binding_plan, field_policy, sample_n, transform_ops, uniform_index, ArithOp, Attribute, Binding,
    FieldPolicy, Ising, MonteCarlo, PolicyError, Randomizable, Spin, Transform, VariantStrategy,
    WeightTable,
};
use rand::rngs::StdRng;
use rand::SeedableRng;

fn strategy(weights: Vec<Option<u32>>) -> VariantStrategy {
    VariantStrategy::from_declarations(&weights).expect("a consistent declaration")
}

#[test]
fn one_positive_weight_always_wins() {
    let s = strategy(vec![Some(1), Some(0), Some(0)]);
    let mut rng = StdRng::seed_from_u64(21);
    let firsts = (0..10_000).filter(|_| s.pick(&mut rng) == 0).count();
    assert!(firsts * 100 > 99 * 10_000);
    assert_eq!(firsts, 10_000);
}

#[test]
fn all_zero_weights_fall_back_to_the_first_variant() {
    let s = strategy(vec![Some(0), Some(0), Some(0)]);
    let mut rng = StdRng::seed_from_u64(22);
    let untouched = rng.clone();
    assert!((0..10_000).all(|_| s.pick(&mut rng) == 0));
    assert_eq!(rng, untouched);
}

#[test]
fn sample_n_draws_exactly_n_items() {
    let mut rng = StdRng::seed_from_u64(30);
    let spins: Vec<Spin> = sample_n(&mut rng, 37);
    assert_eq!(spins.len(), 37);
    assert!(spins.contains(&Spin::Up) && spins.contains(&Spin::Down));
    let none: Vec<Spin> = sample_n(&mut rng, 0);
    assert!(none.is_empty());
}

#[test]
fn weighted_buckets_are_half_open() {
    let t = WeightTable::new(vec![1, 2, 0, 3]).unwrap();
    assert_eq!(t.len(), 4);
    assert_eq!(t.total(), 6);
    let picks: Vec<usize> = (0..6).map(|x| t.select(x)).collect();
    assert_eq!(picks, vec![0, 1, 1, 3, 3, 3]);
    assert!(WeightTable::new(vec![]).is_none());
}

#[test]
fn weighted_draws_follow_the_weights() {
    let s = strategy(vec![Some(1), Some(0), Some(3)]);
    let mut rng = StdRng::seed_from_u64(23);
    let mut counts = [0usize; 3];
    for _ in 0..8_000 {
        counts[s.pick(&mut rng)] += 1;
    }
    assert_eq!(counts[1], 0);
    assert!(counts[0] > 1_700 && counts[0] < 2_300);
}

#[test]
fn declarations_must_agree_on_weights() {
    assert_eq!(
        VariantStrategy::from_declarations(&vec![Some(1), None]).err(),
        Some(PolicyError::InconsistentWeights)
    );
    assert_eq!(
        VariantStrategy::from_declarations(&vec![None, None, Some(2)]).err(),
        Some(PolicyError::InconsistentWeights)
    );
    assert_eq!(VariantStrategy::from_declarations(&vec![]).err(), Some(PolicyError::NoVariants));
    assert!(matches!(strategy(vec![None, None, None]), VariantStrategy::Uniform(3)));
    assert!(matches!(strategy(vec![Some(2), Some(5)]), VariantStrategy::Weighted(_)));
}

#[test]
fn uniform_choice_reaches_every_variant() {
    let s = strategy(vec![None, None, None]);
    let mut rng = StdRng::seed_from_u64(24);
    let mut seen = [false; 3];
    for _ in 0..300 {
        seen[s.pick(&mut rng)] = true;
        assert!(uniform_index(&mut rng, 5) < 5);
    }
    assert_eq!(seen, [true, true, true]);
}

#[test]
fn same_seed_samples_the_same_instances() {
    let mut a = StdRng::seed_from_u64(99);
    let mut b = StdRng::seed_from_u64(99);
    for _ in 0..50 {
        let x: (Spin, Spin, Spin, Spin, Spin, Spin, Spin, Spin) = Randomizable::sample(&mut a);
        let y: (Spin, Spin, Spin, Spin, Spin, Spin, Spin, Spin) = Randomizable::sample(&mut b);
        assert_eq!(x, y);
    }
    let p = <(Ising, Spin)>::sample(&mut StdRng::seed_from_u64(5));
    let q = <(Ising, Spin)>::sample(&mut StdRng::seed_from_u64(5));
    assert_eq!(p.0.states(), q.0.states());
    assert_eq!(p.1, q.1);
}

#[test]
fn monte_carlo_never_ends_and_repeats_under_a_seed() {
    let mut a: MonteCarlo<Ising> = MonteCarlo::new(StdRng::seed_from_u64(8));
    let mut b: MonteCarlo<Ising> = MonteCarlo::new(StdRng::seed_from_u64(8));
    for _ in 0..10 {
        let x = a.next().unwrap();
        let y = b.next().unwrap();
        assert_eq!(x.states(), y.states());
        assert_eq!(x.states().len(), x.width() * x.height());
    }
    let mut spins: MonteCarlo<Spin> = MonteCarlo::new(StdRng::seed_from_u64(1));
    assert!(spins.next().is_some());
}

#[test]
fn field_policies_from_keywords() {
    assert_eq!(field_policy(&vec![]), Ok(FieldPolicy::Delegate));
    assert_eq!(field_policy(&vec![Attribute::Default]), Ok(FieldPolicy::Default));
    assert_eq!(field_policy(&vec![Attribute::DefaultWith]), Ok(FieldPolicy::Computed));
    assert_eq!(field_policy(&vec![Attribute::Range]), Ok(FieldPolicy::Range));
    assert_eq!(field_policy(&vec![Attribute::Len]), Ok(FieldPolicy::Len));
    assert_eq!(field_policy(&vec![Attribute::After]), Ok(FieldPolicy::After));
    assert_eq!(
        field_policy(&vec![Attribute::Add, Attribute::Mul]),
        Ok(FieldPolicy::Transform(Transform { mul: true, div: false, add: true, sub: false }))
    );
}

#[test]
fn conflicting_keywords_are_rejected() {
    assert_eq!(field_policy(&vec![Attribute::Default, Attribute::Mul]), Err(PolicyError::Conflicting));
    assert_eq!(field_policy(&vec![Attribute::Sub, Attribute::After]), Err(PolicyError::Conflicting));
    assert_eq!(field_policy(&vec![Attribute::Range, Attribute::Len]), Err(PolicyError::Conflicting));
    assert_eq!(field_policy(&vec![Attribute::Default, Attribute::Default]), Err(PolicyError::Conflicting));
}

#[test]
fn transforms_apply_in_fixed_order() {
    let all = Transform { mul: true, div: true, add: true, sub: true };
    assert_eq!(transform_ops(all), vec![ArithOp::Mul, ArithOp::Div, ArithOp::Add, ArithOp::Sub]);
    let some = Transform { mul: false, div: true, add: false, sub: true };
    assert_eq!(transform_ops(some), vec![ArithOp::Div, ArithOp::Sub]);
    let none = Transform { mul: false, div: false, add: false, sub: false };
    assert!(transform_ops(none).is_empty());
}

#[test]
fn fields_bind_in_three_tiers() {
    // width = default, height = range, states = len(width * height)
    let lattice = vec![FieldPolicy::Default, FieldPolicy::Range, FieldPolicy::Len];
    assert_eq!(binding_plan(&lattice), vec![Binding::Bind(0), Binding::Bind(1), Binding::Bind(2)]);

    let mixed = vec![
        FieldPolicy::After,
        FieldPolicy::Default,
        FieldPolicy::Computed,
        FieldPolicy::Delegate,
        FieldPolicy::Len,
    ];
    assert_eq!(
        binding_plan(&mixed),
        vec![
            Binding::Bind(1),
            Binding::Bind(2),
            Binding::Draw(0),
            Binding::Finish(0),
            Binding::Bind(3),
            Binding::Bind(4),
        ]
    );
}

#[test]
fn particle_fields_bind_defaults_first() {
    let scale = Transform { mul: true, div: false, add: false, sub: false };
    let particle = vec![
        FieldPolicy::Range,
        FieldPolicy::Range,
        FieldPolicy::Default,
        FieldPolicy::Transform(scale),
        FieldPolicy::After,
        FieldPolicy::Default,
    ];
    assert_eq!(
        binding_plan(&particle),
        vec![
            Binding::Bind(2),
            Binding::Bind(5),
            Binding::Bind(0),
            Binding::Bind(1),
            Binding::Bind(3),
            Binding::Draw(4),
            Binding::Finish(4),
        ]
    );
    assert!(binding_plan(&vec![]).is_empty());
}
