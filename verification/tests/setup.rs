use plonky2_uniform_circuit_aggregation::AggregationError;
use plonky2_uniform_circuit_aggregation::AggregationSetUp;
use plonky2_uniform_circuit_aggregation::CircuitAssembly;

/// Builds every layer the way a proof system would: a circuit that remembers which circuit
/// it verifies, and one gadget for each child.
fn assemble(n: usize, alignment: Vec<usize>) -> Result<AggregationSetUp<String, u32>, AggregationError> {
    let mut assembly: CircuitAssembly<String, u32> = CircuitAssembly::new(n, alignment)?;
    loop {
        let (data, gadgets) = match assembly.next_layer() {
            None => break,
            Some(plan) => {
                let inner = match plan.inner {
                    None => "base".to_string(),
                    Some(below) => below.clone(),
                };
                let data = format!("layer{}({})", plan.layer, inner);
                let gadgets: Vec<u32> = (0..plan.arity as u32).map(|g| plan.layer as u32 * 100 + g).collect();
                (data, gadgets)
            }
        };
        assembly = assembly.add_layer(Some((data, gadgets)))?;
    }
    assembly.finish()
}

#[test]
fn layers_are_built_bottom_up_against_the_layer_below() {
    let setup = assemble(10, vec![2, 3, 2]).unwrap();
    assert_eq!(setup.n, 10);
    assert_eq!(setup.alignment, vec![2, 3, 2]);
    assert_eq!(
        setup.circuits_data,
        vec![
            "layer0(base)".to_string(),
            "layer1(layer0(base))".to_string(),
            "layer2(layer1(layer0(base)))".to_string(),
        ]
    );
    assert_eq!(setup.proof_t_vecs, vec![vec![0, 1], vec![100, 101, 102], vec![200, 201]]);
    assert_eq!(setup.check(), Ok(12));
}

#[test]
fn first_plan_is_the_base_layer() {
    let assembly: CircuitAssembly<u8, u8> = CircuitAssembly::new(5, vec![3, 2]).unwrap();
    let plan = assembly.next_layer().unwrap();
    assert_eq!(plan.layer, 0);
    assert_eq!(plan.arity, 3);
    assert!(plan.inner.is_none());
}

#[test]
fn later_plans_name_the_layer_below() {
    let assembly: CircuitAssembly<u8, u8> = CircuitAssembly::new(5, vec![3, 2]).unwrap();
    let assembly = assembly.add_layer(Some((41, vec![0, 0, 0]))).unwrap();
    let plan = assembly.next_layer().unwrap();
    assert_eq!(plan.layer, 1);
    assert_eq!(plan.arity, 2);
    assert_eq!(plan.inner, Some(&41));
    let assembly = assembly.add_layer(Some((42, vec![0, 0]))).unwrap();
    assert!(assembly.next_layer().is_none());
}

#[test]
fn assembly_rejects_bad_schedules() {
    assert!(matches!(
        CircuitAssembly::<u8, u8>::new(0, vec![2]),
        Err(AggregationError::NoLeaves)
    ));
    assert!(matches!(
        CircuitAssembly::<u8, u8>::new(2, vec![2, 1]),
        Err(AggregationError::ArityTooSmall)
    ));
    assert!(matches!(
        CircuitAssembly::<u8, u8>::new(5, vec![2, 2]),
        Err(AggregationError::AggregationArityMismatch)
    ));
    assert!(matches!(
        CircuitAssembly::<u8, u8>::new(5, vec![usize::MAX, usize::MAX]),
        Err(AggregationError::AggregationArityMismatch)
    ));
}

#[test]
fn layer_with_wrong_gadget_count_is_rejected() {
    let assembly: CircuitAssembly<u8, u8> = CircuitAssembly::new(4, vec![2, 2]).unwrap();
    assert!(matches!(
        assembly.add_layer(Some((1, vec![0, 0, 0]))),
        Err(AggregationError::IncompatibleRecursionConfig)
    ));
    let assembly: CircuitAssembly<u8, u8> = CircuitAssembly::new(4, vec![2, 2]).unwrap();
    assert!(matches!(
        assembly.add_layer(Some((1, vec![]))),
        Err(AggregationError::IncompatibleRecursionConfig)
    ));
}

#[test]
fn layer_that_could_not_be_built_ends_the_assembly() {
    let assembly: CircuitAssembly<u8, u8> = CircuitAssembly::new(4, vec![2, 2]).unwrap();
    assert!(matches!(
        assembly.add_layer(None),
        Err(AggregationError::IncompatibleRecursionConfig)
    ));
    let assembly: CircuitAssembly<u8, u8> = CircuitAssembly::new(4, vec![2, 2]).unwrap();
    let assembly = assembly.add_layer(Some((1, vec![0, 0]))).unwrap();
    assert!(matches!(
        assembly.add_layer(None),
        Err(AggregationError::IncompatibleRecursionConfig)
    ));
    let assembly: CircuitAssembly<u8, u8> = CircuitAssembly::new(2, vec![2]).unwrap();
    let assembly = assembly.add_layer(Some((1, vec![0, 0]))).unwrap();
    assert!(matches!(
        assembly.add_layer(None),
        Err(AggregationError::IncompatibleRecursionConfig)
    ));
}

#[test]
fn layer_beyond_the_schedule_is_rejected() {
    let assembly: CircuitAssembly<u8, u8> = CircuitAssembly::new(2, vec![2]).unwrap();
    let assembly = assembly.add_layer(Some((1, vec![0, 0]))).unwrap();
    assert!(matches!(
        assembly.add_layer(Some((2, vec![0, 0]))),
        Err(AggregationError::AggregationArityMismatch)
    ));
}

#[test]
fn unfinished_assembly_gives_no_setup() {
    let assembly: CircuitAssembly<u8, u8> = CircuitAssembly::new(4, vec![2, 2]).unwrap();
    assert!(matches!(assembly.finish(), Err(AggregationError::AggregationArityMismatch)));
    let assembly: CircuitAssembly<u8, u8> = CircuitAssembly::new(4, vec![2, 2]).unwrap();
    let assembly = assembly.add_layer(Some((1, vec![0, 0]))).unwrap();
    assert!(matches!(assembly.finish(), Err(AggregationError::AggregationArityMismatch)));
}

#[test]
fn empty_schedule_holds_one_leaf() {
    let setup = assemble(1, vec![]).unwrap();
    assert!(setup.circuits_data.is_empty());
    assert_eq!(setup.check(), Ok(1));
}

#[test]
fn check_finds_schedule_faults_first() {
    let setup: AggregationSetUp<u8, u8> =
        AggregationSetUp { n: 0, alignment: vec![1], circuits_data: vec![], proof_t_vecs: vec![] };
    assert_eq!(setup.check(), Err(AggregationError::NoLeaves));
    let setup: AggregationSetUp<u8, u8> =
        AggregationSetUp { n: 1, alignment: vec![1], circuits_data: vec![], proof_t_vecs: vec![] };
    assert_eq!(setup.check(), Err(AggregationError::ArityTooSmall));
    let setup: AggregationSetUp<u8, u8> =
        AggregationSetUp { n: 3, alignment: vec![2], circuits_data: vec![], proof_t_vecs: vec![] };
    assert_eq!(setup.check(), Err(AggregationError::AggregationArityMismatch));
}

#[test]
fn check_finds_a_wrong_number_of_layers() {
    let missing_circuit: AggregationSetUp<u8, u8> = AggregationSetUp {
        n: 2,
        alignment: vec![2],
        circuits_data: vec![],
        proof_t_vecs: vec![vec![0, 0]],
    };
    assert_eq!(missing_circuit.check(), Err(AggregationError::AggregationArityMismatch));
    let missing_gadgets: AggregationSetUp<u8, u8> = AggregationSetUp {
        n: 2,
        alignment: vec![2],
        circuits_data: vec![9],
        proof_t_vecs: vec![],
    };
    assert_eq!(missing_gadgets.check(), Err(AggregationError::AggregationArityMismatch));
    let surplus_circuit: AggregationSetUp<u8, u8> = AggregationSetUp {
        n: 2,
        alignment: vec![2],
        circuits_data: vec![9, 9],
        proof_t_vecs: vec![vec![0, 0]],
    };
    assert_eq!(surplus_circuit.check(), Err(AggregationError::AggregationArityMismatch));
    let short_and_miscounted: AggregationSetUp<u8, u8> = AggregationSetUp {
        n: 4,
        alignment: vec![2, 3],
        circuits_data: vec![9],
        proof_t_vecs: vec![vec![0], vec![0]],
    };
    assert_eq!(short_and_miscounted.check(), Err(AggregationError::AggregationArityMismatch));
}

#[test]
fn check_finds_a_layer_with_a_wrong_number_of_gadgets() {
    let short_layer: AggregationSetUp<u8, u8> = AggregationSetUp {
        n: 4,
        alignment: vec![2, 3],
        circuits_data: vec![9, 9],
        proof_t_vecs: vec![vec![0, 0], vec![0, 0]],
    };
    assert_eq!(short_layer.check(), Err(AggregationError::IncompatibleRecursionConfig));
    let long_layer: AggregationSetUp<u8, u8> = AggregationSetUp {
        n: 4,
        alignment: vec![2, 3],
        circuits_data: vec![9, 9],
        proof_t_vecs: vec![vec![0, 0, 0], vec![0, 0, 0]],
    };
    assert_eq!(long_layer.check(), Err(AggregationError::IncompatibleRecursionConfig));
}
