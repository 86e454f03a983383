use plonky2_uniform_circuit_aggregation::AggregationError;
use plonky2_uniform_circuit_aggregation::Provable;
use plonky2_uniform_circuit_aggregation::RecursiveTarget;

/// A wire of a circuit that exists only as a count of the wires handed out.
type Wire = u32;

/// Counts the wires it has handed out and notes the statements read back through it.
#[derive(Debug, Default, PartialEq)]
pub struct Builder {
    pub wires: u32,
    pub decoded: usize,
}

#[derive(Debug, PartialEq)]
pub struct SquareTarget {
    pub x: Wire,
    pub x_sq: Wire,
}

pub struct SquareWitness {
    pub x: u64,
    pub x_sq: u64,
}

impl RecursiveTarget for SquareTarget {
    type SIZE = ();
    type VALUE = SquareWitness;
    type Wire = Wire;
    type Builder = Builder;
    type Witness = Vec<(Wire, u64)>;

    fn to_vec(&self) -> Vec<Wire> {
        vec![self.x, self.x_sq]
    }

    fn from_vec(builder: &mut Builder, input: &[Wire], _size: &()) -> Self {
        assert!(input.len() == 2);
        builder.decoded += 1;
        SquareTarget { x: input[0], x_sq: input[1] }
    }

    fn set_witness(&self, pw: &mut Vec<(Wire, u64)>, value: &SquareWitness) {
        pw.push((self.x, value.x));
        pw.push((self.x_sq, value.x_sq));
    }
}

impl Provable for SquareTarget {
    type Circuit = Builder;

    fn build_circuit() -> (Builder, Self) {
        let target = SquareTarget { x: 0, x_sq: 1 };
        (Builder { wires: 2, decoded: 0 }, target)
    }
}

#[test]
fn statements_are_decoded_in_order() {
    let mut builder = Builder::default();
    let public_inputs: Vec<Wire> = vec![10, 11, 20, 21, 30, 31];
    let statements =
        SquareTarget::decode_statement_target(&mut builder, &public_inputs, 2, &()).unwrap();
    assert_eq!(
        statements,
        vec![
            SquareTarget { x: 10, x_sq: 11 },
            SquareTarget { x: 20, x_sq: 21 },
            SquareTarget { x: 30, x_sq: 31 },
        ]
    );
    assert_eq!(builder.decoded, 3);
}

#[test]
fn decoding_undoes_serialising() {
    let targets = vec![SquareTarget { x: 4, x_sq: 5 }, SquareTarget { x: 6, x_sq: 7 }];
    let mut flat = Vec::new();
    for target in &targets {
        flat.extend(target.to_vec());
    }
    let mut builder = Builder::default();
    let decoded = SquareTarget::decode_statement_target(&mut builder, &flat, 2, &()).unwrap();
    assert_eq!(decoded, targets);
}

#[test]
fn decoding_nothing_gives_no_statement() {
    let mut builder = Builder::default();
    let statements = SquareTarget::decode_statement_target(&mut builder, &[], 2, &()).unwrap();
    assert!(statements.is_empty());
    assert_eq!(builder.decoded, 0);
}

#[test]
fn misaligned_public_inputs_are_rejected() {
    let mut builder = Builder::default();
    let public_inputs: Vec<Wire> = vec![10, 11, 20];
    assert!(matches!(
        SquareTarget::decode_statement_target(&mut builder, &public_inputs, 2, &()),
        Err(AggregationError::MisalignedPublicInputs)
    ));
    assert_eq!(builder.decoded, 0);
}

#[test]
fn zero_width_is_rejected() {
    let mut builder = Builder::default();
    let public_inputs: Vec<Wire> = vec![10, 11];
    assert!(matches!(
        SquareTarget::decode_statement_target(&mut builder, &public_inputs, 0, &()),
        Err(AggregationError::MisalignedPublicInputs)
    ));
    assert!(matches!(
        SquareTarget::decode_statement_target(&mut builder, &[], 0, &()),
        Err(AggregationError::MisalignedPublicInputs)
    ));
    assert_eq!(builder, Builder::default());
}

#[test]
fn refused_public_inputs_leave_the_builder_as_it_was() {
    let mut builder = Builder { wires: 40, decoded: 7 };
    let public_inputs: Vec<Wire> = vec![10, 11, 20, 21, 30];
    for width in [0usize, 2, 3, 4, 6] {
        assert!(matches!(
            SquareTarget::decode_statement_target(&mut builder, &public_inputs, width, &()),
            Err(AggregationError::MisalignedPublicInputs)
        ));
        assert_eq!(builder, Builder { wires: 40, decoded: 7 });
    }
}

#[test]
fn witness_binds_each_wire() {
    let (_, target) = SquareTarget::build_circuit();
    let mut pw = Vec::new();
    target.set_witness(&mut pw, &SquareWitness { x: 3, x_sq: 9 });
    assert_eq!(pw, vec![(0, 3), (1, 9)]);
}
