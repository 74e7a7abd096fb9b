use onnx_extractor::error::Error;
use onnx_extractor::model::OnnxModel;
use onnx_extractor::operation::OnnxOperation;

fn op(name: &str, op_type: &str, inputs: &[&str], outputs: &[&str]) -> OnnxOperation {
    OnnxOperation {
        name: name.to_string(),
        op_type: op_type.to_string(),
        inputs: inputs.iter().map(|s| s.to_string()).collect(),
        outputs: outputs.iter().map(|s| s.to_string()).collect(),
        attributes: Vec::new(),
    }
}

fn model_with(operations: Vec<OnnxOperation>, inputs: &[&str]) -> OnnxModel {
    OnnxModel {
        tensors: Vec::new(),
        operations,
        inputs: inputs.iter().map(|s| s.to_string()).collect(),
        outputs: Vec::new(),
        model_version: 0,
        producer_name: String::new(),
        producer_version: String::new(),
    }
}

/// Every producer of an operation's inputs must come out earlier.
fn assert_valid_order(model: &OnnxModel, order: &[usize]) {
    assert_eq!(order.len(), model.operations.len());
    for (pos, &idx) in order.iter().enumerate() {
        for input in &model.operations[idx].inputs {
            if input.is_empty() {
                continue;
            }
            for (j, other) in model.operations.iter().enumerate() {
                if other.outputs.iter().any(|o| !o.is_empty() && o == input) {
                    let jpos = order
                        .iter()
                        .position(|&x| x == j)
                        .expect("producer must be scheduled");
                    assert!(
                        jpos < pos,
                        "producer {} must precede consumer {}",
                        j,
                        idx
                    );
                }
            }
        }
    }
}

#[test]
fn chain_orders_in_dependency_order() {
    // declared backwards: c needs b's output, b needs a's output
    let model = model_with(
        vec![
            op("c", "Relu", &["t2"], &["t3"]),
            op("b", "Relu", &["t1"], &["t2"]),
            op("a", "Relu", &["x"], &["t1"]),
        ],
        &["x"],
    );
    let topo = model.topological_order().expect("a chain is schedulable");
    assert_eq!(topo, vec![2, 1, 0]);
    assert_valid_order(&model, &topo);
    let exec = model.execution_order().expect("a chain is schedulable");
    assert_eq!(exec, vec![2, 1, 0]);
    assert_valid_order(&model, &exec);
}

#[test]
fn diamond_orders_are_complete_and_valid() {
    let model = model_with(
        vec![
            op("head", "Conv", &["x"], &["h"]),
            op("left", "Relu", &["h"], &["l"]),
            op("right", "Sigmoid", &["h"], &["r"]),
            op("join", "Add", &["l", "r"], &["y"]),
        ],
        &["x"],
    );
    let topo = model.topological_order().expect("a diamond is schedulable");
    assert_eq!(topo.len(), 4);
    assert_valid_order(&model, &topo);
    let exec = model.execution_order().expect("a diamond is schedulable");
    assert_eq!(exec.len(), 4);
    assert_valid_order(&model, &exec);
}

#[test]
fn two_op_cycle_fails_both_orderings() {
    // each operation produces the other's sole input
    let model = model_with(
        vec![op("p", "Relu", &["t1"], &["t0"]), op("q", "Relu", &["t0"], &["t1"])],
        &[],
    );
    match model.topological_order() {
        Err(Error::InvalidModel(_)) => {},
        other => panic!("expected an invalid-model error, got {:?}", other),
    }
    match model.execution_order() {
        Err(Error::InvalidModel(_)) => {},
        other => panic!("expected an invalid-model error, got {:?}", other),
    }
}

#[test]
fn unresolved_self_dependency_fails() {
    let model = model_with(vec![op("loop", "Relu", &["t"], &["t"])], &[]);
    assert!(model.topological_order().is_err());
    assert!(model.execution_order().is_err());
}

#[test]
fn execution_order_prefers_input_consumers() {
    // the weight-only operation is declared first; the plain order keeps
    // declaration order, the execution order moves the input consumer ahead
    let model = model_with(
        vec![
            op("scale", "Mul", &["w"], &["sw"]),
            op("embed", "Gather", &["x"], &["e"]),
            op("join", "Add", &["sw", "e"], &["y"]),
        ],
        &["x"],
    );
    let topo = model.topological_order().expect("schedulable");
    assert_eq!(topo, vec![0, 1, 2]);
    let exec = model.execution_order().expect("schedulable");
    assert_eq!(exec, vec![1, 0, 2]);
    assert_valid_order(&model, &exec);
}

#[test]
fn later_round_priority_holds_too() {
    // both consumers of t become ready the moment the producer runs: the
    // one that also reads the model input jumps the frontier queue
    let model = model_with(
        vec![
            op("p", "Conv", &["w"], &["t"]),
            op("c2", "Mul", &["t"], &["u2"]),
            op("c1", "Add", &["t", "x"], &["u1"]),
        ],
        &["x"],
    );
    let topo = model.topological_order().expect("schedulable");
    assert_eq!(topo, vec![0, 1, 2]);
    let exec = model.execution_order().expect("schedulable");
    assert_eq!(exec, vec![0, 2, 1]);
    assert_valid_order(&model, &exec);
}

#[test]
fn empty_slots_do_not_link_operations() {
    // empty names are unused optional slots, not dependencies
    let model = model_with(
        vec![op("a", "Relu", &["", "x"], &["", "t"]), op("b", "Relu", &["t", ""], &["y"])],
        &["x"],
    );
    let topo = model.topological_order().expect("schedulable");
    assert_eq!(topo, vec![0, 1]);
}
