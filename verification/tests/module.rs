use executorch_node::eterror::ETError;
use executorch_node::evalue::EValue;
use executorch_node::evalue_tag::EValueTag;
use executorch_node::host::{HostData, HostEValue};
use executorch_node::method_meta::{MethodMeta, TensorInfo, ValueMeta};
use executorch_node::module::{
    decode_inputs, encode_outputs, execute, fill_outputs, get_method_meta, load, load_method,
    method_names, Module, Stage,
};
use executorch_node::tensor_type::TensorType;

fn method(name: &str, outputs: usize) -> MethodMeta {
    let mut out = Vec::new();
    for _ in 0..outputs {
        out.push(
            ValueMeta::new(
                EValueTag::Tensor,
                Some(TensorInfo { dtype: TensorType::Float32, shape: vec![1, 4] }),
            )
            .unwrap(),
        );
    }
    MethodMeta::new(
        String::from(name),
        vec![ValueMeta::new(EValueTag::Int, None).unwrap()],
        out,
    )
}

fn catalogue() -> Vec<MethodMeta> {
    vec![method("forward", 2), method("encode", 1), method("reset", 0)]
}

fn loaded() -> Module {
    let mut m = Module::new(String::from("model.pte"));
    m.load(0, catalogue()).unwrap();
    m
}

fn name(s: &str) -> String {
    String::from(s)
}

#[test]
fn a_new_module_is_unloaded() {
    let m = Module::new(name("model.pte"));
    assert_eq!(m.path(), "model.pte");
    assert!(!m.is_loaded());
    assert!(m.method_names().is_empty());
    assert!(!m.has_method(name("forward")));
    assert_eq!(m.stage(name("forward")), None);
}

#[test]
fn load_lists_the_methods() {
    let m = loaded();
    assert!(m.is_loaded());
    assert_eq!(m.method_names(), vec!["forward", "encode", "reset"]);
    assert!(m.has_method(name("encode")));
    assert!(!m.has_method(name("decode")));
    assert_eq!(m.stage(name("forward")), Some(Stage::Listed));
}

#[test]
fn load_failure_changes_nothing_and_hands_the_code_on() {
    let mut m = Module::new(name("missing.pte"));
    assert_eq!(m.load(34, catalogue()), Err(ETError::AccessFailed));
    assert!(!m.is_loaded());
    assert!(m.method_names().is_empty());
    assert_eq!(m.load(35, vec![]), Err(ETError::InvalidProgram));
    assert_eq!(m.load(1, vec![]), Err(ETError::Internal));
}

#[test]
fn load_twice_keeps_the_first_state() {
    let mut m = loaded();
    m.load_method(name("forward"), 0).unwrap();
    assert_eq!(m.load(0, vec![method("other", 0)]), Ok(()));
    assert_eq!(m.method_names(), vec!["forward", "encode", "reset"]);
    assert_eq!(m.stage(name("forward")), Some(Stage::Ready));
}

#[test]
fn free_load_gives_a_loaded_module_or_the_error() {
    let m = load(name("model.pte"), 0, catalogue()).unwrap();
    assert!(m.is_loaded());
    assert_eq!(m.path(), "model.pte");
    assert_eq!(m.method_names().len(), 3);
    assert_eq!(load(name("model.pte"), 32, catalogue()).err(), Some(ETError::NotFound));
}

#[test]
fn load_method_needs_a_loaded_model() {
    let mut m = Module::new(name("model.pte"));
    assert_eq!(m.load_method(name("forward"), 0), Err(ETError::InvalidState));
    assert_eq!(m.load_method(name("forward"), 18), Err(ETError::InvalidState));
}

#[test]
fn load_method_makes_a_method_ready_and_can_be_repeated() {
    let mut m = loaded();
    assert_eq!(m.load_method(name("encode"), 0), Ok(()));
    assert_eq!(m.stage(name("encode")), Some(Stage::Ready));
    assert_eq!(m.stage(name("forward")), Some(Stage::Listed));
    assert_eq!(m.load_method(name("encode"), 0), Ok(()));
    assert_eq!(m.stage(name("encode")), Some(Stage::Ready));
}

#[test]
fn load_method_failure_changes_nothing() {
    let mut m = loaded();
    assert_eq!(m.load_method(name("forward"), 20), Err(ETError::OperatorMissing));
    assert_eq!(m.stage(name("forward")), Some(Stage::Listed));
    assert_eq!(m.load_method(name("nothing"), 18), Err(ETError::InvalidArgument));
}

#[test]
fn load_method_of_an_unlisted_name_changes_nothing() {
    let mut m = loaded();
    assert_eq!(m.load_method(name("nothing"), 0), Ok(()));
    assert!(!m.has_method(name("nothing")));
    assert_eq!(m.method_names().len(), 3);
}

#[test]
fn load_method_while_running_keeps_it_running() {
    let mut m = loaded();
    m.load_method(name("forward"), 0).unwrap();
    m.begin_execute(name("forward")).unwrap();
    assert_eq!(m.load_method(name("forward"), 0), Ok(()));
    assert_eq!(m.stage(name("forward")), Some(Stage::Executing));
}

#[test]
fn method_meta_of_a_listed_method() {
    let m = loaded();
    let meta = m.method_meta(name("encode")).unwrap();
    assert_eq!(meta.name(), "encode");
    assert_eq!(meta.num_outputs(), 1);
    assert_eq!(m.method_meta(name("decode")).err(), Some(ETError::InvalidArgument));
    let unloaded = Module::new(name("model.pte"));
    assert_eq!(unloaded.method_meta(name("encode")).err(), Some(ETError::InvalidArgument));
}

#[test]
fn get_method_meta_shows_it_to_the_host() {
    let m = loaded();
    let host = get_method_meta(&m, name("forward")).unwrap();
    assert_eq!(host.name, "forward");
    assert_eq!(host.inputs.len(), 1);
    assert_eq!(host.inputs[0].tag, 4);
    assert_eq!(host.outputs.len(), 2);
    assert_eq!(host.outputs[1].tag, 1);
    assert_eq!(host.outputs[1].tensor_info.as_ref().unwrap().dtype, 6);
    assert_eq!(get_method_meta(&m, name("decode")).err(), Some(ETError::InvalidArgument));
}

#[test]
fn execute_needs_a_ready_method() {
    let mut m = loaded();
    assert_eq!(m.begin_execute(name("forward")), Err(ETError::InvalidState));
    assert_eq!(m.begin_execute(name("nothing")), Err(ETError::InvalidState));
    assert_eq!(m.execute(name("forward"), 0, vec![]).err(), Some(ETError::InvalidState));
    m.load_method(name("forward"), 0).unwrap();
    assert_eq!(m.execute(name("forward"), 0, vec![]).err(), Some(ETError::InvalidState));
    assert_eq!(m.stage(name("forward")), Some(Stage::Ready));
    let mut unloaded = Module::new(name("model.pte"));
    assert_eq!(unloaded.begin_execute(name("forward")), Err(ETError::InvalidState));
}

#[test]
fn a_running_method_cannot_start_again() {
    let mut m = loaded();
    m.load_method(name("forward"), 0).unwrap();
    assert_eq!(m.begin_execute(name("forward")), Ok(()));
    assert_eq!(m.stage(name("forward")), Some(Stage::Executing));
    assert_eq!(m.begin_execute(name("forward")), Err(ETError::InvalidState));
    assert_eq!(m.stage(name("forward")), Some(Stage::Executing));
    m.execute(name("forward"), 0, vec![]).unwrap();
    assert_eq!(m.begin_execute(name("forward")), Ok(()));
}

#[test]
fn two_methods_run_side_by_side() {
    let mut m = loaded();
    m.load_method(name("forward"), 0).unwrap();
    m.load_method(name("encode"), 0).unwrap();
    m.begin_execute(name("forward")).unwrap();
    m.begin_execute(name("encode")).unwrap();
    assert_eq!(m.execute(name("forward"), 0, vec![]).unwrap().len(), 2);
    assert_eq!(m.stage(name("forward")), Some(Stage::Ready));
    assert_eq!(m.stage(name("encode")), Some(Stage::Executing));
    assert_eq!(m.execute(name("encode"), 0, vec![]).unwrap().len(), 1);
}

#[test]
fn execute_gives_exactly_the_declared_outputs() {
    let mut m = loaded();
    m.load_method(name("forward"), 0).unwrap();
    m.begin_execute(name("forward")).unwrap();
    let out = m
        .execute(name("forward"), 0, vec![EValue::from_int(1), EValue::from_int(2)])
        .unwrap();
    assert_eq!(out, vec![EValue::from_int(1), EValue::from_int(2)]);
    assert_eq!(m.stage(name("forward")), Some(Stage::Ready));
}

#[test]
fn execute_fills_up_and_cuts_to_the_declared_count() {
    let mut m = loaded();
    m.load_method(name("forward"), 0).unwrap();
    m.begin_execute(name("forward")).unwrap();
    let out = m.execute(name("forward"), 0, vec![EValue::from_bool(true)]).unwrap();
    assert_eq!(out, vec![EValue::from_bool(true), EValue::null()]);
    m.begin_execute(name("forward")).unwrap();
    let out = m
        .execute(
            name("forward"),
            0,
            vec![EValue::from_int(1), EValue::from_int(2), EValue::from_int(3)],
        )
        .unwrap();
    assert_eq!(out, vec![EValue::from_int(1), EValue::from_int(2)]);
    m.load_method(name("reset"), 0).unwrap();
    m.begin_execute(name("reset")).unwrap();
    assert_eq!(m.execute(name("reset"), 0, vec![EValue::from_int(1)]).unwrap(), vec![]);
}

#[test]
fn execute_failure_gives_no_output_and_frees_the_method() {
    let mut m = loaded();
    m.load_method(name("forward"), 0).unwrap();
    m.begin_execute(name("forward")).unwrap();
    let r = m.execute(name("forward"), 18, vec![EValue::from_int(1), EValue::from_int(2)]);
    assert_eq!(r, Err(ETError::InvalidArgument));
    assert_eq!(m.stage(name("forward")), Some(Stage::Ready));
    m.begin_execute(name("forward")).unwrap();
    assert_eq!(m.execute(name("forward"), 50, vec![]), Err(ETError::DelegateInvalidHandle));
}

#[test]
fn fill_outputs_has_the_count_it_is_asked_for() {
    assert_eq!(fill_outputs(0, vec![]), vec![]);
    assert_eq!(fill_outputs(2, vec![]), vec![EValue::null(), EValue::null()]);
    assert_eq!(
        fill_outputs(1, vec![EValue::from_int(4), EValue::from_int(5)]),
        vec![EValue::from_int(4)]
    );
}

#[test]
fn the_first_of_two_methods_with_one_name_answers() {
    let mut m = Module::new(name("model.pte"));
    m.load(0, vec![method("twice", 1), method("twice", 3)]).unwrap();
    assert_eq!(m.method_names(), vec!["twice", "twice"]);
    assert_eq!(m.method_meta(name("twice")).unwrap().num_outputs(), 1);
    m.load_method(name("twice"), 0).unwrap();
    m.begin_execute(name("twice")).unwrap();
    assert_eq!(m.execute(name("twice"), 0, vec![]).unwrap().len(), 1);
}

#[test]
fn decode_inputs_takes_all_or_the_first_refusal() {
    let good = vec![
        HostEValue { tag: Some(4), data: HostData::BigInt(Some(7)) },
        HostEValue { tag: Some(5), data: HostData::Boolean(true) },
    ];
    assert_eq!(
        decode_inputs(&good),
        Ok(vec![EValue::from_int(7), EValue::from_bool(true)])
    );
    let bad = vec![
        HostEValue { tag: Some(4), data: HostData::BigInt(Some(7)) },
        HostEValue { tag: Some(9), data: HostData::Undefined },
        HostEValue { tag: None, data: HostData::Undefined },
    ];
    assert_eq!(decode_inputs(&bad), Err(ETError::NotSupported));
    let worse = vec![
        HostEValue { tag: None, data: HostData::Undefined },
        HostEValue { tag: Some(9), data: HostData::Undefined },
    ];
    assert_eq!(decode_inputs(&worse), Err(ETError::InvalidArgument));
    assert_eq!(decode_inputs(&vec![]), Ok(vec![]));
}

#[test]
fn encode_outputs_keeps_the_order() {
    let host = encode_outputs(&vec![EValue::from_bool(true), EValue::null()]);
    assert_eq!(
        host,
        vec![
            HostEValue { tag: Some(5), data: HostData::Boolean(true) },
            HostEValue { tag: Some(0), data: HostData::Null },
        ]
    );
}

#[test]
fn the_host_calls_load_method_names_and_execute() {
    let mut m = loaded();
    assert_eq!(method_names(&m), vec!["forward", "encode", "reset"]);
    assert_eq!(load_method(&mut m, name("forward"), 0), Ok(()));
    assert_eq!(load_method(&mut m, name("encode"), 33), Err(ETError::MemoryAllocationFailed));
    m.begin_execute(name("forward")).unwrap();
    let out = execute(&mut m, name("forward"), 0, vec![EValue::from_bool(true)]).unwrap();
    assert_eq!(
        out,
        vec![
            HostEValue { tag: Some(5), data: HostData::Boolean(true) },
            HostEValue { tag: Some(0), data: HostData::Null },
        ]
    );
    m.begin_execute(name("forward")).unwrap();
    assert_eq!(
        execute(&mut m, name("forward"), 1, vec![EValue::from_bool(true)]),
        Err(ETError::Internal)
    );
    assert_eq!(
        execute(&mut m, name("forward"), 0, vec![]),
        Err(ETError::InvalidState)
    );
}
