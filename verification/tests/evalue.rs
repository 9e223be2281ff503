use executorch_node::eterror::ETError;
use executorch_node::evalue::EValue;
use executorch_node::evalue_tag::EValueTag;
use executorch_node::host::{HostData, HostEValue, HostItem};
use executorch_node::tensor::Tensor;
use executorch_node::tensor_type::TensorType;

fn tensor() -> Tensor {
    Tensor::create(TensorType::UInt8, &[2], &[1, 2]).unwrap()
}

fn tagged(tag: i32, data: HostData) -> HostEValue {
    HostEValue { tag: Some(tag), data }
}

fn samples() -> Vec<EValue> {
    vec![
        EValue::null(),
        EValue::from_tensor(&tensor()),
        EValue::from_string(String::from("hello")),
        EValue::from_double(1.5f64.to_bits()),
        EValue::from_int(-(1i64 << 60)),
        EValue::from_bool(true),
        EValue::ListBool(vec![true, false]),
        EValue::ListDouble(vec![0.5f64.to_bits(), f64::NAN.to_bits()]),
        EValue::ListInt(vec![i64::MIN, 0, i64::MAX]),
        EValue::ListBool(vec![]),
        EValue::ListDouble(vec![]),
        EValue::ListInt(vec![]),
    ]
}

#[test]
fn constructors_and_getters_agree() {
    assert_eq!(EValue::null().tag(), EValueTag::Null);
    let t = EValue::from_tensor(&tensor());
    assert_eq!(t.tag(), EValueTag::Tensor);
    assert_eq!(t.get_tensor(), tensor());
    let s = EValue::from_string(String::from("abc"));
    assert_eq!(s.tag(), EValueTag::String);
    assert_eq!(s.get_string(), "abc");
    let d = EValue::from_double(2.5f64.to_bits());
    assert_eq!(d.tag(), EValueTag::Double);
    assert_eq!(f64::from_bits(d.get_double()), 2.5);
    let i = EValue::from_int(-7);
    assert_eq!(i.tag(), EValueTag::Int);
    assert_eq!(i.get_int(), -7);
    let b = EValue::from_bool(true);
    assert_eq!(b.tag(), EValueTag::Bool);
    assert!(b.get_bool());
    let lb = EValue::ListBool(vec![true, false]);
    assert_eq!(lb.tag(), EValueTag::ListBool);
    assert_eq!(lb.get_bool_list(), &[true, false]);
    let ld = EValue::ListDouble(vec![1.0f64.to_bits()]);
    assert_eq!(ld.tag(), EValueTag::ListDouble);
    assert_eq!(ld.get_double_list(), &[1.0f64.to_bits()]);
    let li = EValue::ListInt(vec![1, 2, 3]);
    assert_eq!(li.tag(), EValueTag::ListInt);
    assert_eq!(li.get_int_list(), &[1, 2, 3]);
    assert_eq!(EValue::ListTensor.tag(), EValueTag::ListTensor);
    assert_eq!(EValue::ListScalar.tag(), EValueTag::ListScalar);
    assert_eq!(EValue::ListOptionalTensor.tag(), EValueTag::ListOptionalTensor);
}

#[test]
fn from_tensor_copies() {
    let mut t = tensor();
    let v = EValue::from_tensor(&t);
    t.set_data(&[8, 9]).unwrap();
    assert_eq!(v.get_tensor().get_data(), &[1, 2]);
}

#[test]
fn to_js_gives_tag_and_payload() {
    assert_eq!(EValue::null().to_js(), tagged(0, HostData::Null));
    assert_eq!(
        EValue::from_tensor(&tensor()).to_js(),
        tagged(1, HostData::Tensor(tensor()))
    );
    assert_eq!(
        EValue::from_string(String::from("x")).to_js(),
        tagged(2, HostData::Text(String::from("x")))
    );
    assert_eq!(
        EValue::from_double(1.5f64.to_bits()).to_js(),
        tagged(3, HostData::Number(1.5f64.to_bits()))
    );
    assert_eq!(
        EValue::from_int(1 << 60).to_js(),
        tagged(4, HostData::BigInt(Some(1 << 60)))
    );
    assert_eq!(EValue::from_bool(false).to_js(), tagged(5, HostData::Boolean(false)));
    assert_eq!(
        EValue::ListBool(vec![true, false]).to_js(),
        tagged(6, HostData::List(vec![HostItem::Boolean(true), HostItem::Boolean(false)]))
    );
    assert_eq!(
        EValue::ListDouble(vec![7]).to_js(),
        tagged(7, HostData::List(vec![HostItem::Number(7)]))
    );
    assert_eq!(
        EValue::ListInt(vec![-1]).to_js(),
        tagged(8, HostData::List(vec![HostItem::BigInt(Some(-1))]))
    );
    assert_eq!(EValue::ListTensor.to_js(), tagged(9, HostData::Undefined));
    assert_eq!(EValue::ListScalar.to_js(), tagged(10, HostData::Undefined));
    assert_eq!(EValue::ListOptionalTensor.to_js(), tagged(11, HostData::Undefined));
}

#[test]
fn values_come_back_from_the_host_as_they_went() {
    for v in samples() {
        assert_eq!(EValue::from_js(&v.to_js()), Ok(v));
    }
}

#[test]
fn from_js_reads_each_kind() {
    assert_eq!(EValue::from_js(&tagged(0, HostData::Null)), Ok(EValue::Null));
    assert_eq!(
        EValue::from_js(&tagged(3, HostData::Number(9))),
        Ok(EValue::Double(9))
    );
    assert_eq!(
        EValue::from_js(&tagged(4, HostData::BigInt(Some(-3)))),
        Ok(EValue::Int(-3))
    );
}

#[test]
fn from_js_without_content_ignores_the_payload() {
    assert_eq!(EValue::from_js(&tagged(0, HostData::Number(1))), Ok(EValue::Null));
    assert_eq!(EValue::from_js(&tagged(0, HostData::Undefined)), Ok(EValue::Null));
}

#[test]
fn from_js_refuses_a_missing_tag() {
    let host = HostEValue { tag: None, data: HostData::Boolean(true) };
    assert_eq!(EValue::from_js(&host), Err(ETError::InvalidArgument));
}

#[test]
fn from_js_refuses_unknown_tag_codes() {
    for code in [-1, 12, 100, i32::MAX, i32::MIN] {
        assert_eq!(
            EValue::from_js(&tagged(code, HostData::Null)),
            Err(ETError::InvalidArgument)
        );
    }
}

#[test]
fn from_js_does_not_support_the_lists_without_content() {
    for code in [9, 10, 11] {
        assert_eq!(
            EValue::from_js(&tagged(code, HostData::List(vec![]))),
            Err(ETError::NotSupported)
        );
        assert_eq!(
            EValue::from_js(&tagged(code, HostData::Undefined)),
            Err(ETError::NotSupported)
        );
    }
}

#[test]
fn from_js_refuses_a_payload_of_another_kind() {
    let payloads = vec![
        HostData::Null,
        HostData::Undefined,
        HostData::Tensor(tensor()),
        HostData::Text(String::from("1")),
        HostData::Number(1.0f64.to_bits()),
        HostData::BigInt(Some(1)),
        HostData::Boolean(true),
        HostData::Other,
    ];
    // The index of the one payload that each tag from 1 to 5 takes.
    let takes = [2, 3, 4, 5, 6];
    for (k, code) in (1..=5).enumerate() {
        for (p, payload) in payloads.iter().enumerate() {
            let r = EValue::from_js(&tagged(code, payload.clone()));
            if p == takes[k] {
                assert!(r.is_ok());
            } else {
                assert_eq!(r, Err(ETError::InvalidArgument));
            }
        }
    }
    for code in 6..=8 {
        for payload in payloads.iter() {
            assert_eq!(
                EValue::from_js(&tagged(code, payload.clone())),
                Err(ETError::InvalidArgument)
            );
        }
    }
}

#[test]
fn from_js_never_takes_a_number_for_a_string() {
    assert_eq!(
        EValue::from_js(&tagged(2, HostData::Number(5.0f64.to_bits()))),
        Err(ETError::InvalidArgument)
    );
}

#[test]
fn from_js_refuses_a_big_integer_beyond_64_bits() {
    assert_eq!(
        EValue::from_js(&tagged(4, HostData::BigInt(None))),
        Err(ETError::InvalidArgument)
    );
    assert_eq!(
        EValue::from_js(&tagged(8, HostData::List(vec![HostItem::BigInt(Some(1)), HostItem::BigInt(None)]))),
        Err(ETError::InvalidArgument)
    );
}

#[test]
fn from_js_refuses_a_list_with_an_item_of_another_kind() {
    let mixed = HostData::List(vec![HostItem::Boolean(true), HostItem::Number(0)]);
    assert_eq!(EValue::from_js(&tagged(6, mixed.clone())), Err(ETError::InvalidArgument));
    assert_eq!(EValue::from_js(&tagged(7, mixed.clone())), Err(ETError::InvalidArgument));
    assert_eq!(EValue::from_js(&tagged(8, mixed)), Err(ETError::InvalidArgument));
    let other = HostData::List(vec![HostItem::Other]);
    assert_eq!(EValue::from_js(&tagged(6, other)), Err(ETError::InvalidArgument));
}

#[test]
fn from_js_takes_an_empty_list_for_every_list_tag() {
    assert_eq!(
        EValue::from_js(&tagged(6, HostData::List(vec![]))),
        Ok(EValue::ListBool(vec![]))
    );
    assert_eq!(
        EValue::from_js(&tagged(7, HostData::List(vec![]))),
        Ok(EValue::ListDouble(vec![]))
    );
    assert_eq!(
        EValue::from_js(&tagged(8, HostData::List(vec![]))),
        Ok(EValue::ListInt(vec![]))
    );
}
