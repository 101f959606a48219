use pettyscript_bytecode::value::Value;

#[test]
fn test_add() {
    assert_eq!(Value::Int(1).add(Value::Int(2)).unwrap(), Value::Int(3));
    assert_eq!(
        Value::Float((1.5f64).to_bits()).add(Value::Int(2)).unwrap(),
        Value::Float((3.5f64).to_bits())
    );
    assert_eq!(
        Value::Int(1).add(Value::Float((0.5f64).to_bits())).unwrap(),
        Value::Float((1.5f64).to_bits())
    );
    assert_eq!(
        Value::Float((1.5f64).to_bits()).add(Value::Float((2.5f64).to_bits())).unwrap(),
        Value::Float((4.0f64).to_bits())
    );
}

#[test]
fn test_sub() {
    assert_eq!(Value::Int(5).sub(Value::Int(3)).unwrap(), Value::Int(2));
    assert_eq!(
        Value::Float((3.5f64).to_bits()).sub(Value::Int(1)).unwrap(),
        Value::Float((2.5f64).to_bits())
    );
    assert_eq!(
        Value::Int(1).sub(Value::Float((0.5f64).to_bits())).unwrap(),
        Value::Float((0.5f64).to_bits())
    );
    assert_eq!(
        Value::Float((4.5f64).to_bits()).sub(Value::Float((2.5f64).to_bits())).unwrap(),
        Value::Float((2.0f64).to_bits())
    );
}

#[test]
fn test_mul() {
    assert_eq!(Value::Int(5).mul(Value::Int(3)).unwrap(), Value::Int(15));
    assert_eq!(
        Value::Float((3.5f64).to_bits()).mul(Value::Int(2)).unwrap(),
        Value::Float((7.0f64).to_bits())
    );
    assert_eq!(
        Value::Int(1).mul(Value::Float((0.5f64).to_bits())).unwrap(),
        Value::Float((0.5f64).to_bits())
    );
    assert_eq!(
        Value::Float((5.0f64).to_bits()).mul(Value::Float((2.5f64).to_bits())).unwrap(),
        Value::Float((12.5f64).to_bits())
    );
}

#[test]
fn test_div() {
    assert_eq!(
        Value::Int(7).div(Value::Int(2)).unwrap(),
        Value::Float((3.5f64).to_bits())
    );
    assert_eq!(
        Value::Float((3.5f64).to_bits()).div(Value::Int(2)).unwrap(),
        Value::Float((1.75f64).to_bits())
    );
    assert_eq!(
        Value::Int(4).div(Value::Float((2.0f64).to_bits())).unwrap(),
        Value::Float((2.0f64).to_bits())
    );
    assert_eq!(
        Value::Float((5.0f64).to_bits()).div(Value::Float((2.5f64).to_bits())).unwrap(),
        Value::Float((2.0f64).to_bits())
    );
}

#[test]
fn string_mul_both_orders() {
    let ab = || Value::Str(String::from("ab"));
    assert_eq!(ab().mul(Value::Int(3)).unwrap(), Value::Str(String::from("ababab")));
    assert_eq!(Value::Int(3).mul(ab()).unwrap(), Value::Str(String::from("ababab")));
    assert_eq!(ab().mul(Value::Int(0)).unwrap(), Value::Str(String::new()));
    assert_eq!(ab().mul(Value::Int(-1)).unwrap(), Value::Str(String::new()));
    assert_eq!(Value::Int(-1).mul(ab()).unwrap(), Value::Str(String::new()));
}

#[test]
fn string_concat() {
    let a = Value::Str(String::from("Hello, "));
    let b = Value::Str(String::from("World!"));
    assert_eq!(a.add(b).unwrap(), Value::Str(String::from("Hello, World!")));
}

#[test]
fn unsupported_operand_types() {
    assert!(Value::Int(1).add(Value::Function(3)).is_err());
    assert!(Value::Str(String::from("x")).sub(Value::Int(1)).is_err());
    assert!(Value::Str(String::from("x")).mul(Value::Str(String::from("y"))).is_err());
    assert!(Value::Str(String::from("x")).div(Value::Int(1)).is_err());
    assert!(Value::Function(1).add(Value::Function(2)).is_err());
}

#[test]
fn truthiness_rules() {
    assert_eq!(Value::Int(0).as_bool().unwrap(), false);
    assert_eq!(Value::Int(7).as_bool().unwrap(), true);
    assert_eq!(Value::Float((0.0f64).to_bits()).as_bool().unwrap(), false);
    assert_eq!(Value::Float((-0.0f64).to_bits()).as_bool().unwrap(), false);
    assert_eq!(Value::Float((2.5f64).to_bits()).as_bool().unwrap(), true);
    // a string is truthy exactly when it is empty: the engine's historical rule
    assert_eq!(Value::Str(String::new()).as_bool().unwrap(), true);
    assert_eq!(Value::Str(String::from("x")).as_bool().unwrap(), false);
    assert!(Value::Function(5).as_bool().is_err());
}

#[test]
fn float_equality_semantics() {
    // 0.0 == -0.0, and a NaN equals nothing, itself included
    assert_eq!(Value::Float((0.0f64).to_bits()), Value::Float((-0.0f64).to_bits()));
    let nan = Value::Float(f64::NAN.to_bits());
    assert!(nan != Value::Float(f64::NAN.to_bits()));
    assert!(Value::Float((1.5f64).to_bits()) != Value::Float((2.5f64).to_bits()));
}
