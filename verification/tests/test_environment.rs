use lox::environment::Environment;
use lox::number::Number;
use lox::object::LoxObject;
use lox::source_location::SourceLocation;

fn number(value: f64) -> LoxObject {
    LoxObject::Number {
        location: SourceLocation::new_single_line(0, 0, 0),
        value: Number::from_bits(value.to_bits()),
    }
}

#[test]
fn it_should_define_variables() {
    let mut env = Environment::new(None);
    let location = SourceLocation::new_single_line(0, 0, 0);
    let pi_value = LoxObject::Number {
        location,
        value: Number::from_bits(3.1415f64.to_bits()),
    };
    let speed_of_light = LoxObject::Number {
        location,
        value: Number::from_bits(299792258.0f64.to_bits()),
    };

    env.define("PI_VALUE".to_string(), pi_value.clone());
    env.define("SPEED_OF_LIGHT".to_string(), speed_of_light.clone());

    assert_eq!(2, env.length());
    assert_eq!(env.retrieve("PI_VALUE").unwrap(), pi_value);
    assert_eq!(env.retrieve("SPEED_OF_LIGHT").unwrap(), speed_of_light);
}

#[test]
fn it_should_reassign_variables() {
    let mut env = Environment::new(None);
    let location = SourceLocation::new_single_line(0, 0, 0);
    let num1 = LoxObject::Nil { location };
    let num2 = LoxObject::Number {
        location,
        value: Number::from_bits(2.71828f64.to_bits()),
    };

    env.define("number".to_string(), num1.clone());

    assert_eq!(env.retrieve("number").unwrap(), num1);

    let _ = env.assign("number".to_string(), num2.clone());

    assert_eq!(env.retrieve("number").unwrap(), num2);
    assert_eq!(1, env.length());
}

#[test]
fn defining_a_name_again_overwrites_it() {
    let mut env = Environment::new(None);
    env.define("a".to_string(), number(1.0));
    env.define("b".to_string(), number(2.0));
    env.define("a".to_string(), number(3.0));
    assert_eq!(env.length(), 2);
    assert_eq!(env.retrieve("a"), Some(number(3.0)));
    assert_eq!(env.retrieve("b"), Some(number(2.0)));
}

#[test]
fn assigning_to_an_unknown_name_fails_and_defines_nothing() {
    let mut env = Environment::new(None);
    assert_eq!(env.assign("y".to_string(), number(5.0)), Err(()));
    assert_eq!(env.retrieve("y"), None);
    assert_eq!(env.length(), 0);
}

#[test]
fn retrieval_walks_outward() {
    let mut outer = Environment::new(None);
    outer.define("x".to_string(), number(1.0));
    outer.define("y".to_string(), number(2.0));
    let mut inner = Environment::new(Some(outer));
    inner.define("x".to_string(), number(10.0));
    assert_eq!(inner.length(), 1);
    assert_eq!(inner.retrieve("x"), Some(number(10.0)));
    assert_eq!(inner.retrieve("y"), Some(number(2.0)));
    assert_eq!(inner.retrieve("z"), None);
    inner.leave();
    assert_eq!(inner.retrieve("x"), Some(number(1.0)));
    assert_eq!(inner.length(), 2);
}

#[test]
fn assignment_changes_the_innermost_frame_that_binds_the_name() {
    let mut outer = Environment::new(None);
    outer.define("x".to_string(), number(1.0));
    outer.define("y".to_string(), number(2.0));
    let mut env = Environment::wrap(outer);
    env.define("x".to_string(), number(10.0));
    assert_eq!(env.assign("x".to_string(), number(11.0)), Ok(()));
    assert_eq!(env.assign("y".to_string(), number(22.0)), Ok(()));
    assert_eq!(env.retrieve("x"), Some(number(11.0)));
    assert_eq!(env.length(), 1);
    env.leave();
    assert_eq!(env.retrieve("x"), Some(number(1.0)));
    assert_eq!(env.retrieve("y"), Some(number(22.0)));
}

#[test]
fn the_outermost_frame_is_never_dropped() {
    let mut env = Environment::new(None);
    env.define("x".to_string(), number(1.0));
    env.leave();
    assert_eq!(env.retrieve("x"), Some(number(1.0)));
}

#[test]
fn suspended_frames_come_back_unchanged() {
    let mut env = Environment::new(None);
    env.define("g".to_string(), number(1.0));
    env.enter();
    env.define("a".to_string(), number(2.0));
    let inner = env.suspend();
    assert_eq!(env.retrieve("a"), None);
    env.enter();
    env.define("p".to_string(), number(3.0));
    let _ = env.assign("g".to_string(), number(4.0));
    env.resume(inner);
    assert_eq!(env.retrieve("p"), None);
    assert_eq!(env.retrieve("a"), Some(number(2.0)));
    assert_eq!(env.retrieve("g"), Some(number(4.0)));
}
