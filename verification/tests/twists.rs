use hyperpuzzle::motor::{Motor, UNIT};
use hyperpuzzle::twist_system::{Axis, BadTwist, IndexOutOfRange, Twist, TwistBuilder, TwistSystemBuilder, TwistWarning};

/// A quarter turn about one plane in 3D: scalar and one bivector term.
fn turn(b: i64) -> Motor {
    let mut c = vec![0i64; 16];
    c[0] = 707_106_781;
    c[6] = b;
    Motor::from_coefs(3, c).unwrap()
}

fn twist(axis: u16, m: Motor) -> TwistBuilder {
    TwistBuilder { axis: Axis(axis), transform: m, qtm: 1 }
}

#[test]
fn motor_reverse_and_canonicalize() {
    let m = turn(707_106_781);
    let r = m.reverse();
    // Grade-2 terms flip sign, the scalar does not.
    assert_eq!(r.coefs()[0], 707_106_781);
    assert_eq!(r.coefs()[6], -707_106_781);
    assert!(r.reverse().same_as(&m));
    let mut c = vec![0i64; 4];
    c[1] = -5;
    c[3] = 2;
    let n = Motor::from_coefs(2, c).unwrap();
    let k = n.canonicalize().unwrap();
    assert_eq!(k.coefs(), &[0, 5, 0, -2]);
    assert!(k.canonicalize().unwrap().same_as(&k));
    assert!(Motor::from_coefs(2, vec![0, 0]).unwrap().canonicalize().is_none());
    assert!(Motor::from_coefs(2, vec![i64::MIN]).is_none());
    // Grade 3 (bitmask 7) flips, grade 4 (bitmask 15) does not.
    let mut d = vec![0i64; 16];
    d[7] = 3;
    d[15] = 4;
    let rd = Motor::from_coefs(3, d).unwrap().reverse();
    assert_eq!(rd.coefs()[7], -3);
    assert_eq!(rd.coefs()[15], 4);
}

#[test]
fn motor_identity() {
    let id = Motor::ident(3, 16);
    assert!(id.is_ident());
    assert_eq!(id.coefs()[0], UNIT);
    let mut c = vec![0i64; 16];
    c[0] = -UNIT;
    assert!(Motor::from_coefs(3, c).unwrap().is_ident());
    assert!(!turn(1).is_ident());
    assert!(!Motor::from_coefs(3, vec![]).unwrap().is_ident());
}

#[test]
fn add_lookup_and_reject() {
    let mut ts = TwistSystemBuilder::new();
    assert!(matches!(ts.add(twist(0, Motor::ident(3, 16))), Ok(Err(BadTwist::Identity))));
    let a = ts.add(twist(0, turn(707_106_781))).unwrap().unwrap();
    assert_eq!(a, Twist(0));
    let b = ts.add(twist(0, turn(-707_106_781))).unwrap().unwrap();
    assert_eq!(b, Twist(1));
    // Same transform on another axis is another twist.
    let c = ts.add(twist(1, turn(707_106_781))).unwrap().unwrap();
    assert_eq!(c, Twist(2));
    assert_eq!(ts.len(), 3);
    ts.set_name(a, Some("R".to_string())).unwrap();
    match ts.add(twist(0, turn(707_106_781))) {
        Ok(Err(BadTwist::DuplicateTwist { id, name })) => {
            assert_eq!(id, a);
            assert_eq!(name, "R");
        }
        other => panic!("{other:?}"),
    }
    assert_eq!(ts.data_to_id(Axis(0), &turn(707_106_781)), Some(a));
    assert_eq!(ts.data_to_id(Axis(1), &turn(-707_106_781)), None);
    assert_eq!(ts.get(Twist(1)).unwrap().axis, Axis(0));
    assert_eq!(ts.get(Twist(3)).unwrap_err(), IndexOutOfRange { index: 3, count: 3 });
}

#[test]
fn inverse_finds_reverse() {
    let mut ts = TwistSystemBuilder::new();
    let a = ts.add(twist(0, turn(707_106_781))).unwrap().unwrap();
    let b = ts.add(twist(0, turn(-707_106_781))).unwrap().unwrap();
    let c = ts.add(twist(1, turn(100))).unwrap().unwrap();
    assert_eq!(ts.inverse(a), Ok(Some(b)));
    assert_eq!(ts.inverse(b), Ok(Some(a)));
    assert_eq!(ts.inverse(c), Ok(None));
    assert!(ts.inverse(Twist(9)).is_err());
}

#[test]
fn data_to_id_tries_canonical_form() {
    let mut ts = TwistSystemBuilder::new();
    let a = ts.add(twist(0, turn(500))).unwrap().unwrap();
    // The negated motor is the same transformation.
    let mut neg = vec![0i64; 16];
    neg[0] = -707_106_781;
    neg[6] = -500;
    let m = Motor::from_coefs(3, neg).unwrap();
    assert_eq!(ts.data_to_id(Axis(0), &m), Some(a));
}

#[test]
fn add_named_reports_problems() {
    let mut ts = TwistSystemBuilder::new();
    let mut warnings = vec![];
    let a = ts.add_named(twist(0, turn(1)), "R".to_string(), &mut warnings).unwrap();
    assert_eq!(a, Some(Twist(0)));
    assert!(warnings.is_empty());
    let none = ts.add_named(twist(0, Motor::ident(3, 16)), "I".to_string(), &mut warnings).unwrap();
    assert_eq!(none, None);
    assert!(matches!(warnings[0], TwistWarning::BadTwist(BadTwist::Identity)));
    let b = ts.add_named(twist(0, turn(2)), "R".to_string(), &mut warnings).unwrap();
    assert_eq!(b, Some(Twist(1)));
    assert!(matches!(warnings[1], TwistWarning::BadName(_)));
    assert_eq!(ts.names().get(1), None);
}

#[test]
fn alphabetized_unnamed_first() {
    let mut ts = TwistSystemBuilder::new();
    for k in 1..=4 {
        ts.add(twist(0, turn(k))).unwrap().unwrap();
    }
    ts.set_name(Twist(0), Some("U".to_string())).unwrap();
    ts.set_name(Twist(2), Some("F".to_string())).unwrap();
    ts.set_name(Twist(3), Some("R".to_string())).unwrap();
    assert_eq!(ts.alphabetized(), vec![Twist(1), Twist(2), Twist(3), Twist(0)]);
}
