use constprop::lattice::IntConstAbsVal;
use constprop::lattice::IntConstAbsVal::{Bottom, IntConst, Top};
use constprop::lir::{ArithOp, RelaOp};

fn samples() -> Vec<IntConstAbsVal> {
    vec![Bottom, Top, IntConst(0), IntConst(1), IntConst(-1), IntConst(i32::MAX), IntConst(i32::MIN)]
}

fn le(a: IntConstAbsVal, b: IntConstAbsVal) -> bool {
    a == Bottom || b == Top || a == b
}

#[test]
fn join_follows_the_lattice() {
    assert_eq!(IntConstAbsVal::join(&Top, &IntConst(3)), Top);
    assert_eq!(IntConstAbsVal::join(&IntConst(3), &Top), Top);
    assert_eq!(IntConstAbsVal::join(&Bottom, &IntConst(3)), IntConst(3));
    assert_eq!(IntConstAbsVal::join(&IntConst(3), &Bottom), IntConst(3));
    assert_eq!(IntConstAbsVal::join(&Bottom, &Bottom), Bottom);
    assert_eq!(IntConstAbsVal::join(&Bottom, &Top), Top);
    assert_eq!(IntConstAbsVal::join(&IntConst(3), &IntConst(3)), IntConst(3));
    assert_eq!(IntConstAbsVal::join(&IntConst(3), &IntConst(4)), Top);
}

#[test]
fn join_is_least_upper_bound_on_samples() {
    for a in samples() {
        for b in samples() {
            let j = IntConstAbsVal::join(&a, &b);
            assert!(le(a, j) && le(b, j));
            assert_eq!(j, IntConstAbsVal::join(&b, &a));
            for c in samples() {
                if le(a, c) && le(b, c) {
                    assert!(le(j, c));
                }
                assert_eq!(
                    IntConstAbsVal::join(&j, &c),
                    IntConstAbsVal::join(&a, &IntConstAbsVal::join(&b, &c))
                );
            }
        }
        assert_eq!(IntConstAbsVal::join(&a, &a), a);
    }
}

#[test]
fn arithmetic_on_constants() {
    assert_eq!(IntConstAbsVal::arith(&IntConst(2), &IntConst(3), &ArithOp::Add), IntConst(5));
    assert_eq!(IntConstAbsVal::arith(&IntConst(2), &IntConst(3), &ArithOp::Subtract), IntConst(-1));
    assert_eq!(IntConstAbsVal::arith(&IntConst(-4), &IntConst(3), &ArithOp::Multiply), IntConst(-12));
    assert_eq!(IntConstAbsVal::arith(&IntConst(7), &IntConst(2), &ArithOp::Divide), IntConst(3));
    assert_eq!(IntConstAbsVal::arith(&IntConst(-7), &IntConst(2), &ArithOp::Divide), IntConst(-3));
    assert_eq!(IntConstAbsVal::arith(&IntConst(7), &IntConst(-2), &ArithOp::Divide), IntConst(-3));
    assert_eq!(IntConstAbsVal::arith(&IntConst(-7), &IntConst(-2), &ArithOp::Divide), IntConst(3));
}

#[test]
fn arithmetic_wraps_around() {
    assert_eq!(IntConstAbsVal::arith(&IntConst(i32::MAX), &IntConst(1), &ArithOp::Add), IntConst(i32::MIN));
    assert_eq!(
        IntConstAbsVal::arith(&IntConst(i32::MIN), &IntConst(1), &ArithOp::Subtract),
        IntConst(i32::MAX)
    );
    assert_eq!(IntConstAbsVal::arith(&IntConst(65536), &IntConst(65536), &ArithOp::Multiply), IntConst(0));
    assert_eq!(
        IntConstAbsVal::arith(&IntConst(i32::MAX), &IntConst(2), &ArithOp::Multiply),
        IntConst(-2)
    );
    assert_eq!(
        IntConstAbsVal::arith(&IntConst(i32::MIN), &IntConst(-1), &ArithOp::Divide),
        IntConst(i32::MIN)
    );
}

#[test]
fn division_by_zero_is_unknown() {
    for i in [0, 1, -1, 10, i32::MIN, i32::MAX] {
        assert_eq!(IntConstAbsVal::arith(&IntConst(i), &IntConst(0), &ArithOp::Divide), Top);
    }
}

#[test]
fn bottom_operand_gives_bottom() {
    for op in [ArithOp::Add, ArithOp::Subtract, ArithOp::Multiply, ArithOp::Divide] {
        for a in samples() {
            assert_eq!(IntConstAbsVal::arith(&Bottom, &a, &op), Bottom);
            assert_eq!(IntConstAbsVal::arith(&a, &Bottom, &op), Bottom);
        }
    }
    for op in [RelaOp::Eq, RelaOp::Neq, RelaOp::Less, RelaOp::LessEq, RelaOp::Greater, RelaOp::GreaterEq] {
        for a in samples() {
            assert_eq!(IntConstAbsVal::cmp(&Bottom, &a, &op), Bottom);
            assert_eq!(IntConstAbsVal::cmp(&a, &Bottom, &op), Bottom);
        }
    }
}

#[test]
fn top_operand_beside_a_constant_gives_top() {
    for op in [ArithOp::Add, ArithOp::Subtract, ArithOp::Multiply, ArithOp::Divide] {
        assert_eq!(IntConstAbsVal::arith(&Top, &IntConst(4), &op), Top);
        assert_eq!(IntConstAbsVal::arith(&IntConst(4), &Top, &op), Top);
        assert_eq!(IntConstAbsVal::arith(&Top, &Top, &op), Top);
    }
    assert_eq!(IntConstAbsVal::cmp(&Top, &IntConst(4), &RelaOp::Less), Top);
    assert_eq!(IntConstAbsVal::cmp(&IntConst(4), &Top, &RelaOp::Eq), Top);
}

#[test]
fn comparison_on_constants() {
    let one = IntConst(1);
    let zero = IntConst(0);
    assert_eq!(IntConstAbsVal::cmp(&IntConst(3), &IntConst(3), &RelaOp::Eq), one);
    assert_eq!(IntConstAbsVal::cmp(&IntConst(3), &IntConst(4), &RelaOp::Eq), zero);
    assert_eq!(IntConstAbsVal::cmp(&IntConst(3), &IntConst(3), &RelaOp::Neq), zero);
    assert_eq!(IntConstAbsVal::cmp(&IntConst(3), &IntConst(4), &RelaOp::Neq), one);
    assert_eq!(IntConstAbsVal::cmp(&IntConst(-3), &IntConst(4), &RelaOp::Less), one);
    assert_eq!(IntConstAbsVal::cmp(&IntConst(4), &IntConst(4), &RelaOp::Less), zero);
    assert_eq!(IntConstAbsVal::cmp(&IntConst(4), &IntConst(4), &RelaOp::LessEq), one);
    assert_eq!(IntConstAbsVal::cmp(&IntConst(5), &IntConst(4), &RelaOp::LessEq), zero);
    assert_eq!(IntConstAbsVal::cmp(&IntConst(5), &IntConst(4), &RelaOp::Greater), one);
    assert_eq!(IntConstAbsVal::cmp(&IntConst(4), &IntConst(4), &RelaOp::Greater), zero);
    assert_eq!(IntConstAbsVal::cmp(&IntConst(4), &IntConst(4), &RelaOp::GreaterEq), one);
    assert_eq!(IntConstAbsVal::cmp(&IntConst(i32::MIN), &IntConst(i32::MAX), &RelaOp::GreaterEq), zero);
}

#[test]
fn arithmetic_and_comparison_are_monotone_on_samples() {
    for a1 in samples() {
        for a2 in samples() {
            for b1 in samples() {
                for b2 in samples() {
                    if le(a1, a2) && le(b1, b2) {
                        for op in [ArithOp::Add, ArithOp::Subtract, ArithOp::Multiply, ArithOp::Divide] {
                            assert!(le(
                                IntConstAbsVal::arith(&a1, &b1, &op),
                                IntConstAbsVal::arith(&a2, &b2, &op)
                            ));
                        }
                        for op in [RelaOp::Eq, RelaOp::Less, RelaOp::GreaterEq] {
                            assert!(le(IntConstAbsVal::cmp(&a1, &b1, &op), IntConstAbsVal::cmp(&a2, &b2, &op)));
                        }
                    }
                }
            }
        }
    }
}

#[test]
fn printed_forms() {
    assert_eq!(Top.as_string(), "Top");
    assert_eq!(Bottom.as_string(), "Bottom");
    assert_eq!(IntConst(0).as_string(), "0");
    assert_eq!(IntConst(7).as_string(), "7");
    assert_eq!(IntConst(10).as_string(), "10");
    assert_eq!(IntConst(-42).as_string(), "-42");
    assert_eq!(IntConst(i32::MAX).as_string(), "2147483647");
    assert_eq!(IntConst(i32::MIN).as_string(), "-2147483648");
    assert_eq!(IntConst(1000000).as_string(), "1000000");
}

#[test]
fn printed_form_reads_back() {
    for v in samples() {
        assert_eq!(IntConstAbsVal::parse(&v.as_string()), Some(v));
    }
    for i in [9, 10, 11, 99, 100, 101, -9, -10, -100, 123456789, -123456789] {
        assert_eq!(IntConstAbsVal::parse(&IntConst(i).as_string()), Some(IntConst(i)));
        assert_eq!(IntConst(i).as_string(), format!("{}", i));
    }
}

#[test]
fn parse_accepts_what_stands_for_a_value_only() {
    assert_eq!(IntConstAbsVal::parse("Top"), Some(Top));
    assert_eq!(IntConstAbsVal::parse("Bottom"), Some(Bottom));
    assert_eq!(IntConstAbsVal::parse("+5"), Some(IntConst(5)));
    assert_eq!(IntConstAbsVal::parse("007"), Some(IntConst(7)));
    assert_eq!(IntConstAbsVal::parse("-0"), Some(IntConst(0)));
    assert_eq!(IntConstAbsVal::parse("2147483647"), Some(IntConst(i32::MAX)));
    assert_eq!(IntConstAbsVal::parse("2147483648"), None);
    assert_eq!(IntConstAbsVal::parse("-2147483648"), Some(IntConst(i32::MIN)));
    assert_eq!(IntConstAbsVal::parse("-2147483649"), None);
    assert_eq!(IntConstAbsVal::parse("99999999999999999999999"), None);
    assert_eq!(IntConstAbsVal::parse(""), None);
    assert_eq!(IntConstAbsVal::parse("-"), None);
    assert_eq!(IntConstAbsVal::parse("+"), None);
    assert_eq!(IntConstAbsVal::parse("top"), None);
    assert_eq!(IntConstAbsVal::parse("12a"), None);
    assert_eq!(IntConstAbsVal::parse(" 12"), None);
    assert_eq!(IntConstAbsVal::parse("--1"), None);
    assert_eq!(IntConstAbsVal::parse("\u{663}"), None);
}
