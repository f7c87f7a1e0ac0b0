use forge3d::drivers::evaluate::Driver;
use forge3d::drivers::expression::{BinaryOp, ExprNode};
use forge3d::drivers::parser::parse_expression;
use forge3d::drivers::runtime::{builtin_name, check_call, BuiltinName, MathFunction};
use forge3d::drivers::source::TargetId;
use forge3d::drivers::variable::DriverVariable;
use forge3d::drivers::{DriverError, DriverType};

fn op_text(op: BinaryOp) -> &'static str {
    match op {
        BinaryOp::Add => "+",
        BinaryOp::Sub => "-",
        BinaryOp::Mul => "*",
        BinaryOp::Div => "/",
        BinaryOp::Mod => "%",
        BinaryOp::Pow => "^",
        BinaryOp::Less => "<",
        BinaryOp::LessEq => "<=",
        BinaryOp::Greater => ">",
        BinaryOp::GreaterEq => ">=",
        BinaryOp::Equal => "==",
        BinaryOp::NotEqual => "!=",
        BinaryOp::And => "and",
        BinaryOp::Or => "or",
    }
}

fn show(e: &ExprNode) -> String {
    match e {
        ExprNode::Literal(t) => t.clone(),
        ExprNode::Variable(v) => v.clone(),
        ExprNode::BinaryOp { op, left, right } => format!("({} {} {})", op_text(*op), show(left), show(right)),
        ExprNode::Negate(x) => format!("(neg {})", show(x)),
        ExprNode::FunctionCall { name, args } => {
            let parts: Vec<String> = args.iter().map(show).collect();
            format!("{}[{}]", name, parts.join(", "))
        }
        ExprNode::Conditional { condition, then_expr, else_expr } => {
            format!("(if {} {} {})", show(condition), show(then_expr), show(else_expr))
        }
    }
}

fn parsed(src: &str) -> String {
    show(&parse_expression(src).unwrap().root)
}

fn parse_error(src: &str) -> String {
    match parse_expression(src) {
        Err(DriverError::ParseError(m)) => m,
        other => panic!("expected a parse error, got {:?}", other),
    }
}

#[test]
fn precedence_of_operators() {
    assert_eq!(parsed("1 + 2 * 3"), "(+ 1 (* 2 3))");
    assert_eq!(parsed("(1 + 2) * 3"), "(* (+ 1 2) 3)");
    assert_eq!(parsed("a - b - c"), "(- (- a b) c)");
    assert_eq!(parsed("a < b and b <= c or d"), "(or (and (< a b) (<= b c)) d)");
    assert_eq!(parsed("a && b || c != d"), "(or (and a b) (!= c d))");
    assert_eq!(parsed("x % 2 == 0"), "(== (% x 2) 0)");
}

#[test]
fn power_is_right_associative_and_binds_tighter_than_unary_minus_operand() {
    assert_eq!(parsed("2 ^ 3 ^ 2"), "(^ 2 (^ 3 2))");
    assert_eq!(parsed("2 ** 3"), "(^ 2 3)");
    assert_eq!(parsed("-x ^ 2"), "(^ (neg x) 2)");
    assert_eq!(parsed("+-x"), "(neg x)");
}

#[test]
fn calls_conditionals_and_numbers() {
    assert_eq!(parsed("max(a, 1.5e3)"), "max[a, 1.5e3]");
    assert_eq!(parsed("f()"), "f[]");
    assert_eq!(parsed("a > 0 ? b : c ? d : e"), "(if (> a 0) b (if c d e))");
    assert_eq!(parsed(".5 + 2."), "(+ .5 2.)");
    assert_eq!(parsed("frame / 24"), "(/ frame 24)");
    let e = parse_expression(" sin(frame) ").unwrap();
    assert_eq!(e.source, " sin(frame) ");
}

#[test]
fn lexer_errors() {
    assert_eq!(parse_error("a = b"), "unexpected '='");
    assert_eq!(parse_error("!a"), "unexpected '!'");
    assert_eq!(parse_error("a & b"), "unexpected '&'");
    assert_eq!(parse_error("a | b"), "unexpected '|'");
    assert_eq!(parse_error("a # b"), "unexpected character '#'");
    assert_eq!(parse_error("1.2.3"), "invalid number `1.2.3`: invalid float literal");
    assert_eq!(parse_error("1e+"), "invalid number `1e+`: invalid float literal");
    assert_eq!(parse_error("."), "invalid number `.`: invalid float literal");
}

#[test]
fn parser_errors() {
    assert_eq!(parse_error("1 2"), "unexpected token at position 1");
    assert_eq!(parse_error(""), "unexpected token: None");
    assert_eq!(parse_error("(1 + 2"), "expected RParen, got None");
    assert_eq!(parse_error("a ? b"), "expected Colon, got None");
    assert_eq!(parse_error("max(1,)"), "unexpected token: Some(RParen)");
    assert_eq!(parse_error("* 2"), "unexpected token: Some(Star)");
    assert_eq!(parse_error("(1 2)"), "expected RParen, got Some(Number(2))");
    assert_eq!(parse_error("f(x y)"), "expected RParen, got Some(Ident(\"y\"))");
}

#[test]
fn function_lookup_and_arity() {
    assert_eq!(MathFunction::named("atan2"), Some(MathFunction::Atan2));
    assert_eq!(MathFunction::named("nope"), None);
    assert_eq!(MathFunction::Clamp.arity(), 3);
    assert_eq!(MathFunction::Sqrt.arity(), 1);
    assert!(matches!(check_call("min", 2), Ok(MathFunction::Min)));
    assert!(matches!(check_call("min", 5), Ok(MathFunction::Min)));
    match check_call("lerp", 2) {
        Err(DriverError::EvalError(m)) => assert_eq!(m, "lerp(): expected 3 arguments"),
        other => panic!("unexpected {:?}", other),
    }
    match check_call("sin", 0) {
        Err(DriverError::EvalError(m)) => assert_eq!(m, "sin(): expected 1 argument"),
        other => panic!("unexpected {:?}", other),
    }
    match check_call("foo", 1) {
        Err(DriverError::EvalError(m)) => assert_eq!(m, "unknown function `foo`"),
        other => panic!("unexpected {:?}", other),
    }
    assert_eq!(builtin_name("pi"), Some(BuiltinName::Pi));
    assert_eq!(builtin_name("frame"), Some(BuiltinName::Frame));
    assert_eq!(builtin_name("e"), Some(BuiltinName::E));
    assert_eq!(builtin_name("tau"), None);
}

#[test]
fn driver_error_messages() {
    assert_eq!(DriverError::VariableNotFound("x".to_string()).to_string(), "variable `x` not found");
    assert_eq!(DriverError::ParseError("m".to_string()).to_string(), "expression parse error: m");
    assert_eq!(DriverError::EvalError("m".to_string()).to_string(), "expression evaluation error: m");
    assert_eq!(DriverError::CyclicDependency.to_string(), "cyclic driver dependency detected");
    assert_eq!(DriverError::InvalidTarget("t".to_string()).to_string(), "invalid driver target: t");
}

#[test]
fn driver_parts() {
    let d = Driver::new(DriverType::Sum);
    assert_eq!(d.driver_type, DriverType::Sum);
    assert!(d.variables.is_empty());
    assert_eq!(DriverType::default(), DriverType::Average);
    let t = TargetId::bone("Rig", "Arm");
    assert_eq!(t.name, "Rig");
    assert_eq!(t.bone.as_deref(), Some("Arm"));
    assert!(TargetId::object("Cube").bone.is_none());
}

#[test]
fn variable_cache_invalidation() {
    let src = forge3d::drivers::source::DriverSource::SingleProperty {
        target: TargetId::object("Cube"),
        data_path: "location.x".to_string(),
    };
    let mut v = DriverVariable::new("x", src);
    assert_eq!(v.name, "x");
    assert!(!v.cache_valid);
    v.cached_value = 2.0f64.to_bits();
    v.cache_valid = true;
    v.invalidate();
    assert!(!v.cache_valid);
    assert_eq!(v.cached_value, 2.0f64.to_bits());
}
