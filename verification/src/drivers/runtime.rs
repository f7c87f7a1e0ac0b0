//! The decisions of expression evaluation that involve no arithmetic: which
//! built-in function a call names and whether it has enough arguments, and
//! which names are built-in constants.

use vstd::prelude::*;
use vstd::string::*;

use super::DriverError;
use crate::text::{decimal, push_decimal, str_eq};

verus! {

/// The built-in functions of driver expressions.
#[derive(Debug, Clone, Copy, PartialEq, Eq, Structural)]
pub enum MathFunction {
    Sin,
    Cos,
    Tan,
    Asin,
    Acos,
    Atan,
    Atan2,
    Sqrt,
    Abs,
    Floor,
    Ceil,
    Round,
    Min,
    Max,
    Clamp,
    Lerp,
    Log,
    Log10,
    Exp,
    Pow,
    Radians,
    Degrees,
}

/// The built-in function called `name`.
pub open spec fn function_named(name: Seq<char>) -> Option<MathFunction> {
    if name == "sin"@ { Some(MathFunction::Sin) }
    else if name == "cos"@ { Some(MathFunction::Cos) }
    else if name == "tan"@ { Some(MathFunction::Tan) }
    else if name == "asin"@ { Some(MathFunction::Asin) }
    else if name == "acos"@ { Some(MathFunction::Acos) }
    else if name == "atan"@ { Some(MathFunction::Atan) }
    else if name == "atan2"@ { Some(MathFunction::Atan2) }
    else if name == "sqrt"@ { Some(MathFunction::Sqrt) }
    else if name == "abs"@ { Some(MathFunction::Abs) }
    else if name == "floor"@ { Some(MathFunction::Floor) }
    else if name == "ceil"@ { Some(MathFunction::Ceil) }
    else if name == "round"@ { Some(MathFunction::Round) }
    else if name == "min"@ { Some(MathFunction::Min) }
    else if name == "max"@ { Some(MathFunction::Max) }
    else if name == "clamp"@ { Some(MathFunction::Clamp) }
    else if name == "lerp"@ { Some(MathFunction::Lerp) }
    else if name == "log"@ { Some(MathFunction::Log) }
    else if name == "log10"@ { Some(MathFunction::Log10) }
    else if name == "exp"@ { Some(MathFunction::Exp) }
    else if name == "pow"@ { Some(MathFunction::Pow) }
    else if name == "radians"@ { Some(MathFunction::Radians) }
    else if name == "degrees"@ { Some(MathFunction::Degrees) }
    else { None }
}

/// The number of arguments a function reads; later ones are ignored.
pub open spec fn arity_of(f: MathFunction) -> nat {
    match f {
        MathFunction::Atan2 | MathFunction::Min | MathFunction::Max | MathFunction::Pow => 2,
        MathFunction::Clamp | MathFunction::Lerp => 3,
        _ => 1,
    }
}

impl MathFunction {
    /// The built-in function called `name`.
    pub fn named(name: &str) -> (r: Option<MathFunction>)
        ensures
            r == function_named(name@),
    {
        if str_eq(name, "sin") { Some(MathFunction::Sin) }
        else if str_eq(name, "cos") { Some(MathFunction::Cos) }
        else if str_eq(name, "tan") { Some(MathFunction::Tan) }
        else if str_eq(name, "asin") { Some(MathFunction::Asin) }
        else if str_eq(name, "acos") { Some(MathFunction::Acos) }
        else if str_eq(name, "atan") { Some(MathFunction::Atan) }
        else if str_eq(name, "atan2") { Some(MathFunction::Atan2) }
        else if str_eq(name, "sqrt") { Some(MathFunction::Sqrt) }
        else if str_eq(name, "abs") { Some(MathFunction::Abs) }
        else if str_eq(name, "floor") { Some(MathFunction::Floor) }
        else if str_eq(name, "ceil") { Some(MathFunction::Ceil) }
        else if str_eq(name, "round") { Some(MathFunction::Round) }
        else if str_eq(name, "min") { Some(MathFunction::Min) }
        else if str_eq(name, "max") { Some(MathFunction::Max) }
        else if str_eq(name, "clamp") { Some(MathFunction::Clamp) }
        else if str_eq(name, "lerp") { Some(MathFunction::Lerp) }
        else if str_eq(name, "log") { Some(MathFunction::Log) }
        else if str_eq(name, "log10") { Some(MathFunction::Log10) }
        else if str_eq(name, "exp") { Some(MathFunction::Exp) }
        else if str_eq(name, "pow") { Some(MathFunction::Pow) }
        else if str_eq(name, "radians") { Some(MathFunction::Radians) }
        else if str_eq(name, "degrees") { Some(MathFunction::Degrees) }
        else { None }
    }

    /// The number of arguments the function reads.
    pub fn arity(self) -> (n: usize)
        ensures
            n == arity_of(self),
    {
        match self {
            MathFunction::Atan2 | MathFunction::Min | MathFunction::Max | MathFunction::Pow => 2,
            MathFunction::Clamp | MathFunction::Lerp => 3,
            _ => 1,
        }
    }
}

/// The message for a call with too few arguments.
pub open spec fn arity_message(name: Seq<char>, n: nat) -> Seq<char> {
    name + "(): expected "@ + decimal(n) + if n == 1 { " argument"@ } else { " arguments"@ }
}

/// Checks a call of `name` with `nargs` arguments: an unknown name, or too
/// few arguments for the function, is an evaluation error.
pub fn check_call(name: &str, nargs: usize) -> (r: Result<MathFunction, DriverError>)
    ensures
        match function_named(name@) {
            None => r matches Err(DriverError::EvalError(m)) && m@ == "unknown function `"@ + name@ + "`"@,
            Some(f) => if nargs < arity_of(f) {
                r matches Err(DriverError::EvalError(m)) && m@ == arity_message(name@, arity_of(f))
            } else {
                r == Ok::<MathFunction, DriverError>(f)
            },
        },
{
    match MathFunction::named(name) {
        None => {
            let mut m = String::from_str("unknown function `");
            m.append(name);
            m.append("`");
            Err(DriverError::EvalError(m))
        },
        Some(f) => {
            let n = f.arity();
            if nargs < n {
                let mut m = String::from_str(name);
                m.append("(): expected ");
                push_decimal(&mut m, n);
                if n == 1 {
                    m.append(" argument");
                } else {
                    m.append(" arguments");
                }
                Err(DriverError::EvalError(m))
            } else {
                Ok(f)
            }
        },
    }
}

/// The names that evaluation reads without a variable table.
#[derive(Debug, Clone, Copy, PartialEq, Eq, Structural)]
pub enum BuiltinName {
    /// `frame`: the current frame.
    Frame,
    /// `pi`.
    Pi,
    /// `e`: Euler's number.
    E,
}

/// The built-in constant a variable name stands for, if any; other names
/// are looked up among the driver's variables.
pub fn builtin_name(name: &str) -> (r: Option<BuiltinName>)
    ensures
        r == if name@ == "frame"@ {
            Some(BuiltinName::Frame)
        } else if name@ == "pi"@ {
            Some(BuiltinName::Pi)
        } else if name@ == "e"@ {
            Some(BuiltinName::E)
        } else {
            None
        },
{
    if str_eq(name, "frame") {
        Some(BuiltinName::Frame)
    } else if str_eq(name, "pi") {
        Some(BuiltinName::Pi)
    } else if str_eq(name, "e") {
        Some(BuiltinName::E)
    } else {
        None
    }
}

/// The name a built-in function is called by.
pub open spec fn function_name(f: MathFunction) -> Seq<char> {
    match f {
        MathFunction::Sin => "sin"@,
        MathFunction::Cos => "cos"@,
        MathFunction::Tan => "tan"@,
        MathFunction::Asin => "asin"@,
        MathFunction::Acos => "acos"@,
        MathFunction::Atan => "atan"@,
        MathFunction::Atan2 => "atan2"@,
        MathFunction::Sqrt => "sqrt"@,
        MathFunction::Abs => "abs"@,
        MathFunction::Floor => "floor"@,
        MathFunction::Ceil => "ceil"@,
        MathFunction::Round => "round"@,
        MathFunction::Min => "min"@,
        MathFunction::Max => "max"@,
        MathFunction::Clamp => "clamp"@,
        MathFunction::Lerp => "lerp"@,
        MathFunction::Log => "log"@,
        MathFunction::Log10 => "log10"@,
        MathFunction::Exp => "exp"@,
        MathFunction::Pow => "pow"@,
        MathFunction::Radians => "radians"@,
        MathFunction::Degrees => "degrees"@,
    }
}

/// Each built-in function is called by its own name and by no other: a
/// name resolves to a function exactly when it is that function's name, so
/// no two names share a function and no two functions share a name.
pub proof fn lemma_function_named_by_own_name(name: Seq<char>, f: MathFunction)
    ensures
        function_named(name) == Some(f) <==> name == function_name(f),
{
    reveal_strlit("sin");
    reveal_strlit("cos");
    reveal_strlit("tan");
    reveal_strlit("asin");
    reveal_strlit("acos");
    reveal_strlit("atan");
    reveal_strlit("atan2");
    reveal_strlit("sqrt");
    reveal_strlit("abs");
    reveal_strlit("floor");
    reveal_strlit("ceil");
    reveal_strlit("round");
    reveal_strlit("min");
    reveal_strlit("max");
    reveal_strlit("clamp");
    reveal_strlit("lerp");
    reveal_strlit("log");
    reveal_strlit("log10");
    reveal_strlit("exp");
    reveal_strlit("pow");
    reveal_strlit("radians");
    reveal_strlit("degrees");
    match f {
        MathFunction::Sin => {

        },
        MathFunction::Cos => {
            assert("cos"@[0] != "sin"@[0]);
        },
        MathFunction::Tan => {
            assert("tan"@[0] != "sin"@[0]);
            assert("tan"@[0] != "cos"@[0]);
        },
        MathFunction::Asin => {
            assert("asin"@.len() != "sin"@.len());
            assert("asin"@.len() != "cos"@.len());
            assert("asin"@.len() != "tan"@.len());
        },
        MathFunction::Acos => {
            assert("acos"@.len() != "sin"@.len());
            assert("acos"@.len() != "cos"@.len());
            assert("acos"@.len() != "tan"@.len());
            assert("acos"@[1] != "asin"@[1]);
        },
        MathFunction::Atan => {
            assert("atan"@.len() != "sin"@.len());
            assert("atan"@.len() != "cos"@.len());
            assert("atan"@.len() != "tan"@.len());
            assert("atan"@[1] != "asin"@[1]);
            assert("atan"@[1] != "acos"@[1]);
        },
        MathFunction::Atan2 => {
            assert("atan2"@.len() != "sin"@.len());
            assert("atan2"@.len() != "cos"@.len());
            assert("atan2"@.len() != "tan"@.len());
            assert("atan2"@.len() != "asin"@.len());
            assert("atan2"@.len() != "acos"@.len());
            assert("atan2"@.len() != "atan"@.len());
        },
        MathFunction::Sqrt => {
            assert("sqrt"@.len() != "sin"@.len());
            assert("sqrt"@.len() != "cos"@.len());
            assert("sqrt"@.len() != "tan"@.len());
            assert("sqrt"@[0] != "asin"@[0]);
            assert("sqrt"@[0] != "acos"@[0]);
            assert("sqrt"@[0] != "atan"@[0]);
            assert("sqrt"@.len() != "atan2"@.len());
        },
        MathFunction::Abs => {
            assert("abs"@[0] != "sin"@[0]);
            assert("abs"@[0] != "cos"@[0]);
            assert("abs"@[0] != "tan"@[0]);
            assert("abs"@.len() != "asin"@.len());
            assert("abs"@.len() != "acos"@.len());
            assert("abs"@.len() != "atan"@.len());
            assert("abs"@.len() != "atan2"@.len());
            assert("abs"@.len() != "sqrt"@.len());
        },
        MathFunction::Floor => {
            assert("floor"@.len() != "sin"@.len());
            assert("floor"@.len() != "cos"@.len());
            assert("floor"@.len() != "tan"@.len());
            assert("floor"@.len() != "asin"@.len());
            assert("floor"@.len() != "acos"@.len());
            assert("floor"@.len() != "atan"@.len());
            assert("floor"@[0] != "atan2"@[0]);
            assert("floor"@.len() != "sqrt"@.len());
            assert("floor"@.len() != "abs"@.len());
        },
        MathFunction::Ceil => {
            assert("ceil"@.len() != "sin"@.len());
            assert("ceil"@.len() != "cos"@.len());
            assert("ceil"@.len() != "tan"@.len());
            assert("ceil"@[0] != "asin"@[0]);
            assert("ceil"@[0] != "acos"@[0]);
            assert("ceil"@[0] != "atan"@[0]);
            assert("ceil"@.len() != "atan2"@.len());
            assert("ceil"@[0] != "sqrt"@[0]);
            assert("ceil"@.len() != "abs"@.len());
            assert("ceil"@.len() != "floor"@.len());
        },
        MathFunction::Round => {
            assert("round"@.len() != "sin"@.len());
            assert("round"@.len() != "cos"@.len());
            assert("round"@.len() != "tan"@.len());
            assert("round"@.len() != "asin"@.len());
            assert("round"@.len() != "acos"@.len());
            assert("round"@.len() != "atan"@.len());
            assert("round"@[0] != "atan2"@[0]);
            assert("round"@.len() != "sqrt"@.len());
            assert("round"@.len() != "abs"@.len());
            assert("round"@[0] != "floor"@[0]);
            assert("round"@.len() != "ceil"@.len());
        },
        MathFunction::Min => {
            assert("min"@[0] != "sin"@[0]);
            assert("min"@[0] != "cos"@[0]);
            assert("min"@[0] != "tan"@[0]);
            assert("min"@.len() != "asin"@.len());
            assert("min"@.len() != "acos"@.len());
            assert("min"@.len() != "atan"@.len());
            assert("min"@.len() != "atan2"@.len());
            assert("min"@.len() != "sqrt"@.len());
            assert("min"@[0] != "abs"@[0]);
            assert("min"@.len() != "floor"@.len());
            assert("min"@.len() != "ceil"@.len());
            assert("min"@.len() != "round"@.len());
        },
        MathFunction::Max => {
            assert("max"@[0] != "sin"@[0]);
            assert("max"@[0] != "cos"@[0]);
            assert("max"@[0] != "tan"@[0]);
            assert("max"@.len() != "asin"@.len());
            assert("max"@.len() != "acos"@.len());
            assert("max"@.len() != "atan"@.len());
            assert("max"@.len() != "atan2"@.len());
            assert("max"@.len() != "sqrt"@.len());
            assert("max"@[0] != "abs"@[0]);
            assert("max"@.len() != "floor"@.len());
            assert("max"@.len() != "ceil"@.len());
            assert("max"@.len() != "round"@.len());
            assert("max"@[1] != "min"@[1]);
        },
        MathFunction::Clamp => {
            assert("clamp"@.len() != "sin"@.len());
            assert("clamp"@.len() != "cos"@.len());
            assert("clamp"@.len() != "tan"@.len());
            assert("clamp"@.len() != "asin"@.len());
            assert("clamp"@.len() != "acos"@.len());
            assert("clamp"@.len() != "atan"@.len());
            assert("clamp"@[0] != "atan2"@[0]);
            assert("clamp"@.len() != "sqrt"@.len());
            assert("clamp"@.len() != "abs"@.len());
            assert("clamp"@[0] != "floor"@[0]);
            assert("clamp"@.len() != "ceil"@.len());
            assert("clamp"@[0] != "round"@[0]);
            assert("clamp"@.len() != "min"@.len());
            assert("clamp"@.len() != "max"@.len());
        },
        MathFunction::Lerp => {
            assert("lerp"@.len() != "sin"@.len());
            assert("lerp"@.len() != "cos"@.len());
            assert("lerp"@.len() != "tan"@.len());
            assert("lerp"@[0] != "asin"@[0]);
            assert("lerp"@[0] != "acos"@[0]);
            assert("lerp"@[0] != "atan"@[0]);
            assert("lerp"@.len() != "atan2"@.len());
            assert("lerp"@[0] != "sqrt"@[0]);
            assert("lerp"@.len() != "abs"@.len());
            assert("lerp"@.len() != "floor"@.len());
            assert("lerp"@[0] != "ceil"@[0]);
            assert("lerp"@.len() != "round"@.len());
            assert("lerp"@.len() != "min"@.len());
            assert("lerp"@.len() != "max"@.len());
            assert("lerp"@.len() != "clamp"@.len());
        },
        MathFunction::Log => {
            assert("log"@[0] != "sin"@[0]);
            assert("log"@[0] != "cos"@[0]);
            assert("log"@[0] != "tan"@[0]);
            assert("log"@.len() != "asin"@.len());
            assert("log"@.len() != "acos"@.len());
            assert("log"@.len() != "atan"@.len());
            assert("log"@.len() != "atan2"@.len());
            assert("log"@.len() != "sqrt"@.len());
            assert("log"@[0] != "abs"@[0]);
            assert("log"@.len() != "floor"@.len());
            assert("log"@.len() != "ceil"@.len());
            assert("log"@.len() != "round"@.len());
            assert("log"@[0] != "min"@[0]);
            assert("log"@[0] != "max"@[0]);
            assert("log"@.len() != "clamp"@.len());
            assert("log"@.len() != "lerp"@.len());
        },
        MathFunction::Log10 => {
            assert("log10"@.len() != "sin"@.len());
            assert("log10"@.len() != "cos"@.len());
            assert("log10"@.len() != "tan"@.len());
            assert("log10"@.len() != "asin"@.len());
            assert("log10"@.len() != "acos"@.len());
            assert("log10"@.len() != "atan"@.len());
            assert("log10"@[0] != "atan2"@[0]);
            assert("log10"@.len() != "sqrt"@.len());
            assert("log10"@.len() != "abs"@.len());
            assert("log10"@[0] != "floor"@[0]);
            assert("log10"@.len() != "ceil"@.len());
            assert("log10"@[0] != "round"@[0]);
            assert("log10"@.len() != "min"@.len());
            assert("log10"@.len() != "max"@.len());
            assert("log10"@[0] != "clamp"@[0]);
            assert("log10"@.len() != "lerp"@.len());
            assert("log10"@.len() != "log"@.len());
        },
        MathFunction::Exp => {
            assert("exp"@[0] != "sin"@[0]);
            assert("exp"@[0] != "cos"@[0]);
            assert("exp"@[0] != "tan"@[0]);
            assert("exp"@.len() != "asin"@.len());
            assert("exp"@.len() != "acos"@.len());
            assert("exp"@.len() != "atan"@.len());
            assert("exp"@.len() != "atan2"@.len());
            assert("exp"@.len() != "sqrt"@.len());
            assert("exp"@[0] != "abs"@[0]);
            assert("exp"@.len() != "floor"@.len());
            assert("exp"@.len() != "ceil"@.len());
            assert("exp"@.len() != "round"@.len());
            assert("exp"@[0] != "min"@[0]);
            assert("exp"@[0] != "max"@[0]);
            assert("exp"@.len() != "clamp"@.len());
            assert("exp"@.len() != "lerp"@.len());
            assert("exp"@[0] != "log"@[0]);
            assert("exp"@.len() != "log10"@.len());
        },
        MathFunction::Pow => {
            assert("pow"@[0] != "sin"@[0]);
            assert("pow"@[0] != "cos"@[0]);
            assert("pow"@[0] != "tan"@[0]);
            assert("pow"@.len() != "asin"@.len());
            assert("pow"@.len() != "acos"@.len());
            assert("pow"@.len() != "atan"@.len());
            assert("pow"@.len() != "atan2"@.len());
            assert("pow"@.len() != "sqrt"@.len());
            assert("pow"@[0] != "abs"@[0]);
            assert("pow"@.len() != "floor"@.len());
            assert("pow"@.len() != "ceil"@.len());
            assert("pow"@.len() != "round"@.len());
            assert("pow"@[0] != "min"@[0]);
            assert("pow"@[0] != "max"@[0]);
            assert("pow"@.len() != "clamp"@.len());
            assert("pow"@.len() != "lerp"@.len());
            assert("pow"@[0] != "log"@[0]);
            assert("pow"@.len() != "log10"@.len());
            assert("pow"@[0] != "exp"@[0]);
        },
        MathFunction::Radians => {
            assert("radians"@.len() != "sin"@.len());
            assert("radians"@.len() != "cos"@.len());
            assert("radians"@.len() != "tan"@.len());
            assert("radians"@.len() != "asin"@.len());
            assert("radians"@.len() != "acos"@.len());
            assert("radians"@.len() != "atan"@.len());
            assert("radians"@.len() != "atan2"@.len());
            assert("radians"@.len() != "sqrt"@.len());
            assert("radians"@.len() != "abs"@.len());
            assert("radians"@.len() != "floor"@.len());
            assert("radians"@.len() != "ceil"@.len());
            assert("radians"@.len() != "round"@.len());
            assert("radians"@.len() != "min"@.len());
            assert("radians"@.len() != "max"@.len());
            assert("radians"@.len() != "clamp"@.len());
            assert("radians"@.len() != "lerp"@.len());
            assert("radians"@.len() != "log"@.len());
            assert("radians"@.len() != "log10"@.len());
            assert("radians"@.len() != "exp"@.len());
            assert("radians"@.len() != "pow"@.len());
        },
        MathFunction::Degrees => {
            assert("degrees"@.len() != "sin"@.len());
            assert("degrees"@.len() != "cos"@.len());
            assert("degrees"@.len() != "tan"@.len());
            assert("degrees"@.len() != "asin"@.len());
            assert("degrees"@.len() != "acos"@.len());
            assert("degrees"@.len() != "atan"@.len());
            assert("degrees"@.len() != "atan2"@.len());
            assert("degrees"@.len() != "sqrt"@.len());
            assert("degrees"@.len() != "abs"@.len());
            assert("degrees"@.len() != "floor"@.len());
            assert("degrees"@.len() != "ceil"@.len());
            assert("degrees"@.len() != "round"@.len());
            assert("degrees"@.len() != "min"@.len());
            assert("degrees"@.len() != "max"@.len());
            assert("degrees"@.len() != "clamp"@.len());
            assert("degrees"@.len() != "lerp"@.len());
            assert("degrees"@.len() != "log"@.len());
            assert("degrees"@.len() != "log10"@.len());
            assert("degrees"@.len() != "exp"@.len());
            assert("degrees"@.len() != "pow"@.len());
            assert("degrees"@[0] != "radians"@[0]);
        },
    }
}

} // verus!
