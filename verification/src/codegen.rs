//! The lowering stage: walks the statement sequence exactly once, in order,
//! building a module of global bindings and functions, and serializes it to
//! a textual intermediate representation for an external backend.
//!
//! The `spec_*` functions define lowering mathematically over the AST models:
//! a global's initializer is evaluated to a constant (`spec_const_eval`,
//! last-write-wins on redeclaration), statements in a body lower to
//! instructions with fresh register numbers, and every failure — an undefined
//! variable or function, an operand-kind mismatch, a non-constant-foldable
//! initializer, an unsupported expression — carries its message text, which
//! the executable `CodeGen` surfaces verbatim as a `CodegenError`. Failure
//! disturbs nothing already lowered: bindings and functions are never removed
//! or rewritten, and a failed statement emits no call instruction. Scalar
//! arithmetic on constants wraps (two's complement); constant division by
//! zero, and the one overflowing division, are `CodegenError`s rather than
//! wrapped results.

use vstd::prelude::*;

use crate::ast::BinOp;
use crate::ast::Expr;
use crate::ast::SpecExpr;
use crate::ast::SpecStatement;
use crate::ast::Statement;
use crate::ast::deep_view_exprs;
use crate::ast::deep_view_stmts;
use crate::ast::lemma_deep_view_exprs;
use crate::ast::lemma_deep_view_stmts;
use crate::errors::VentiError;
use crate::lexer::str_eq;

verus! {

/// A constant value a global binding holds: a 64-bit integer, a boolean, or
/// a pointer to the interned string with the given index.
#[derive(Debug, Clone, Copy, PartialEq, Eq, Structural)]
pub enum ConstValue {
    Int(i64),
    Bool(bool),
    Str(usize),
}

/// An operand of an instruction.
#[derive(Debug, Clone, Copy, PartialEq, Eq, Structural)]
pub enum Operand {
    /// An immediate 64-bit integer.
    Int(i64),
    /// An immediate 1-bit boolean.
    Bool(bool),
    /// A pointer to the interned string with this index.
    Str(usize),
    /// The global binding with this index in the module's global table.
    Global(usize),
    /// The value defined by register `dest` of the same function body.
    Reg(usize),
}

/// What kind of value a register holds: a scalar integer, or the base
/// pointer of an allocated block.
#[derive(Debug, Clone, Copy, PartialEq, Eq, Structural)]
pub enum RegKind {
    IntReg,
    PtrReg,
}

/// The function an emitted call targets: one defined in the module, or the
/// external formatted-output primitive.
#[derive(Debug, Clone, Copy, PartialEq, Eq, Structural)]
pub enum Callee {
    Defined(usize),
    Printf,
}

/// One lowered instruction.
#[derive(Debug, PartialEq)]
pub enum Instr {
    /// A scalar arithmetic instruction defining register `dest`.
    Bin { dest: usize, op: BinOp, lhs: Operand, rhs: Operand },
    /// Allocates a fixed-length block of `len` slots; `dest` is its base.
    Alloc { dest: usize, len: usize },
    /// Stores `value` at slot `offset` of the block based at `base`.
    Store { base: Operand, offset: usize, value: Operand },
    /// A call of the external formatted-output primitive on one value.
    Print { value: Operand },
    /// A call of `callee` on the already-lowered arguments.
    Call { callee: Callee, args: Vec<Operand> },
    /// The implicit return that closes a function body.
    Ret,
}

/// A module-level global binding.
#[derive(Debug, PartialEq)]
pub struct GlobalDef {
    pub name: String,
    pub value: ConstValue,
}

/// A function of the module: a name and a lowered body.
#[derive(Debug, PartialEq)]
pub struct Function {
    pub name: String,
    pub body: Vec<Instr>,
}

/// The mathematical model of an `Instr`.
pub ghost enum SpecInstr {
    Bin { dest: usize, op: BinOp, lhs: Operand, rhs: Operand },
    Alloc { dest: usize, len: usize },
    Store { base: Operand, offset: usize, value: Operand },
    Print { value: Operand },
    Call { callee: Callee, args: Seq<Operand> },
    Ret,
}

/// The mathematical model of a `GlobalDef`.
#[verifier::ext_equal]
pub ghost struct SpecGlobal {
    pub name: Seq<char>,
    pub value: ConstValue,
}

/// The mathematical model of a `Function`.
#[verifier::ext_equal]
pub ghost struct SpecFunction {
    pub name: Seq<char>,
    pub body: Seq<SpecInstr>,
}

/// The mathematical model of the module being built: the interned strings,
/// the global bindings, and the functions, each in emission order.
#[verifier::ext_equal]
pub ghost struct SpecModule {
    pub strings: Seq<Seq<char>>,
    pub globals: Seq<SpecGlobal>,
    pub functions: Seq<SpecFunction>,
}

impl DeepView for Instr {
    type V = SpecInstr;

    open spec fn deep_view(&self) -> SpecInstr {
        match self {
            Instr::Bin { dest, op, lhs, rhs } => SpecInstr::Bin {
                dest: *dest,
                op: *op,
                lhs: *lhs,
                rhs: *rhs,
            },
            Instr::Alloc { dest, len } => SpecInstr::Alloc { dest: *dest, len: *len },
            Instr::Store { base, offset, value } => SpecInstr::Store {
                base: *base,
                offset: *offset,
                value: *value,
            },
            Instr::Print { value } => SpecInstr::Print { value: *value },
            Instr::Call { callee, args } => SpecInstr::Call { callee: *callee, args: args@ },
            Instr::Ret => SpecInstr::Ret,
        }
    }
}

impl DeepView for GlobalDef {
    type V = SpecGlobal;

    open spec fn deep_view(&self) -> SpecGlobal {
        SpecGlobal { name: self.name@, value: self.value }
    }
}

impl DeepView for Function {
    type V = SpecFunction;

    open spec fn deep_view(&self) -> SpecFunction {
        SpecFunction { name: self.name@, body: view_instrs(self.body@) }
    }
}

/// The models of a vector of interned strings.
pub open spec fn view_strings(v: Seq<String>) -> Seq<Seq<char>> {
    Seq::new(v.len(), |i: int| v[i]@)
}

/// The models of a vector of global bindings.
pub open spec fn view_globals(v: Seq<GlobalDef>) -> Seq<SpecGlobal> {
    Seq::new(v.len(), |i: int| v[i].deep_view())
}

/// The models of a vector of functions.
pub open spec fn view_functions(v: Seq<Function>) -> Seq<SpecFunction> {
    Seq::new(v.len(), |i: int| v[i].deep_view())
}

/// The models of a vector of instructions.
pub open spec fn view_instrs(v: Seq<Instr>) -> Seq<SpecInstr> {
    Seq::new(v.len(), |i: int| v[i].deep_view())
}

/// `pre` is an unchanged prefix of `post`: nothing already present has been
/// removed or rewritten, only appended to.
pub open spec fn seq_prefix<T>(pre: Seq<T>, post: Seq<T>) -> bool {
    pre.len() <= post.len() && forall|i: int| 0 <= i < pre.len() ==> post[i] == pre[i]
}

/// Bindings are only added, and an existing binding keeps its name (only its
/// value may be replaced).
pub open spec fn preserves_binding_names(pre: Seq<SpecGlobal>, post: Seq<SpecGlobal>) -> bool {
    pre.len() <= post.len() && forall|i: int| 0 <= i < pre.len() ==> post[i].name == pre[i].name
}

proof fn lemma_seq_prefix_trans<T>(a: Seq<T>, b: Seq<T>, c: Seq<T>)
    requires
        seq_prefix(a, b),
        seq_prefix(b, c),
    ensures
        seq_prefix(a, c),
{
    assert forall|i: int| 0 <= i < a.len() implies c[i] == a[i] by {
        assert(b[i] == a[i]);
        assert(c[i] == b[i]);
    }
}

proof fn lemma_seq_prefix_concat<T>(a: Seq<T>, b: Seq<T>)
    ensures
        seq_prefix(a, a + b),
{
    assert forall|i: int| 0 <= i < a.len() implies (a + b)[i] == a[i] by {}
}

proof fn lemma_preserves_binding_names_trans(a: Seq<SpecGlobal>, b: Seq<SpecGlobal>, c: Seq<SpecGlobal>)
    requires
        preserves_binding_names(a, b),
        preserves_binding_names(b, c),
    ensures
        preserves_binding_names(a, c),
{
    assert forall|i: int| 0 <= i < a.len() implies c[i].name == a[i].name by {
        assert(b[i].name == a[i].name);
        assert(c[i].name == b[i].name);
    }
}

/// Everything appended to a body beyond `pre` is free of call instructions.
pub open spec fn no_calls_appended(pre: Seq<SpecInstr>, post: Seq<SpecInstr>) -> bool {
    forall|j: int| pre.len() <= j < post.len() ==> !(#[trigger] post[j] is Call)
}

proof fn lemma_no_calls_appended_trans(a: Seq<SpecInstr>, b: Seq<SpecInstr>, c: Seq<SpecInstr>)
    requires
        seq_prefix(a, b),
        seq_prefix(b, c),
        no_calls_appended(a, b),
        no_calls_appended(b, c),
    ensures
        no_calls_appended(a, c),
{
    assert forall|j: int| a.len() <= j < c.len() implies !(#[trigger] c[j] is Call) by {
        if j < b.len() {
            assert(c[j] == b[j]);
        }
    }
}

// ---------------------------------------------------------------------------
// Name resolution and operand kinds
// ---------------------------------------------------------------------------
/// The index of the global binding with this name, if any. Names are unique
/// in the table, so this is the binding.
pub open spec fn spec_find_global(globals: Seq<SpecGlobal>, name: Seq<char>) -> Option<int>
    decreases globals.len(),
{
    if globals.len() == 0 {
        None
    } else if globals[0].name == name {
        Some(0)
    } else {
        match spec_find_global(globals.subrange(1, globals.len() as int), name) {
            Some(i) => Some(i + 1),
            None => None,
        }
    }
}

/// The index of the first function with this name, if any.
pub open spec fn spec_find_function(functions: Seq<SpecFunction>, name: Seq<char>) -> Option<int>
    decreases functions.len(),
{
    if functions.len() == 0 {
        None
    } else if functions[0].name == name {
        Some(0)
    } else {
        match spec_find_function(functions.subrange(1, functions.len() as int), name) {
            Some(i) => Some(i + 1),
            None => None,
        }
    }
}

/// Whether an operand holds a scalar integer: an integer immediate, a global
/// currently bound to an integer, or a register an arithmetic instruction
/// defined. Booleans, string pointers and block pointers are not integers.
pub open spec fn spec_operand_is_int(o: Operand, globals: Seq<SpecGlobal>, regs: Seq<RegKind>) -> bool {
    match o {
        Operand::Int(_) => true,
        Operand::Bool(_) => false,
        Operand::Str(_) => false,
        Operand::Global(g) => g < globals.len() && globals[g as int].value is Int,
        Operand::Reg(k) => k < regs.len() && regs[k as int] is IntReg,
    }
}

// ---------------------------------------------------------------------------
// Constant arithmetic
// ---------------------------------------------------------------------------
/// The absolute value of an `i64`, as a mathematical integer.
pub open spec fn spec_i64_abs(a: i64) -> int {
    if a >= 0 {
        a as int
    } else {
        -(a as int)
    }
}

/// Truncated (round-toward-zero) signed division.
pub open spec fn spec_trunc_div(a: i64, b: i64) -> int {
    let q = spec_i64_abs(a) / spec_i64_abs(b);
    if (a < 0) != (b < 0) {
        -q
    } else {
        q
    }
}

/// Constant folding of one scalar arithmetic operation: add, subtract and
/// multiply wrap (two's complement); division is truncated signed division,
/// and fails on a zero divisor and on the one overflowing case.
pub open spec fn spec_int_binop(op: BinOp, a: i64, b: i64) -> Option<i64> {
    match op {
        BinOp::Add => Some(vstd::wrapping::i64_specs::wrapping_add(a, b)),
        BinOp::Subtract => Some(vstd::wrapping::i64_specs::wrapping_sub(a, b)),
        BinOp::Multiply => Some(vstd::wrapping::i64_specs::wrapping_mul(a, b)),
        BinOp::Divide => {
            if b == 0 || (a == i64::MIN && b == -1) {
                None
            } else {
                Some(spec_trunc_div(a, b) as i64)
            }
        },
    }
}

// ---------------------------------------------------------------------------
// Constant evaluation of global initializers
// ---------------------------------------------------------------------------
/// The message of an undefined-variable failure.
pub open spec fn spec_undefined_variable_msg(id: Seq<char>) -> Seq<char> {
    "Undefined variable '"@ + id + "'"@
}

/// The message of an undefined-function failure.
pub open spec fn spec_undefined_function_msg(id: Seq<char>) -> Seq<char> {
    "Undefined function '"@ + id + "'"@
}

/// Evaluates an expression to a constant-representable value at lowering
/// time, interning any string literals it contains: the value and the
/// extended string table, or the message of the failure when the expression
/// is not constant-foldable — it names an undefined global, mixes operand
/// kinds, is an array or asynchronous wrapper, or divides by zero.
pub open spec fn spec_const_eval(
    e: SpecExpr,
    strings: Seq<Seq<char>>,
    globals: Seq<SpecGlobal>,
) -> Result<(ConstValue, Seq<Seq<char>>), Seq<char>>
    decreases e,
{
    match e {
        SpecExpr::Number(n) => Ok((ConstValue::Int(n), strings)),
        SpecExpr::Boolean(b) => Ok((ConstValue::Bool(b), strings)),
        SpecExpr::String(s) => Ok((ConstValue::Str(strings.len() as usize), strings.push(s))),
        SpecExpr::Identifier(id) => match spec_find_global(globals, id) {
            Some(i) => Ok((globals[i].value, strings)),
            None => Err(spec_undefined_variable_msg(id)),
        },
        SpecExpr::BinaryOp(l, op, r) => match spec_const_eval(*l, strings, globals) {
            Ok((lv, s1)) => match spec_const_eval(*r, s1, globals) {
                Ok((rv, s2)) => match (lv, rv) {
                    (ConstValue::Int(a), ConstValue::Int(b)) => match spec_int_binop(op, a, b) {
                        Some(c) => Ok((ConstValue::Int(c), s2)),
                        None => Err(
                            if b == 0 {
                                "Division by zero in constant expression"@
                            } else {
                                "Overflow in constant division"@
                            },
                        ),
                    },
                    _ => Err("Type mismatch in constant expression"@),
                },
                Err(msg) => Err(msg),
            },
            Err(msg) => Err(msg),
        },
        SpecExpr::Array(_) => Err("Array literal is not a constant-foldable initializer"@),
        SpecExpr::Async(_) => Err("Unsupported expression"@),
        SpecExpr::Await(inner) => spec_const_eval(*inner, strings, globals),
    }
}

// ---------------------------------------------------------------------------
// Expression lowering inside a body
// ---------------------------------------------------------------------------
/// What lowering one expression inside a body produces: the operand that
/// holds its value, the string table as extended, the instructions emitted,
/// and the register kinds as extended.
#[verifier::ext_equal]
pub ghost struct ExprLowering {
    pub op: Operand,
    pub strings: Seq<Seq<char>>,
    pub emitted: Seq<SpecInstr>,
    pub regs: Seq<RegKind>,
}

/// What lowering a sequence of call arguments produces.
#[verifier::ext_equal]
pub ghost struct ArgsLowering {
    pub ops: Seq<Operand>,
    pub strings: Seq<Seq<char>>,
    pub emitted: Seq<SpecInstr>,
    pub regs: Seq<RegKind>,
}

/// What lowering the elements of an array literal produces.
#[verifier::ext_equal]
pub ghost struct ElemsLowering {
    pub strings: Seq<Seq<char>>,
    pub emitted: Seq<SpecInstr>,
    pub regs: Seq<RegKind>,
}

/// Lowers one expression inside a body. Literals become immediates, a string
/// literal is interned, an identifier resolves to its global (or fails as
/// undefined), a binary operation requires both operands to be scalar
/// integers and emits the matching instruction, an array literal allocates a
/// block and stores each element at its offset, an await unwraps to its inner
/// expression's value, and an asynchronous wrapper is unsupported. A failure
/// carries its message.
pub open spec fn spec_lower_expr(
    e: SpecExpr,
    strings: Seq<Seq<char>>,
    globals: Seq<SpecGlobal>,
    regs: Seq<RegKind>,
) -> Result<ExprLowering, Seq<char>>
    decreases e, 0int,
{
    match e {
        SpecExpr::Number(n) => Ok(
            ExprLowering { op: Operand::Int(n), strings, emitted: Seq::empty(), regs },
        ),
        SpecExpr::Boolean(b) => Ok(
            ExprLowering { op: Operand::Bool(b), strings, emitted: Seq::empty(), regs },
        ),
        SpecExpr::String(s) => Ok(
            ExprLowering {
                op: Operand::Str(strings.len() as usize),
                strings: strings.push(s),
                emitted: Seq::empty(),
                regs,
            },
        ),
        SpecExpr::Identifier(id) => match spec_find_global(globals, id) {
            Some(i) => Ok(
                ExprLowering {
                    op: Operand::Global(i as usize),
                    strings,
                    emitted: Seq::empty(),
                    regs,
                },
            ),
            None => Err(spec_undefined_variable_msg(id)),
        },
        SpecExpr::BinaryOp(l, op, r) => match spec_lower_expr(*l, strings, globals, regs) {
            Ok(el) => match spec_lower_expr(*r, el.strings, globals, el.regs) {
                Ok(er) => {
                    if spec_operand_is_int(el.op, globals, er.regs) && spec_operand_is_int(
                        er.op,
                        globals,
                        er.regs,
                    ) {
                        let dest = er.regs.len() as usize;
                        Ok(
                            ExprLowering {
                                op: Operand::Reg(dest),
                                strings: er.strings,
                                emitted: el.emitted + er.emitted + seq![
                                    SpecInstr::Bin { dest, op, lhs: el.op, rhs: er.op },
                                ],
                                regs: er.regs.push(RegKind::IntReg),
                            },
                        )
                    } else {
                        Err("Type mismatch in binary operation"@)
                    }
                },
                Err(msg) => Err(msg),
            },
            Err(msg) => Err(msg),
        },
        SpecExpr::Array(es) => {
            let base = regs.len() as usize;
            let regs1 = regs.push(RegKind::PtrReg);
            match spec_lower_array_elems(es, strings, globals, regs1, base, 0) {
                Ok(le) => Ok(
                    ExprLowering {
                        op: Operand::Reg(base),
                        strings: le.strings,
                        emitted: seq![SpecInstr::Alloc { dest: base, len: es.len() as usize }]
                            + le.emitted,
                        regs: le.regs,
                    },
                ),
                Err(msg) => Err(msg),
            }
        },
        SpecExpr::Async(_) => Err("Unsupported expression"@),
        SpecExpr::Await(inner) => spec_lower_expr(*inner, strings, globals, regs),
    }
}

/// Lowers the elements of an array literal, left to right: each element must
/// be a scalar integer, and each is stored at its positional offset in the
/// block based at register `base`.
pub open spec fn spec_lower_array_elems(
    es: Seq<SpecExpr>,
    strings: Seq<Seq<char>>,
    globals: Seq<SpecGlobal>,
    regs: Seq<RegKind>,
    base: usize,
    offset: int,
) -> Result<ElemsLowering, Seq<char>>
    decreases es, 1int,
{
    if es.len() == 0 {
        Ok(ElemsLowering { strings, emitted: Seq::empty(), regs })
    } else {
        match spec_lower_expr(es[0], strings, globals, regs) {
            Ok(el) => {
                if spec_operand_is_int(el.op, globals, el.regs) {
                    match spec_lower_array_elems(
                        es.subrange(1, es.len() as int),
                        el.strings,
                        globals,
                        el.regs,
                        base,
                        offset + 1,
                    ) {
                        Ok(rest) => Ok(
                            ElemsLowering {
                                strings: rest.strings,
                                emitted: el.emitted + seq![
                                    SpecInstr::Store {
                                        base: Operand::Reg(base),
                                        offset: offset as usize,
                                        value: el.op,
                                    },
                                ] + rest.emitted,
                                regs: rest.regs,
                            },
                        ),
                        Err(msg) => Err(msg),
                    }
                } else {
                    Err("Type mismatch in array element"@)
                }
            },
            Err(msg) => Err(msg),
        }
    }
}

/// Lowers call arguments, left to right.
pub open spec fn spec_lower_args(
    es: Seq<SpecExpr>,
    strings: Seq<Seq<char>>,
    globals: Seq<SpecGlobal>,
    regs: Seq<RegKind>,
) -> Result<ArgsLowering, Seq<char>>
    decreases es, 1int,
{
    if es.len() == 0 {
        Ok(ArgsLowering { ops: Seq::empty(), strings, emitted: Seq::empty(), regs })
    } else {
        match spec_lower_expr(es[0], strings, globals, regs) {
            Ok(el) => match spec_lower_args(
                es.subrange(1, es.len() as int),
                el.strings,
                globals,
                el.regs,
            ) {
                Ok(rest) => Ok(
                    ArgsLowering {
                        ops: seq![el.op] + rest.ops,
                        strings: rest.strings,
                        emitted: el.emitted + rest.emitted,
                        regs: rest.regs,
                    },
                ),
                Err(msg) => Err(msg),
            },
            Err(msg) => Err(msg),
        }
    }
}

// ---------------------------------------------------------------------------
// Statement lowering
// ---------------------------------------------------------------------------
/// What lowering a statement (or a sequence of them) produces: the module as
/// changed, the instructions emitted into the current body, and the register
/// kinds of that body as extended.
#[verifier::ext_equal]
pub ghost struct StmtLowering {
    pub module: SpecModule,
    pub emitted: Seq<SpecInstr>,
    pub regs: Seq<RegKind>,
}

/// The name of the external formatted-output primitive, the sole imported
/// symbol the module declares.
pub open spec fn spec_printf_name() -> Seq<char> {
    "printf"@
}

/// Lowers one statement.
///
/// - A declaration evaluates its initializer to a constant and installs or
///   replaces the binding of that name (last-write-wins).
/// - An assignment requires the name to be bound already, then rebinds it.
/// - A print lowers its expression and calls the output primitive on it.
/// - A function call resolves its callee among the declared functions and
///   the output primitive, lowers its arguments left to right, and emits the
///   call.
/// - An asynchronous function declaration adds a new zero-argument procedure
///   (visible to its own body, so it may call itself), lowers its body into
///   that procedure with fresh registers, and closes it with a return.
pub open spec fn spec_lower_stmt(
    s: SpecStatement,
    m: SpecModule,
    regs: Seq<RegKind>,
) -> Result<StmtLowering, Seq<char>>
    decreases s, 0int,
{
    match s {
        SpecStatement::VariableDeclaration { identifier, value } => {
            match spec_const_eval(value, m.strings, m.globals) {
                Ok((cv, strings2)) => {
                    let binding = SpecGlobal { name: identifier, value: cv };
                    let globals2 = match spec_find_global(m.globals, identifier) {
                        Some(i) => m.globals.update(i, binding),
                        None => m.globals.push(binding),
                    };
                    Ok(
                        StmtLowering {
                            module: SpecModule {
                                strings: strings2,
                                globals: globals2,
                                functions: m.functions,
                            },
                            emitted: Seq::empty(),
                            regs,
                        },
                    )
                },
                Err(msg) => Err(msg),
            }
        },
        SpecStatement::VariableAssignment { identifier, value } => {
            match spec_find_global(m.globals, identifier) {
                Some(i) => match spec_const_eval(value, m.strings, m.globals) {
                    Ok((cv, strings2)) => Ok(
                        StmtLowering {
                            module: SpecModule {
                                strings: strings2,
                                globals: m.globals.update(
                                    i,
                                    SpecGlobal { name: identifier, value: cv },
                                ),
                                functions: m.functions,
                            },
                            emitted: Seq::empty(),
                            regs,
                        },
                    ),
                    Err(msg) => Err(msg),
                },
                None => Err(spec_undefined_variable_msg(identifier)),
            }
        },
        SpecStatement::Print(e) => match spec_lower_expr(e, m.strings, m.globals, regs) {
            Ok(el) => Ok(
                StmtLowering {
                    module: SpecModule {
                        strings: el.strings,
                        globals: m.globals,
                        functions: m.functions,
                    },
                    emitted: el.emitted + seq![SpecInstr::Print { value: el.op }],
                    regs: el.regs,
                },
            ),
            Err(msg) => Err(msg),
        },
        SpecStatement::FunctionCall { identifier, args } => {
            let callee = match spec_find_function(m.functions, identifier) {
                Some(fi) => Some(Callee::Defined(fi as usize)),
                None => {
                    if identifier == spec_printf_name() {
                        Some(Callee::Printf)
                    } else {
                        None
                    }
                },
            };
            match callee {
                Some(c) => match spec_lower_args(args, m.strings, m.globals, regs) {
                    Ok(al) => Ok(
                        StmtLowering {
                            module: SpecModule {
                                strings: al.strings,
                                globals: m.globals,
                                functions: m.functions,
                            },
                            emitted: al.emitted + seq![
                                SpecInstr::Call { callee: c, args: al.ops },
                            ],
                            regs: al.regs,
                        },
                    ),
                    Err(msg) => Err(msg),
                },
                None => Err(spec_undefined_function_msg(identifier)),
            }
        },
        SpecStatement::AsyncFunction { identifier, body } => {
            let fi = m.functions.len() as int;
            let m1 = SpecModule {
                strings: m.strings,
                globals: m.globals,
                functions: m.functions.push(SpecFunction { name: identifier, body: Seq::empty() }),
            };
            match spec_lower_stmts(body, m1, Seq::empty()) {
                Ok(sl) => Ok(
                    StmtLowering {
                        module: SpecModule {
                            strings: sl.module.strings,
                            globals: sl.module.globals,
                            functions: sl.module.functions.update(
                                fi,
                                SpecFunction {
                                    name: identifier,
                                    body: sl.emitted + seq![SpecInstr::Ret],
                                },
                            ),
                        },
                        emitted: Seq::empty(),
                        regs,
                    },
                ),
                Err(msg) => Err(msg),
            }
        },
    }
}

/// Lowers a statement sequence in order, concatenating what each statement
/// emits into the current body.
pub open spec fn spec_lower_stmts(
    ss: Seq<SpecStatement>,
    m: SpecModule,
    regs: Seq<RegKind>,
) -> Result<StmtLowering, Seq<char>>
    decreases ss, 1int,
{
    if ss.len() == 0 {
        Ok(StmtLowering { module: m, emitted: Seq::empty(), regs })
    } else {
        match spec_lower_stmt(ss[0], m, regs) {
            Ok(sl) => match spec_lower_stmts(
                ss.subrange(1, ss.len() as int),
                sl.module,
                sl.regs,
            ) {
                Ok(rest) => Ok(
                    StmtLowering {
                        module: rest.module,
                        emitted: sl.emitted + rest.emitted,
                        regs: rest.regs,
                    },
                ),
                Err(msg) => Err(msg),
            },
            Err(msg) => Err(msg),
        }
    }
}

/// The module a fresh lowering starts from: no strings, no globals, no
/// functions beyond the implicitly declared output primitive.
pub open spec fn spec_empty_module() -> SpecModule {
    SpecModule { strings: Seq::empty(), globals: Seq::empty(), functions: Seq::empty() }
}

/// Lowering a whole program against a module state: the final module and the
/// instructions of the module's top-level body, or the message of the first
/// failure.
pub open spec fn spec_compile(m: SpecModule, ss: Seq<SpecStatement>) -> Result<
    (SpecModule, Seq<SpecInstr>),
    Seq<char>,
> {
    match spec_lower_stmts(ss, m, Seq::empty()) {
        Ok(sl) => Ok((sl.module, sl.emitted)),
        Err(msg) => Err(msg),
    }
}

// ---------------------------------------------------------------------------
// Executable name resolution
// ---------------------------------------------------------------------------
proof fn lemma_find_global_some(gs: Seq<SpecGlobal>, name: Seq<char>, i: int)
    requires
        0 <= i < gs.len(),
        forall|j: int| 0 <= j < i ==> gs[j].name != name,
        gs[i].name == name,
    ensures
        spec_find_global(gs, name) == Some(i),
    decreases i,
{
    if i > 0 {
        assert(gs[0].name != name);
        let rest = gs.subrange(1, gs.len() as int);
        assert forall|j: int| 0 <= j < i - 1 implies rest[j].name != name by {
            assert(rest[j] == gs[j + 1]);
        }
        assert(rest[i - 1] == gs[i]);
        lemma_find_global_some(rest, name, i - 1);
    }
}

proof fn lemma_find_global_none(gs: Seq<SpecGlobal>, name: Seq<char>)
    requires
        forall|j: int| 0 <= j < gs.len() ==> gs[j].name != name,
    ensures
        spec_find_global(gs, name) is None,
    decreases gs.len(),
{
    if gs.len() > 0 {
        let rest = gs.subrange(1, gs.len() as int);
        assert forall|j: int| 0 <= j < rest.len() implies rest[j].name != name by {
            assert(rest[j] == gs[j + 1]);
        }
        lemma_find_global_none(rest, name);
    }
}

proof fn lemma_find_function_some(fs: Seq<SpecFunction>, name: Seq<char>, i: int)
    requires
        0 <= i < fs.len(),
        forall|j: int| 0 <= j < i ==> fs[j].name != name,
        fs[i].name == name,
    ensures
        spec_find_function(fs, name) == Some(i),
    decreases i,
{
    if i > 0 {
        assert(fs[0].name != name);
        let rest = fs.subrange(1, fs.len() as int);
        assert forall|j: int| 0 <= j < i - 1 implies rest[j].name != name by {
            assert(rest[j] == fs[j + 1]);
        }
        assert(rest[i - 1] == fs[i]);
        lemma_find_function_some(rest, name, i - 1);
    }
}

proof fn lemma_find_function_none(fs: Seq<SpecFunction>, name: Seq<char>)
    requires
        forall|j: int| 0 <= j < fs.len() ==> fs[j].name != name,
    ensures
        spec_find_function(fs, name) is None,
    decreases fs.len(),
{
    if fs.len() > 0 {
        let rest = fs.subrange(1, fs.len() as int);
        assert forall|j: int| 0 <= j < rest.len() implies rest[j].name != name by {
            assert(rest[j] == fs[j + 1]);
        }
        lemma_find_function_none(rest, name);
    }
}

/// Finds the global binding with this name, as `spec_find_global` does.
fn find_global(globals: &Vec<GlobalDef>, name: &str) -> (r: Option<usize>)
    ensures
        match r {
            Some(i) => i < globals@.len() && spec_find_global(view_globals(globals@), name@)
                == Some(i as int),
            None => spec_find_global(view_globals(globals@), name@) is None,
        },
{
    let mut i: usize = 0;
    while i < globals.len()
        invariant
            i <= globals@.len(),
            forall|j: int| 0 <= j < i ==> view_globals(globals@)[j].name != name@,
        decreases globals@.len() - i,
    {
        if str_eq(globals[i].name.as_str(), name) {
            proof {
                lemma_find_global_some(view_globals(globals@), name@, i as int);
            }
            return Some(i);
        }
        i = i + 1;
    }
    proof {
        lemma_find_global_none(view_globals(globals@), name@);
    }
    None
}

/// Finds the function with this name, as `spec_find_function` does.
fn find_function(functions: &Vec<Function>, name: &str) -> (r: Option<usize>)
    ensures
        match r {
            Some(i) => i < functions@.len() && spec_find_function(view_functions(functions@), name@)
                == Some(i as int),
            None => spec_find_function(view_functions(functions@), name@) is None,
        },
{
    let mut i: usize = 0;
    while i < functions.len()
        invariant
            i <= functions@.len(),
            forall|j: int| 0 <= j < i ==> view_functions(functions@)[j].name != name@,
        decreases functions@.len() - i,
    {
        if str_eq(functions[i].name.as_str(), name) {
            proof {
                lemma_find_function_some(view_functions(functions@), name@, i as int);
            }
            return Some(i);
        }
        i = i + 1;
    }
    proof {
        lemma_find_function_none(view_functions(functions@), name@);
    }
    None
}

/// Tests an operand's kind, as `spec_operand_is_int` does.
fn operand_is_int(o: &Operand, globals: &Vec<GlobalDef>, regs: &Vec<RegKind>) -> (r: bool)
    ensures
        r == spec_operand_is_int(*o, view_globals(globals@), regs@),
{
    match o {
        Operand::Int(_) => true,
        Operand::Bool(_) => false,
        Operand::Str(_) => false,
        Operand::Global(g) => *g < globals.len() && matches!(globals[*g].value, ConstValue::Int(_)),
        Operand::Reg(k) => *k < regs.len() && matches!(regs[*k], RegKind::IntReg),
    }
}

/// Folds one scalar arithmetic operation on constants, as `spec_int_binop`
/// does: add, subtract and multiply wrap; division fails on a zero divisor
/// and on `i64::MIN / -1`, and otherwise truncates toward zero.
fn int_binop(op: BinOp, a: i64, b: i64) -> (r: Option<i64>)
    ensures
        r == spec_int_binop(op, a, b),
{
    match op {
        BinOp::Add => Some(a.wrapping_add(b)),
        BinOp::Subtract => Some(a.wrapping_sub(b)),
        BinOp::Multiply => Some(a.wrapping_mul(b)),
        BinOp::Divide => {
            if b == 0 || (a == i64::MIN && b == -1) {
                None
            } else {
                let mag_a: u64 = if a == i64::MIN {
                    9223372036854775808u64
                } else if a < 0 {
                    (-a) as u64
                } else {
                    a as u64
                };
                let mag_b: u64 = if b == i64::MIN {
                    9223372036854775808u64
                } else if b < 0 {
                    (-b) as u64
                } else {
                    b as u64
                };
                let q: u64 = mag_a / mag_b;
                proof {
                    assert(mag_a as int == spec_i64_abs(a));
                    assert(mag_b as int == spec_i64_abs(b));
                    assert(q as int == spec_i64_abs(a) / spec_i64_abs(b));
                    vstd::arithmetic::div_mod::lemma_fundamental_div_mod(
                        mag_a as int,
                        mag_b as int,
                    );
                    if mag_b >= 2 {
                        assert(q < 9223372036854775808u64) by (nonlinear_arith)
                            requires
                                mag_a as int == (mag_b as int) * (q as int) + (mag_a as int) % (
                                mag_b as int),
                                (mag_a as int) % (mag_b as int) >= 0,
                                mag_b >= 2,
                                mag_a <= 9223372036854775808u64,
                        ;
                    }
                }
                let neg = (a < 0) != (b < 0);
                if neg {
                    if q == 9223372036854775808u64 {
                        Some(i64::MIN)
                    } else {
                        Some(-(q as i64))
                    }
                } else {
                    proof {
                        if mag_b == 1 {
                            assert(q == mag_a) by (nonlinear_arith)
                                requires
                                    q as int == (mag_a as int) / (mag_b as int),
                                    mag_b == 1,
                            ;
                        }
                    }
                    Some(q as i64)
                }
            }
        },
    }
}

// ---------------------------------------------------------------------------
// The executable lowering stage
// ---------------------------------------------------------------------------
/// The lowering stage: owns the module being built — its interned strings,
/// its global bindings and its functions — while statements are lowered into
/// it, and serializes the result.
#[derive(Debug)]
pub struct CodeGen {
    /// The interned string constants, in interning order.
    pub strings: Vec<String>,
    /// The global bindings, in first-declaration order; names are unique.
    pub globals: Vec<GlobalDef>,
    /// The declared functions, in declaration order.
    pub functions: Vec<Function>,
}

impl CodeGen {
    /// The mathematical model of the module being built.
    pub open spec fn model(self) -> SpecModule {
        SpecModule {
            strings: view_strings(self.strings@),
            globals: view_globals(self.globals@),
            functions: view_functions(self.functions@),
        }
    }

    /// A lowering stage over an empty module, which declares only the
    /// external output primitive.
    pub fn new() -> (r: CodeGen)
        ensures
            r.model() == spec_empty_module(),
    {
        let r = CodeGen { strings: Vec::new(), globals: Vec::new(), functions: Vec::new() };
        proof {
            assert(r.model().strings =~= spec_empty_module().strings);
            assert(r.model().globals =~= spec_empty_module().globals);
            assert(r.model().functions =~= spec_empty_module().functions);
        }
        r
    }

    /// Evaluates an expression to a constant-representable value, interning
    /// any string literals: exactly `spec_const_eval`, failing with a
    /// `CodegenError` exactly when the expression is not constant-foldable.
    fn eval_const(&mut self, e: &Expr) -> (r: Result<ConstValue, VentiError>)
        ensures
            final(self).globals == old(self).globals,
            final(self).functions == old(self).functions,
            match r {
                Ok(cv) => spec_const_eval(
                    e.deep_view(),
                    old(self).model().strings,
                    old(self).model().globals,
                ) == Ok::<(ConstValue, Seq<Seq<char>>), Seq<char>>(
                    (cv, final(self).model().strings),
                ),
                Err(err) => spec_const_eval(
                    e.deep_view(),
                    old(self).model().strings,
                    old(self).model().globals,
                ) is Err && err is CodegenError && err.spec_message() == spec_const_eval(
                    e.deep_view(),
                    old(self).model().strings,
                    old(self).model().globals,
                )->Err_0,
            },
        decreases e,
    {
        match e {
            Expr::Number(n) => Ok(ConstValue::Int(*n)),
            Expr::Boolean(b) => Ok(ConstValue::Bool(*b)),
            Expr::String(s) => {
                let idx = self.strings.len();
                let ghost pre = self.strings@;
                self.strings.push(s.clone());
                proof {
                    assert(view_strings(self.strings@) =~= view_strings(pre).push(s@));
                }
                Ok(ConstValue::Str(idx))
            },
            Expr::Identifier(id) => match find_global(&self.globals, id.as_str()) {
                Some(i) => Ok(self.globals[i].value),
                None => {
                    let mut msg = "Undefined variable '".to_owned();
                    msg.append(id.as_str());
                    msg.append("'");
                    Err(VentiError::CodegenError(msg))
                },
            },
            Expr::BinaryOp(l, op, r) => {
                let lv = self.eval_const(&**l)?;
                let rv = self.eval_const(&**r)?;
                match (lv, rv) {
                    (ConstValue::Int(a), ConstValue::Int(b)) => match int_binop(*op, a, b) {
                        Some(c) => Ok(ConstValue::Int(c)),
                        None => {
                            if b == 0 {
                                Err(
                                    VentiError::CodegenError(
                                        "Division by zero in constant expression".to_owned(),
                                    ),
                                )
                            } else {
                                Err(
                                    VentiError::CodegenError(
                                        "Overflow in constant division".to_owned(),
                                    ),
                                )
                            }
                        },
                    },
                    _ => Err(
                        VentiError::CodegenError(
                            "Type mismatch in constant expression".to_owned(),
                        ),
                    ),
                }
            },
            Expr::Array(_) => Err(
                VentiError::CodegenError(
                    "Array literal is not a constant-foldable initializer".to_owned(),
                ),
            ),
            Expr::Async(_) => Err(VentiError::CodegenError("Unsupported expression".to_owned())),
            Expr::Await(inner) => self.eval_const(&**inner),
        }
    }

    /// Lowers one expression into the current body, appending the
    /// instructions it needs to `sink` and the kinds of the registers it
    /// defines to `regs`: exactly `spec_lower_expr`, failing with a
    /// `CodegenError` exactly when it fails.
    #[verifier::loop_isolation(false)]
    #[verifier::rlimit(50)]
    fn compile_expr(&mut self, e: &Expr, sink: &mut Vec<Instr>, regs: &mut Vec<RegKind>) -> (r:
        Result<Operand, VentiError>)
        ensures
            final(self).globals == old(self).globals,
            final(self).functions == old(self).functions,
            seq_prefix(view_instrs(old(sink)@), view_instrs(final(sink)@)),
            no_calls_appended(view_instrs(old(sink)@), view_instrs(final(sink)@)),
            match r {
                Ok(op) => (match spec_lower_expr(
                    e.deep_view(),
                    old(self).model().strings,
                    old(self).model().globals,
                    old(regs)@,
                ) {
                    Ok(el) => op == el.op && final(self).model().strings == el.strings
                        && view_instrs(final(sink)@) == view_instrs(old(sink)@) + el.emitted
                        && final(regs)@ == el.regs,
                    Err(_) => false,
                }),
                Err(err) => spec_lower_expr(
                    e.deep_view(),
                    old(self).model().strings,
                    old(self).model().globals,
                    old(regs)@,
                ) is Err && err is CodegenError && err.spec_message() == spec_lower_expr(
                    e.deep_view(),
                    old(self).model().strings,
                    old(self).model().globals,
                    old(regs)@,
                )->Err_0,
            },
        decreases e, 0int,
    {
        let ghost s0 = self.model().strings;
        let ghost g0 = self.model().globals;
        let ghost regs0 = regs@;
        let ghost sink0 = sink@;
        match e {
            Expr::Number(n) => {
                proof {
                    assert(view_instrs(sink@) + Seq::<SpecInstr>::empty() =~= view_instrs(sink@));
                }
                Ok(Operand::Int(*n))
            },
            Expr::Boolean(b) => {
                proof {
                    assert(view_instrs(sink@) + Seq::<SpecInstr>::empty() =~= view_instrs(sink@));
                }
                Ok(Operand::Bool(*b))
            },
            Expr::String(s) => {
                let idx = self.strings.len();
                let ghost pre = self.strings@;
                self.strings.push(s.clone());
                proof {
                    assert(view_strings(self.strings@) =~= view_strings(pre).push(s@));
                    assert(view_instrs(sink@) + Seq::<SpecInstr>::empty() =~= view_instrs(sink@));
                }
                Ok(Operand::Str(idx))
            },
            Expr::Identifier(id) => match find_global(&self.globals, id.as_str()) {
                Some(i) => {
                    proof {
                        assert(view_instrs(sink@) + Seq::<SpecInstr>::empty() =~= view_instrs(
                            sink@,
                        ));
                    }
                    Ok(Operand::Global(i))
                },
                None => {
                    let mut msg = "Undefined variable '".to_owned();
                    msg.append(id.as_str());
                    msg.append("'");
                    Err(VentiError::CodegenError(msg))
                },
            },
            Expr::BinaryOp(l, op, r) => {
                let lop = self.compile_expr(&**l, sink, regs)?;
                let rop = self.compile_expr(&**r, sink, regs)?;
                if operand_is_int(&lop, &self.globals, regs) && operand_is_int(
                    &rop,
                    &self.globals,
                    regs,
                ) {
                    let dest = regs.len();
                    let ghost sink_pre = sink@;
                    sink.push(Instr::Bin { dest, op: *op, lhs: lop, rhs: rop });
                    regs.push(RegKind::IntReg);
                    proof {
                        let el = spec_lower_expr((**l).deep_view(), s0, g0, regs0)->Ok_0;
                        let er = spec_lower_expr(
                            (**r).deep_view(),
                            el.strings,
                            g0,
                            el.regs,
                        )->Ok_0;
                        let bin = SpecInstr::Bin { dest, op: *op, lhs: lop, rhs: rop };
                        assert(view_instrs(sink@) =~= view_instrs(sink_pre).push(bin));
                        assert(view_instrs(sink@) =~= view_instrs(sink0) + (el.emitted + er.emitted
                            + seq![bin]));
                    }
                    Ok(Operand::Reg(dest))
                } else {
                    Err(VentiError::CodegenError("Type mismatch in binary operation".to_owned()))
                }
            },
            Expr::Array(es) => {
                let ghost dv_es = deep_view_exprs(es@);
                proof {
                    lemma_deep_view_exprs(es@);
                }
                let base = regs.len();
                regs.push(RegKind::PtrReg);
                let ghost sink_pre = sink@;
                sink.push(Instr::Alloc { dest: base, len: es.len() });
                let ghost alloc_v = SpecInstr::Alloc { dest: base, len: es@.len() as usize };
                let ghost regs1 = regs@;
                proof {
                    assert(view_instrs(sink@) =~= view_instrs(sink_pre).push(alloc_v));
                    lemma_seq_prefix_concat(view_instrs(sink0), seq![alloc_v]);
                    assert(view_instrs(sink0) + seq![alloc_v] =~= view_instrs(sink0).push(alloc_v));
                    assert forall|j: int|
                        view_instrs(sink0).len() <= j < view_instrs(sink@).len() implies !(
                    #[trigger] view_instrs(sink@)[j] is Call) by {}
                }
                let mut k: usize = 0;
                let ghost mut em: Seq<SpecInstr> = Seq::empty();
                proof {
                    assert(view_instrs(sink@) =~= view_instrs(sink0) + seq![alloc_v] + em);
                    assert(dv_es.subrange(0, dv_es.len() as int) =~= dv_es);
                }
                loop
                    invariant
                        k <= es@.len(),
                        self.globals == old(self).globals,
                        self.functions == old(self).functions,
                        seq_prefix(view_instrs(sink0), view_instrs(sink@)),
                        no_calls_appended(view_instrs(sink0), view_instrs(sink@)),
                        view_instrs(sink@) == view_instrs(sink0) + seq![alloc_v] + em,
                        spec_lower_array_elems(dv_es, s0, g0, regs1, base, 0) == (
                        match spec_lower_array_elems(
                            dv_es.subrange(k as int, dv_es.len() as int),
                            view_strings(self.strings@),
                            g0,
                            regs@,
                            base,
                            k as int,
                        ) {
                            Ok(rest) => Ok(
                                ElemsLowering {
                                    strings: rest.strings,
                                    emitted: em + rest.emitted,
                                    regs: rest.regs,
                                },
                            ),
                            Err(msg) => Err(msg),
                        }),
                    decreases es@.len() - k,
                {
                    if k == es.len() {
                        proof {
                            assert(dv_es.subrange(k as int, dv_es.len() as int)
                                =~= Seq::<SpecExpr>::empty());
                            assert(em + Seq::<SpecInstr>::empty() =~= em);
                            assert(view_instrs(sink@) =~= view_instrs(sink0) + (seq![alloc_v]
                                + em));
                        }
                        return Ok(Operand::Reg(base));
                    }
                    let ghost s_it = view_strings(self.strings@);
                    let ghost r_it = regs@;
                    proof {
                        assert(dv_es.subrange(k as int, dv_es.len() as int)[0] == dv_es[k as int]);
                        assert(dv_es[k as int] == es@[k as int].deep_view());
                    }
                    let ghost sv_it = view_instrs(sink@);
                    let res_e = self.compile_expr(&es[k], sink, regs);
                    proof {
                        lemma_seq_prefix_trans(view_instrs(sink0), sv_it, view_instrs(sink@));
                        lemma_no_calls_appended_trans(
                            view_instrs(sink0),
                            sv_it,
                            view_instrs(sink@),
                        );
                    }
                    let eop = match res_e {
                        Ok(o) => o,
                        Err(e2) => {
                            return Err(e2);
                        },
                    };
                    if !operand_is_int(&eop, &self.globals, regs) {
                        return Err(
                            VentiError::CodegenError("Type mismatch in array element".to_owned()),
                        );
                    }
                    let ghost sink_pre2 = sink@;
                    sink.push(Instr::Store { base: Operand::Reg(base), offset: k, value: eop });
                    proof {
                        let store_v = SpecInstr::Store {
                            base: Operand::Reg(base),
                            offset: k,
                            value: eop,
                        };
                        assert(view_instrs(sink@) =~= view_instrs(sink_pre2).push(store_v));
                        assert forall|j: int|
                            view_instrs(sink0).len() <= j < view_instrs(sink@).len() implies !(
                        #[trigger] view_instrs(sink@)[j] is Call) by {
                            if j < view_instrs(sink_pre2).len() {
                                assert(view_instrs(sink@)[j] == view_instrs(sink_pre2)[j]);
                            } else {
                                assert(view_instrs(sink@)[j] == store_v);
                            }
                        }
                        let el = spec_lower_expr(dv_es[k as int], s_it, g0, r_it)->Ok_0;
                        let em_old = em;
                        em = em + el.emitted + seq![store_v];
                        assert(view_instrs(sink@) =~= view_instrs(sink0) + seq![alloc_v] + em);
                        assert(dv_es.subrange(k as int, dv_es.len() as int).subrange(
                            1,
                            dv_es.len() as int - k,
                        ) =~= dv_es.subrange(k + 1, dv_es.len() as int));
                        let tail = spec_lower_array_elems(
                            dv_es.subrange(k + 1, dv_es.len() as int),
                            view_strings(self.strings@),
                            g0,
                            regs@,
                            base,
                            k + 1,
                        );
                        if tail is Ok {
                            let rest2 = tail->Ok_0;
                            assert(em_old + (el.emitted + seq![store_v] + rest2.emitted) =~= em
                                + rest2.emitted);
                        }
                    }
                    k = k + 1;
                }
            },
            Expr::Async(_) => Err(VentiError::CodegenError("Unsupported expression".to_owned())),
            Expr::Await(inner) => self.compile_expr(&**inner, sink, regs),
        }
    }

    /// Lowers one statement: exactly `spec_lower_stmt`, failing with a
    /// `CodegenError` exactly when it fails. Instructions go to `sink`, the
    /// current body; declarations and assignments change only the module.
    #[verifier::loop_isolation(false)]
    fn compile_statement(
        &mut self,
        statement: &Statement,
        sink: &mut Vec<Instr>,
        regs: &mut Vec<RegKind>,
    ) -> (r: Result<(), VentiError>)
        ensures
            seq_prefix(view_instrs(old(sink)@), view_instrs(final(sink)@)),
            seq_prefix(
                view_functions(old(self).functions@),
                view_functions(final(self).functions@),
            ),
            preserves_binding_names(
                view_globals(old(self).globals@),
                view_globals(final(self).globals@),
            ),
            match r {
                Ok(_) => (match spec_lower_stmt(
                    statement.deep_view(),
                    old(self).model(),
                    old(regs)@,
                ) {
                    Ok(sl) => final(self).model() == sl.module && view_instrs(final(sink)@)
                        == view_instrs(old(sink)@) + sl.emitted && final(regs)@ == sl.regs,
                    Err(_) => false,
                }),
                Err(err) => spec_lower_stmt(statement.deep_view(), old(self).model(), old(regs)@)
                    is Err && err is CodegenError && err.spec_message() == spec_lower_stmt(
                    statement.deep_view(),
                    old(self).model(),
                    old(regs)@,
                )->Err_0 && no_calls_appended(
                    view_instrs(old(sink)@),
                    view_instrs(final(sink)@),
                ) && (match statement.deep_view() {
                    SpecStatement::VariableDeclaration { .. } => {
                        &&& final(self).globals == old(self).globals
                        &&& final(self).functions == old(self).functions
                        &&& final(sink)@ == old(sink)@
                        &&& final(regs)@ == old(regs)@
                    },
                    SpecStatement::VariableAssignment { identifier, .. } => {
                        &&& final(self).globals == old(self).globals
                        &&& final(self).functions == old(self).functions
                        &&& final(sink)@ == old(sink)@
                        &&& final(regs)@ == old(regs)@
                        &&& spec_find_global(old(self).model().globals, identifier) is None
                            ==> final(self).model() == old(self).model()
                    },
                    SpecStatement::Print(_) => {
                        &&& final(self).globals == old(self).globals
                        &&& final(self).functions == old(self).functions
                    },
                    SpecStatement::FunctionCall { identifier, .. } => {
                        &&& final(self).globals == old(self).globals
                        &&& final(self).functions == old(self).functions
                        &&& (spec_find_function(old(self).model().functions, identifier) is None
                            && identifier != spec_printf_name()) ==> {
                            &&& final(self).model() == old(self).model()
                            &&& final(sink)@ == old(sink)@
                            &&& final(regs)@ == old(regs)@
                        }
                    },
                    SpecStatement::AsyncFunction { .. } => {
                        &&& final(sink)@ == old(sink)@
                        &&& final(regs)@ == old(regs)@
                    },
                }),
            },
        decreases statement, 1int,
    {
        let ghost m0 = self.model();
        let ghost sink0 = sink@;
        match statement {
            Statement::VariableDeclaration { identifier, value } => {
                let cv = self.eval_const(value)?;
                let binding = GlobalDef { name: identifier.clone(), value: cv };
                match find_global(&self.globals, identifier.as_str()) {
                    Some(i) => {
                        let ghost gpre = self.globals@;
                        self.globals[i] = binding;
                        proof {
                            assert(view_globals(self.globals@) =~= view_globals(gpre).update(
                                i as int,
                                SpecGlobal { name: identifier@, value: cv },
                            ));
                            lemma_find_global_props(view_globals(gpre), identifier@);
                            assert forall|j: int| 0 <= j < gpre.len() implies view_globals(
                                self.globals@,
                            )[j].name == view_globals(gpre)[j].name by {
                                if j == i as int {
                                    assert(view_globals(gpre)[j].name == identifier@);
                                }
                            }
                        }
                    },
                    None => {
                        let ghost gpre = self.globals@;
                        self.globals.push(binding);
                        proof {
                            assert(view_globals(self.globals@) =~= view_globals(gpre).push(
                                SpecGlobal { name: identifier@, value: cv },
                            ));
                            assert forall|j: int| 0 <= j < gpre.len() implies view_globals(
                                self.globals@,
                            )[j].name == view_globals(gpre)[j].name by {}
                        }
                    },
                }
                proof {
                    assert(view_instrs(sink@) + Seq::<SpecInstr>::empty() =~= view_instrs(sink@));
                    assert(self.model() =~~= spec_lower_stmt(
                        statement.deep_view(),
                        m0,
                        regs@,
                    )->Ok_0.module);
                }
                Ok(())
            },
            Statement::VariableAssignment { identifier, value } => {
                match find_global(&self.globals, identifier.as_str()) {
                    Some(i) => {
                        let cv = self.eval_const(value)?;
                        let ghost gpre = self.globals@;
                        self.globals[i] = GlobalDef { name: identifier.clone(), value: cv };
                        proof {
                            assert(view_globals(self.globals@) =~= view_globals(gpre).update(
                                i as int,
                                SpecGlobal { name: identifier@, value: cv },
                            ));
                            lemma_find_global_props(view_globals(gpre), identifier@);
                            assert forall|j: int| 0 <= j < gpre.len() implies view_globals(
                                self.globals@,
                            )[j].name == view_globals(gpre)[j].name by {
                                if j == i as int {
                                    assert(view_globals(gpre)[j].name == identifier@);
                                }
                            }
                            assert(view_instrs(sink@) + Seq::<SpecInstr>::empty() =~= view_instrs(
                                sink@,
                            ));
                            assert(self.model() =~~= spec_lower_stmt(
                                statement.deep_view(),
                                m0,
                                regs@,
                            )->Ok_0.module);
                        }
                        Ok(())
                    },
                    None => {
                        let mut msg = "Undefined variable '".to_owned();
                        msg.append(identifier.as_str());
                        msg.append("'");
                        Err(VentiError::CodegenError(msg))
                    },
                }
            },
            Statement::Print(e) => {
                let op = self.compile_expr(e, sink, regs)?;
                let ghost spre = sink@;
                sink.push(Instr::Print { value: op });
                proof {
                    let el = spec_lower_expr(e.deep_view(), m0.strings, m0.globals, old(
                        regs,
                    )@)->Ok_0;
                    let print_v = SpecInstr::Print { value: op };
                    assert(view_instrs(sink@) =~= view_instrs(spre).push(print_v));
                    assert(view_instrs(sink@) =~= view_instrs(sink0) + (el.emitted + seq![
                        print_v,
                    ]));
                    assert(self.model() =~~= spec_lower_stmt(
                        statement.deep_view(),
                        m0,
                        old(regs)@,
                    )->Ok_0.module);
                }
                Ok(())
            },
            Statement::FunctionCall { identifier, args } => {
                let callee: Callee = match find_function(&self.functions, identifier.as_str()) {
                    Some(fi) => Callee::Defined(fi),
                    None => {
                        if str_eq(identifier.as_str(), "printf") {
                            Callee::Printf
                        } else {
                            let mut msg = "Undefined function '".to_owned();
                            msg.append(identifier.as_str());
                            msg.append("'");
                            return Err(VentiError::CodegenError(msg));
                        }
                    },
                };
                let ghost dv_args = deep_view_exprs(args@);
                proof {
                    lemma_deep_view_exprs(args@);
                    assert(dv_args.subrange(0, dv_args.len() as int) =~= dv_args);
                }
                let mut ops: Vec<Operand> = Vec::new();
                let mut k: usize = 0;
                let ghost mut em: Seq<SpecInstr> = Seq::empty();
                proof {
                    assert(view_instrs(sink@) =~= view_instrs(sink0) + em);
                }
                loop
                    invariant
                        k <= args@.len(),
                        self.globals == old(self).globals,
                        self.functions == old(self).functions,
                        seq_prefix(view_instrs(sink0), view_instrs(sink@)),
                        no_calls_appended(view_instrs(sink0), view_instrs(sink@)),
                        view_instrs(sink@) == view_instrs(sink0) + em,
                        spec_lower_args(dv_args, m0.strings, m0.globals, old(regs)@) == (
                        match spec_lower_args(
                            dv_args.subrange(k as int, dv_args.len() as int),
                            view_strings(self.strings@),
                            m0.globals,
                            regs@,
                        ) {
                            Ok(rest) => Ok(
                                ArgsLowering {
                                    ops: ops@ + rest.ops,
                                    strings: rest.strings,
                                    emitted: em + rest.emitted,
                                    regs: rest.regs,
                                },
                            ),
                            Err(msg) => Err(msg),
                        }),
                    decreases args@.len() - k,
                {
                    if k == args.len() {
                        proof {
                            assert(dv_args.subrange(k as int, dv_args.len() as int)
                                =~= Seq::<SpecExpr>::empty());
                            assert(ops@ + Seq::<Operand>::empty() =~= ops@);
                            assert(em + Seq::<SpecInstr>::empty() =~= em);
                        }
                        let ghost spre = sink@;
                        sink.push(Instr::Call { callee, args: ops });
                        proof {
                            let al = spec_lower_args(
                                dv_args,
                                m0.strings,
                                m0.globals,
                                old(regs)@,
                            )->Ok_0;
                            let call_v = SpecInstr::Call { callee, args: al.ops };
                            assert(view_instrs(sink@) =~= view_instrs(spre).push(call_v));
                            assert(view_instrs(sink@) =~= view_instrs(sink0) + (al.emitted + seq![
                                call_v,
                            ]));
                            assert(self.model() =~~= spec_lower_stmt(
                                statement.deep_view(),
                                m0,
                                old(regs)@,
                            )->Ok_0.module);
                        }
                        return Ok(());
                    }
                    let ghost s_it = view_strings(self.strings@);
                    let ghost r_it = regs@;
                    proof {
                        assert(dv_args.subrange(k as int, dv_args.len() as int)[0]
                            == dv_args[k as int]);
                        assert(dv_args[k as int] == args@[k as int].deep_view());
                    }
                    let ghost sv_it = view_instrs(sink@);
                    let res_a = self.compile_expr(&args[k], sink, regs);
                    proof {
                        lemma_seq_prefix_trans(view_instrs(sink0), sv_it, view_instrs(sink@));
                        lemma_no_calls_appended_trans(
                            view_instrs(sink0),
                            sv_it,
                            view_instrs(sink@),
                        );
                    }
                    let aop = match res_a {
                        Ok(o) => o,
                        Err(e2) => {
                            return Err(e2);
                        },
                    };
                    proof {
                        let el = spec_lower_expr(dv_args[k as int], s_it, m0.globals, r_it)->Ok_0;
                        let em_old = em;
                        em = em + el.emitted;
                        assert(view_instrs(sink@) =~= view_instrs(sink0) + em);
                        assert(dv_args.subrange(k as int, dv_args.len() as int).subrange(
                            1,
                            dv_args.len() as int - k,
                        ) =~= dv_args.subrange(k + 1, dv_args.len() as int));
                        let tail = spec_lower_args(
                            dv_args.subrange(k + 1, dv_args.len() as int),
                            view_strings(self.strings@),
                            m0.globals,
                            regs@,
                        );
                        if tail is Ok {
                            let rest2 = tail->Ok_0;
                            assert(ops@.push(aop) + rest2.ops =~= ops@ + (seq![el.op] + rest2.ops));
                            assert(em_old + (el.emitted + rest2.emitted) =~= em + rest2.emitted);
                        }
                    }
                    ops.push(aop);
                    k = k + 1;
                }
            },
            Statement::AsyncFunction { identifier, body } => {
                let res = self.compile_async_function(identifier.clone(), body);
                proof {
                    if res is Ok {
                        assert(view_instrs(sink@) + Seq::<SpecInstr>::empty() =~= view_instrs(
                            sink@,
                        ));
                        assert(self.model() =~~= spec_lower_stmt(
                            statement.deep_view(),
                            m0,
                            regs@,
                        )->Ok_0.module);
                    }
                }
                res
            },
        }
    }

    /// Lowers an asynchronous function declaration: adds a zero-argument
    /// procedure of this name (visible to its own body), lowers the body
    /// statements into it with fresh registers, and closes it with a return.
    #[verifier::loop_isolation(false)]
    fn compile_async_function(&mut self, identifier: String, body: &Vec<Statement>) -> (r: Result<
        (),
        VentiError,
    >)
        ensures
            ({
                let fi = old(self).model().functions.len() as int;
                let m1 = SpecModule {
                    strings: old(self).model().strings,
                    globals: old(self).model().globals,
                    functions: old(self).model().functions.push(
                        SpecFunction { name: identifier@, body: Seq::empty() },
                    ),
                };
                match r {
                    Ok(_) => (match spec_lower_stmts(deep_view_stmts(body@), m1, Seq::empty()) {
                        Ok(sl) => fi < sl.module.functions.len() && final(self).model()
                            == SpecModule {
                            strings: sl.module.strings,
                            globals: sl.module.globals,
                            functions: sl.module.functions.update(
                                fi,
                                SpecFunction {
                                    name: identifier@,
                                    body: sl.emitted + seq![SpecInstr::Ret],
                                },
                            ),
                        },
                        Err(_) => false,
                    }),
                    Err(err) => spec_lower_stmts(deep_view_stmts(body@), m1, Seq::empty())
                        is Err && err is CodegenError && err.spec_message() == spec_lower_stmts(
                        deep_view_stmts(body@),
                        m1,
                        Seq::empty(),
                    )->Err_0,
                }
            }),
            seq_prefix(
                view_functions(old(self).functions@),
                view_functions(final(self).functions@),
            ),
            preserves_binding_names(
                view_globals(old(self).globals@),
                view_globals(final(self).globals@),
            ),
        decreases body@, 0int,
    {
        let fi = self.functions.len();
        let ghost fpre = self.functions@;
        let ghost fv0 = view_functions(self.functions@);
        let ghost gv0 = view_globals(self.globals@);
        self.functions.push(Function { name: identifier.clone(), body: Vec::new() });
        proof {
            assert(view_instrs(Seq::<Instr>::empty()) =~= Seq::<SpecInstr>::empty());
            assert(view_functions(self.functions@) =~= view_functions(fpre).push(
                SpecFunction { name: identifier@, body: Seq::empty() },
            ));
            lemma_seq_prefix_concat(fv0, seq![SpecFunction { name: identifier@, body: Seq::empty() }]);
            assert(view_functions(fpre).push(SpecFunction { name: identifier@, body: Seq::empty() })
                =~= fv0 + seq![SpecFunction { name: identifier@, body: Seq::empty() }]);
        }
        let ghost m1 = self.model();
        let ghost dv = deep_view_stmts(body@);
        proof {
            lemma_deep_view_stmts(body@);
            assert(dv.subrange(0, dv.len() as int) =~= dv);
        }
        let mut instrs: Vec<Instr> = Vec::new();
        let mut fregs: Vec<RegKind> = Vec::new();
        let mut k: usize = 0;
        proof {
            assert(view_instrs(instrs@) =~= Seq::<SpecInstr>::empty());
        }
        loop
            invariant
                k <= body@.len(),
                seq_prefix(fv0, view_functions(self.functions@)),
                preserves_binding_names(gv0, view_globals(self.globals@)),
                spec_lower_stmts(dv, m1, Seq::empty()) == (match spec_lower_stmts(
                    dv.subrange(k as int, dv.len() as int),
                    self.model(),
                    fregs@,
                ) {
                    Ok(rest) => Ok(
                        StmtLowering {
                            module: rest.module,
                            emitted: view_instrs(instrs@) + rest.emitted,
                            regs: rest.regs,
                        },
                    ),
                    Err(msg) => Err(msg),
                }),
            decreases body@.len() - k,
        {
            if k == body.len() {
                break;
            }
            let ghost m_it = self.model();
            let ghost r_it = fregs@;
            let ghost i_it = view_instrs(instrs@);
            proof {
                assert(dv.subrange(k as int, dv.len() as int)[0] == dv[k as int]);
                assert(dv[k as int] == body@[k as int].deep_view());
            }
            let res = self.compile_statement(&body[k], &mut instrs, &mut fregs);
            proof {
                lemma_seq_prefix_trans(fv0, m_it.functions, view_functions(self.functions@));
                lemma_preserves_binding_names_trans(
                    gv0,
                    m_it.globals,
                    view_globals(self.globals@),
                );
            }
            match res {
                Ok(_) => {},
                Err(e) => {
                    return Err(e);
                },
            }
            proof {
                let sl = spec_lower_stmt(dv[k as int], m_it, r_it)->Ok_0;
                assert(dv.subrange(k as int, dv.len() as int).subrange(
                    1,
                    dv.len() as int - k,
                ) =~= dv.subrange(k + 1, dv.len() as int));
                let tail = spec_lower_stmts(
                    dv.subrange(k + 1, dv.len() as int),
                    self.model(),
                    fregs@,
                );
                if tail is Ok {
                    let rest2 = tail->Ok_0;
                    assert(i_it + (sl.emitted + rest2.emitted) =~= view_instrs(instrs@)
                        + rest2.emitted);
                }
            }
            k = k + 1;
        }
        proof {
            assert(dv.subrange(body@.len() as int, dv.len() as int) =~= Seq::<SpecStatement>::empty());
            assert(view_instrs(instrs@) + Seq::<SpecInstr>::empty() =~= view_instrs(instrs@));
            lemma_stmts_functions_grow(dv, m1, Seq::empty());
        }
        let ghost ipre = instrs@;
        instrs.push(Instr::Ret);
        proof {
            assert(view_instrs(instrs@) =~= view_instrs(ipre).push(SpecInstr::Ret));
        }
        let ghost fpre2 = self.functions@;
        let ghost name_v = identifier@;
        let ghost body_v = view_instrs(instrs@);
        self.functions[fi] = Function { name: identifier, body: instrs };
        proof {
            let sl = spec_lower_stmts(dv, m1, Seq::empty())->Ok_0;
            assert(view_functions(self.functions@) =~= view_functions(fpre2).update(
                fi as int,
                SpecFunction { name: name_v, body: body_v },
            ));
            assert forall|j: int| 0 <= j < fv0.len() implies view_functions(self.functions@)[j]
                == fv0[j] by {
                assert(view_functions(self.functions@)[j] == view_functions(fpre2)[j]);
            }
            assert(self.model() =~~= SpecModule {
                strings: sl.module.strings,
                globals: sl.module.globals,
                functions: sl.module.functions.update(
                    fi as int,
                    SpecFunction { name: identifier@, body: sl.emitted + seq![SpecInstr::Ret] },
                ),
            });
        }
        Ok(())
    }
}

/// Lowering a statement never removes a function from the module.
proof fn lemma_stmt_functions_grow(s: SpecStatement, m: SpecModule, regs: Seq<RegKind>)
    ensures
        match spec_lower_stmt(s, m, regs) {
            Ok(sl) => sl.module.functions.len() >= m.functions.len(),
            Err(_) => true,
        },
    decreases s, 0int,
{
    match s {
        SpecStatement::AsyncFunction { identifier, body } => {
            let m1 = SpecModule {
                strings: m.strings,
                globals: m.globals,
                functions: m.functions.push(SpecFunction { name: identifier, body: Seq::empty() }),
            };
            lemma_stmts_functions_grow(body, m1, Seq::empty());
        },
        _ => {},
    }
}

/// Lowering a statement sequence never removes a function from the module.
proof fn lemma_stmts_functions_grow(ss: Seq<SpecStatement>, m: SpecModule, regs: Seq<RegKind>)
    ensures
        match spec_lower_stmts(ss, m, regs) {
            Ok(sl) => sl.module.functions.len() >= m.functions.len(),
            Err(_) => true,
        },
    decreases ss, 1int,
{
    if ss.len() > 0 {
        lemma_stmt_functions_grow(ss[0], m, regs);
        match spec_lower_stmt(ss[0], m, regs) {
            Ok(sl) => {
                lemma_stmts_functions_grow(ss.subrange(1, ss.len() as int), sl.module, sl.regs);
            },
            Err(_) => {},
        }
    }
}

// ---------------------------------------------------------------------------
// Serialization
// ---------------------------------------------------------------------------
/// The character of one decimal digit.
pub open spec fn spec_digit_char(d: int) -> char {
    if d == 0 {
        '0'
    } else if d == 1 {
        '1'
    } else if d == 2 {
        '2'
    } else if d == 3 {
        '3'
    } else if d == 4 {
        '4'
    } else if d == 5 {
        '5'
    } else if d == 6 {
        '6'
    } else if d == 7 {
        '7'
    } else if d == 8 {
        '8'
    } else {
        '9'
    }
}

/// The decimal digits of a nonnegative integer, most significant first.
pub open spec fn spec_dec_nat(n: int) -> Seq<char>
    decreases n,
{
    if n < 0 {
        Seq::empty()
    } else if n < 10 {
        seq![spec_digit_char(n)]
    } else {
        spec_dec_nat(n / 10) + seq![spec_digit_char(n % 10)]
    }
}

/// The decimal text of an `i64`, with a leading minus sign when negative.
pub open spec fn spec_dec_i64(n: i64) -> Seq<char> {
    if n >= 0 {
        spec_dec_nat(n as int)
    } else {
        seq!['-'] + spec_dec_nat(-(n as int))
    }
}

/// The text of a constant value.
pub open spec fn spec_const_text(cv: ConstValue) -> Seq<char> {
    match cv {
        ConstValue::Int(n) => spec_dec_i64(n),
        ConstValue::Bool(b) => if b {
            "true"@
        } else {
            "false"@
        },
        ConstValue::Str(i) => "str."@ + spec_dec_nat(i as int),
    }
}

/// The text of an operand: an immediate as its value, a string pointer as
/// its interning label, a global as `@name`, a register as `%number`.
pub open spec fn spec_operand_text(o: Operand, globals: Seq<SpecGlobal>) -> Seq<char> {
    match o {
        Operand::Int(n) => spec_dec_i64(n),
        Operand::Bool(b) => if b {
            "true"@
        } else {
            "false"@
        },
        Operand::Str(i) => "str."@ + spec_dec_nat(i as int),
        Operand::Global(g) => "@"@ + (if g < globals.len() {
            globals[g as int].name
        } else {
            Seq::empty()
        }),
        Operand::Reg(k) => "%"@ + spec_dec_nat(k as int),
    }
}

/// A comma-separated operand list.
pub open spec fn spec_operands_text(ops: Seq<Operand>, globals: Seq<SpecGlobal>) -> Seq<char>
    decreases ops.len(),
{
    if ops.len() == 0 {
        Seq::empty()
    } else {
        spec_operands_text(ops.take(ops.len() - 1), globals) + (if ops.len() > 1 {
            ", "@
        } else {
            Seq::empty()
        }) + spec_operand_text(ops.last(), globals)
    }
}

/// The mnemonic of a scalar arithmetic instruction.
pub open spec fn spec_binop_name(op: BinOp) -> Seq<char> {
    match op {
        BinOp::Add => "add"@,
        BinOp::Subtract => "sub"@,
        BinOp::Multiply => "mul"@,
        BinOp::Divide => "sdiv"@,
    }
}

/// The name an emitted call prints for its target.
pub open spec fn spec_callee_text(c: Callee, functions: Seq<SpecFunction>) -> Seq<char> {
    match c {
        Callee::Printf => "printf"@,
        Callee::Defined(fi) => if fi < functions.len() {
            functions[fi as int].name
        } else {
            Seq::empty()
        },
    }
}

/// One instruction's line of text.
pub open spec fn spec_instr_text(
    ins: SpecInstr,
    globals: Seq<SpecGlobal>,
    functions: Seq<SpecFunction>,
) -> Seq<char> {
    match ins {
        SpecInstr::Bin { dest, op, lhs, rhs } => "  %"@ + spec_dec_nat(dest as int) + " = "@
            + spec_binop_name(op) + " "@ + spec_operand_text(lhs, globals) + ", "@
            + spec_operand_text(rhs, globals) + "\n"@,
        SpecInstr::Alloc { dest, len } => "  %"@ + spec_dec_nat(dest as int) + " = alloc "@
            + spec_dec_nat(len as int) + "\n"@,
        SpecInstr::Store { base, offset, value } => "  store "@ + spec_operand_text(value, globals)
            + ", "@ + spec_operand_text(base, globals) + "["@ + spec_dec_nat(offset as int)
            + "]\n"@,
        SpecInstr::Print { value } => "  call printf("@ + spec_operand_text(value, globals)
            + ")\n"@,
        SpecInstr::Call { callee, args } => "  call "@ + spec_callee_text(callee, functions) + "("@
            + spec_operands_text(args, globals) + ")\n"@,
        SpecInstr::Ret => "  ret\n"@,
    }
}

/// The lines of a body's instructions, in order.
pub open spec fn spec_instrs_text(
    instrs: Seq<SpecInstr>,
    globals: Seq<SpecGlobal>,
    functions: Seq<SpecFunction>,
) -> Seq<char>
    decreases instrs.len(),
{
    if instrs.len() == 0 {
        Seq::empty()
    } else {
        spec_instrs_text(instrs.take(instrs.len() - 1), globals, functions) + spec_instr_text(
            instrs.last(),
            globals,
            functions,
        )
    }
}

/// The interned-string lines, in interning order.
pub open spec fn spec_strings_text(strs: Seq<Seq<char>>) -> Seq<char>
    decreases strs.len(),
{
    if strs.len() == 0 {
        Seq::empty()
    } else {
        spec_strings_text(strs.take(strs.len() - 1)) + ("str."@ + spec_dec_nat(strs.len() - 1)
            + " = \""@ + strs.last() + "\"\n"@)
    }
}

/// The global-binding lines, in order.
pub open spec fn spec_globals_text(gs: Seq<SpecGlobal>) -> Seq<char>
    decreases gs.len(),
{
    if gs.len() == 0 {
        Seq::empty()
    } else {
        spec_globals_text(gs.take(gs.len() - 1)) + ("global "@ + gs.last().name + " = "@
            + spec_const_text(gs.last().value) + "\n"@)
    }
}

/// The function definitions, in order.
pub open spec fn spec_functions_text(
    fs: Seq<SpecFunction>,
    globals: Seq<SpecGlobal>,
    functions: Seq<SpecFunction>,
) -> Seq<char>
    decreases fs.len(),
{
    if fs.len() == 0 {
        Seq::empty()
    } else {
        spec_functions_text(fs.take(fs.len() - 1), globals, functions) + ("define "@
            + fs.last().name + " {\n"@ + spec_instrs_text(fs.last().body, globals, functions)
            + "}\n"@)
    }
}

/// The serialized module: a header, the declaration of the one external
/// output primitive, the interned strings, the globals, the functions, and a
/// `main` body holding the top-level instructions.
pub open spec fn spec_serialize_program(m: SpecModule, main: Seq<SpecInstr>) -> Seq<char> {
    "module venti\n"@ + "declare printf\n"@ + spec_strings_text(m.strings) + spec_globals_text(
        m.globals,
    ) + spec_functions_text(m.functions, m.globals, m.functions) + "define main {\n"@
        + spec_instrs_text(main, m.globals, m.functions) + "}\n"@
}

fn digit_str(d: u64) -> (r: &'static str)
    requires
        d < 10,
    ensures
        r@ == seq![spec_digit_char(d as int)],
{
    proof {
        reveal_strlit("0");
        reveal_strlit("1");
        reveal_strlit("2");
        reveal_strlit("3");
        reveal_strlit("4");
        reveal_strlit("5");
        reveal_strlit("6");
        reveal_strlit("7");
        reveal_strlit("8");
        reveal_strlit("9");
    }
    let r: &'static str = if d == 0 {
        "0"
    } else if d == 1 {
        "1"
    } else if d == 2 {
        "2"
    } else if d == 3 {
        "3"
    } else if d == 4 {
        "4"
    } else if d == 5 {
        "5"
    } else if d == 6 {
        "6"
    } else if d == 7 {
        "7"
    } else if d == 8 {
        "8"
    } else {
        "9"
    };
    proof {
        assert(r@ =~= seq![spec_digit_char(d as int)]);
    }
    r
}

/// Writes a nonnegative integer in decimal, as `spec_dec_nat` does.
fn dec_u64(n: u64) -> (r: String)
    ensures
        r@ == spec_dec_nat(n as int),
    decreases n,
{
    if n < 10 {
        digit_str(n).to_owned()
    } else {
        let mut s = dec_u64(n / 10);
        s.append(digit_str(n % 10));
        s
    }
}

fn dec_usize(n: usize) -> (r: String)
    ensures
        r@ == spec_dec_nat(n as int),
{
    dec_u64(n as u64)
}

/// Writes an `i64` in decimal, as `spec_dec_i64` does.
fn dec_i64(n: i64) -> (r: String)
    ensures
        r@ == spec_dec_i64(n),
{
    if n >= 0 {
        dec_u64(n as u64)
    } else {
        let mag: u64 = if n == i64::MIN {
            9223372036854775808u64
        } else {
            (-n) as u64
        };
        proof {
            assert(mag as int == -(n as int));
            reveal_strlit("-");
        }
        let mut s = "-".to_owned();
        s.append(dec_u64(mag).as_str());
        proof {
            assert(s@ =~= seq!['-'] + spec_dec_nat(mag as int));
        }
        s
    }
}

/// Appends an operand's text, as `spec_operand_text` does.
fn push_operand(out: &mut String, o: &Operand, globals: &Vec<GlobalDef>)
    ensures
        final(out)@ == old(out)@ + spec_operand_text(*o, view_globals(globals@)),
{
    let ghost pre = out@;
    match o {
        Operand::Int(n) => {
            out.append(dec_i64(*n).as_str());
        },
        Operand::Bool(b) => {
            if *b {
                out.append("true");
            } else {
                out.append("false");
            }
        },
        Operand::Str(i) => {
            out.append("str.");
            out.append(dec_usize(*i).as_str());
            proof {
                assert(out@ =~= pre + ("str."@ + spec_dec_nat(*i as int)));
            }
        },
        Operand::Global(g) => {
            out.append("@");
            if *g < globals.len() {
                out.append(globals[*g].name.as_str());
            }
            proof {
                assert(out@ =~= pre + spec_operand_text(*o, view_globals(globals@)));
            }
        },
        Operand::Reg(k) => {
            out.append("%");
            out.append(dec_usize(*k).as_str());
            proof {
                assert(out@ =~= pre + ("%"@ + spec_dec_nat(*k as int)));
            }
        },
    }
}

/// Appends a comma-separated operand list, as `spec_operands_text` does.
fn push_operands(out: &mut String, ops: &Vec<Operand>, globals: &Vec<GlobalDef>)
    ensures
        final(out)@ == old(out)@ + spec_operands_text(ops@, view_globals(globals@)),
{
    let ghost pre = out@;
    let mut i: usize = 0;
    proof {
        assert(ops@.take(0) =~= Seq::<Operand>::empty());
        assert(pre + Seq::<char>::empty() =~= pre);
    }
    while i < ops.len()
        invariant
            i <= ops@.len(),
            out@ == pre + spec_operands_text(ops@.take(i as int), view_globals(globals@)),
        decreases ops@.len() - i,
    {
        let ghost mid = out@;
        if i > 0 {
            out.append(", ");
        }
        push_operand(out, &ops[i], globals);
        proof {
            let gv = view_globals(globals@);
            let t = ops@.take(i + 1);
            assert(t.take(t.len() - 1) =~= ops@.take(i as int));
            assert(t.last() == ops@[i as int]);
            if i > 0 {
                assert(out@ =~= pre + (spec_operands_text(ops@.take(i as int), gv) + ", "@
                    + spec_operand_text(ops@[i as int], gv)));
            } else {
                assert(spec_operands_text(ops@.take(0), gv) =~= Seq::<char>::empty());
                assert(out@ =~= pre + (spec_operands_text(ops@.take(i as int), gv)
                    + Seq::<char>::empty() + spec_operand_text(ops@[i as int], gv)));
            }
        }
        i = i + 1;
    }
    proof {
        assert(ops@.take(ops@.len() as int) =~= ops@);
    }
}

/// Appends one instruction's line, as `spec_instr_text` does.
fn push_instr(out: &mut String, ins: &Instr, globals: &Vec<GlobalDef>, functions: &Vec<Function>)
    ensures
        final(out)@ == old(out)@ + spec_instr_text(
            ins.deep_view(),
            view_globals(globals@),
            view_functions(functions@),
        ),
{
    let ghost pre = out@;
    match ins {
        Instr::Bin { dest, op, lhs, rhs } => {
            out.append("  %");
            out.append(dec_usize(*dest).as_str());
            out.append(" = ");
            match op {
                BinOp::Add => out.append("add"),
                BinOp::Subtract => out.append("sub"),
                BinOp::Multiply => out.append("mul"),
                BinOp::Divide => out.append("sdiv"),
            }
            out.append(" ");
            push_operand(out, lhs, globals);
            out.append(", ");
            push_operand(out, rhs, globals);
            out.append("\n");
            proof {
                assert(out@ =~= pre + spec_instr_text(
                    ins.deep_view(),
                    view_globals(globals@),
                    view_functions(functions@),
                ));
            }
        },
        Instr::Alloc { dest, len } => {
            out.append("  %");
            out.append(dec_usize(*dest).as_str());
            out.append(" = alloc ");
            out.append(dec_usize(*len).as_str());
            out.append("\n");
            proof {
                assert(out@ =~= pre + spec_instr_text(
                    ins.deep_view(),
                    view_globals(globals@),
                    view_functions(functions@),
                ));
            }
        },
        Instr::Store { base, offset, value } => {
            out.append("  store ");
            push_operand(out, value, globals);
            out.append(", ");
            push_operand(out, base, globals);
            out.append("[");
            out.append(dec_usize(*offset).as_str());
            out.append("]\n");
            proof {
                assert(out@ =~= pre + spec_instr_text(
                    ins.deep_view(),
                    view_globals(globals@),
                    view_functions(functions@),
                ));
            }
        },
        Instr::Print { value } => {
            out.append("  call printf(");
            push_operand(out, value, globals);
            out.append(")\n");
            proof {
                assert(out@ =~= pre + spec_instr_text(
                    ins.deep_view(),
                    view_globals(globals@),
                    view_functions(functions@),
                ));
            }
        },
        Instr::Call { callee, args } => {
            out.append("  call ");
            match callee {
                Callee::Printf => {
                    out.append("printf");
                },
                Callee::Defined(fi) => {
                    if *fi < functions.len() {
                        out.append(functions[*fi].name.as_str());
                    }
                },
            }
            out.append("(");
            push_operands(out, args, globals);
            out.append(")\n");
            proof {
                assert(out@ =~= pre + spec_instr_text(
                    ins.deep_view(),
                    view_globals(globals@),
                    view_functions(functions@),
                ));
            }
        },
        Instr::Ret => {
            out.append("  ret\n");
        },
    }
}

/// Appends a body's instruction lines, as `spec_instrs_text` does.
fn push_instrs(
    out: &mut String,
    instrs: &Vec<Instr>,
    globals: &Vec<GlobalDef>,
    functions: &Vec<Function>,
)
    ensures
        final(out)@ == old(out)@ + spec_instrs_text(
            view_instrs(instrs@),
            view_globals(globals@),
            view_functions(functions@),
        ),
{
    let ghost pre = out@;
    let ghost dv = view_instrs(instrs@);
    let mut i: usize = 0;
    proof {
        assert(dv.take(0) =~= Seq::<SpecInstr>::empty());
        assert(pre + Seq::<char>::empty() =~= pre);
    }
    while i < instrs.len()
        invariant
            i <= instrs@.len(),
            dv == view_instrs(instrs@),
            out@ == pre + spec_instrs_text(
                dv.take(i as int),
                view_globals(globals@),
                view_functions(functions@),
            ),
        decreases instrs@.len() - i,
    {
        push_instr(out, &instrs[i], globals, functions);
        proof {
            let gv = view_globals(globals@);
            let fv = view_functions(functions@);
            let t = dv.take(i + 1);
            assert(t.take(t.len() - 1) =~= dv.take(i as int));
            assert(t.last() == dv[i as int]);
            assert(dv[i as int] == instrs@[i as int].deep_view());
            assert(out@ =~= pre + (spec_instrs_text(dv.take(i as int), gv, fv) + spec_instr_text(
                dv[i as int],
                gv,
                fv,
            )));
        }
        i = i + 1;
    }
    proof {
        assert(dv.take(instrs@.len() as int) =~= dv);
    }
}

impl CodeGen {
    /// Serializes the module and the top-level body to the textual
    /// intermediate representation: exactly `spec_serialize_program`.
    pub fn serialize(&self, main: &Vec<Instr>) -> (r: String)
        ensures
            r@ == spec_serialize_program(self.model(), view_instrs(main@)),
    {
        let mut out = "module venti\n".to_owned();
        out.append("declare printf\n");
        let ghost header = "module venti\n"@ + "declare printf\n"@;
        let ghost sv = view_strings(self.strings@);
        let mut i: usize = 0;
        proof {
            assert(sv.take(0) =~= Seq::<Seq<char>>::empty());
            assert(header + Seq::<char>::empty() =~= header);
        }
        while i < self.strings.len()
            invariant
                i <= self.strings@.len(),
                sv == view_strings(self.strings@),
                out@ == header + spec_strings_text(sv.take(i as int)),
            decreases self.strings@.len() - i,
        {
            out.append("str.");
            out.append(dec_usize(i).as_str());
            out.append(" = \"");
            out.append(self.strings[i].as_str());
            out.append("\"\n");
            proof {
                let t = sv.take(i + 1);
                assert(t.take(t.len() - 1) =~= sv.take(i as int));
                assert(t.last() == sv[i as int]);
                assert(sv[i as int] == self.strings@[i as int]@);
                assert(out@ =~= header + (spec_strings_text(sv.take(i as int)) + ("str."@
                    + spec_dec_nat(i as int) + " = \""@ + sv[i as int] + "\"\n"@)));
            }
            i = i + 1;
        }
        proof {
            assert(sv.take(self.strings@.len() as int) =~= sv);
        }
        let ghost after_strings = header + spec_strings_text(sv);
        let ghost gv = view_globals(self.globals@);
        let mut j: usize = 0;
        proof {
            assert(gv.take(0) =~= Seq::<SpecGlobal>::empty());
            assert(after_strings + Seq::<char>::empty() =~= after_strings);
        }
        while j < self.globals.len()
            invariant
                j <= self.globals@.len(),
                gv == view_globals(self.globals@),
                out@ == after_strings + spec_globals_text(gv.take(j as int)),
            decreases self.globals@.len() - j,
        {
            out.append("global ");
            out.append(self.globals[j].name.as_str());
            out.append(" = ");
            let cv = self.globals[j].value;
            match cv {
                ConstValue::Int(n) => {
                    out.append(dec_i64(n).as_str());
                },
                ConstValue::Bool(b) => {
                    if b {
                        out.append("true");
                    } else {
                        out.append("false");
                    }
                },
                ConstValue::Str(si) => {
                    out.append("str.");
                    out.append(dec_usize(si).as_str());
                },
            }
            out.append("\n");
            proof {
                let t = gv.take(j + 1);
                assert(t.take(t.len() - 1) =~= gv.take(j as int));
                assert(t.last() == gv[j as int]);
                assert(gv[j as int] == self.globals@[j as int].deep_view());
                assert(out@ =~= after_strings + (spec_globals_text(gv.take(j as int)) + ("global "@
                    + gv[j as int].name + " = "@ + spec_const_text(gv[j as int].value) + "\n"@)));
            }
            j = j + 1;
        }
        proof {
            assert(gv.take(self.globals@.len() as int) =~= gv);
        }
        let ghost after_globals = after_strings + spec_globals_text(gv);
        let ghost fv = view_functions(self.functions@);
        let mut k: usize = 0;
        proof {
            assert(fv.take(0) =~= Seq::<SpecFunction>::empty());
            assert(after_globals + Seq::<char>::empty() =~= after_globals);
        }
        while k < self.functions.len()
            invariant
                k <= self.functions@.len(),
                fv == view_functions(self.functions@),
                gv == view_globals(self.globals@),
                out@ == after_globals + spec_functions_text(fv.take(k as int), gv, fv),
            decreases self.functions@.len() - k,
        {
            out.append("define ");
            out.append(self.functions[k].name.as_str());
            out.append(" {\n");
            push_instrs(&mut out, &self.functions[k].body, &self.globals, &self.functions);
            out.append("}\n");
            proof {
                let t = fv.take(k + 1);
                assert(t.take(t.len() - 1) =~= fv.take(k as int));
                assert(t.last() == fv[k as int]);
                assert(fv[k as int] == self.functions@[k as int].deep_view());
                assert(out@ =~= after_globals + (spec_functions_text(fv.take(k as int), gv, fv) + (
                "define "@ + fv[k as int].name + " {\n"@ + spec_instrs_text(
                    fv[k as int].body,
                    gv,
                    fv,
                ) + "}\n"@)));
            }
            k = k + 1;
        }
        proof {
            assert(fv.take(self.functions@.len() as int) =~= fv);
        }
        out.append("define main {\n");
        push_instrs(&mut out, main, &self.globals, &self.functions);
        out.append("}\n");
        proof {
            assert(out@ =~= spec_serialize_program(self.model(), view_instrs(main@)));
        }
        out
    }

    /// Lowers a whole program — the statement sequence, in order, against
    /// the module being built — and serializes the result: exactly
    /// `spec_compile` followed by `spec_serialize_program`, failing with a
    /// `CodegenError` exactly when some statement fails to lower. On failure
    /// no output text is produced.
    #[verifier::loop_isolation(false)]
    pub fn compile(&mut self, statements: Vec<Statement>) -> (r: Result<String, VentiError>)
        ensures
            seq_prefix(
                view_functions(old(self).functions@),
                view_functions(final(self).functions@),
            ),
            preserves_binding_names(
                view_globals(old(self).globals@),
                view_globals(final(self).globals@),
            ),
            match r {
                Ok(out) => (match spec_compile(old(self).model(), deep_view_stmts(statements@)) {
                    Ok((m2, main)) => final(self).model() == m2 && out@ == spec_serialize_program(
                        m2,
                        main,
                    ),
                    Err(_) => false,
                }),
                Err(err) => spec_compile(old(self).model(), deep_view_stmts(statements@))
                    is Err && err is CodegenError && err.spec_message() == spec_compile(
                    old(self).model(),
                    deep_view_stmts(statements@),
                )->Err_0,
            },
    {
        let ghost m0 = self.model();
        let ghost fv0 = view_functions(self.functions@);
        let ghost gv0 = view_globals(self.globals@);
        let ghost dv = deep_view_stmts(statements@);
        proof {
            lemma_deep_view_stmts(statements@);
            assert(dv.subrange(0, dv.len() as int) =~= dv);
        }
        let mut main: Vec<Instr> = Vec::new();
        let mut regs: Vec<RegKind> = Vec::new();
        let mut k: usize = 0;
        proof {
            assert(view_instrs(main@) =~= Seq::<SpecInstr>::empty());
        }
        loop
            invariant
                k <= statements@.len(),
                seq_prefix(fv0, view_functions(self.functions@)),
                preserves_binding_names(gv0, view_globals(self.globals@)),
                spec_lower_stmts(dv, m0, Seq::empty()) == (match spec_lower_stmts(
                    dv.subrange(k as int, dv.len() as int),
                    self.model(),
                    regs@,
                ) {
                    Ok(rest) => Ok(
                        StmtLowering {
                            module: rest.module,
                            emitted: view_instrs(main@) + rest.emitted,
                            regs: rest.regs,
                        },
                    ),
                    Err(msg) => Err(msg),
                }),
            decreases statements@.len() - k,
        {
            if k == statements.len() {
                break;
            }
            let ghost m_it = self.model();
            let ghost r_it = regs@;
            let ghost i_it = view_instrs(main@);
            proof {
                assert(dv.subrange(k as int, dv.len() as int)[0] == dv[k as int]);
                assert(dv[k as int] == statements@[k as int].deep_view());
            }
            let res = self.compile_statement(&statements[k], &mut main, &mut regs);
            proof {
                lemma_seq_prefix_trans(fv0, m_it.functions, view_functions(self.functions@));
                lemma_preserves_binding_names_trans(
                    gv0,
                    m_it.globals,
                    view_globals(self.globals@),
                );
            }
            match res {
                Ok(_) => {},
                Err(e) => {
                    return Err(e);
                },
            }
            proof {
                let sl = spec_lower_stmt(dv[k as int], m_it, r_it)->Ok_0;
                assert(dv.subrange(k as int, dv.len() as int).subrange(
                    1,
                    dv.len() as int - k,
                ) =~= dv.subrange(k + 1, dv.len() as int));
                let tail = spec_lower_stmts(
                    dv.subrange(k + 1, dv.len() as int),
                    self.model(),
                    regs@,
                );
                if tail is Ok {
                    let rest2 = tail->Ok_0;
                    assert(i_it + (sl.emitted + rest2.emitted) =~= view_instrs(main@)
                        + rest2.emitted);
                }
            }
            k = k + 1;
        }
        proof {
            assert(dv.subrange(statements@.len() as int, dv.len() as int)
                =~= Seq::<SpecStatement>::empty());
            assert(view_instrs(main@) + Seq::<SpecInstr>::empty() =~= view_instrs(main@));
        }
        let out = self.serialize(&main);
        Ok(out)
    }
}

// ---------------------------------------------------------------------------
// Laws of the lowering stage
// ---------------------------------------------------------------------------
proof fn lemma_find_global_props(gs: Seq<SpecGlobal>, name: Seq<char>)
    ensures
        match spec_find_global(gs, name) {
            Some(i) => 0 <= i < gs.len() && gs[i].name == name && forall|j: int|
                0 <= j < i ==> gs[j].name != name,
            None => forall|j: int| 0 <= j < gs.len() ==> gs[j].name != name,
        },
    decreases gs.len(),
{
    if gs.len() > 0 && gs[0].name != name {
        let rest = gs.subrange(1, gs.len() as int);
        lemma_find_global_props(rest, name);
        match spec_find_global(rest, name) {
            Some(i) => {
                assert(rest[i] == gs[i + 1]);
                assert forall|j: int| 0 <= j < i + 1 implies gs[j].name != name by {
                    if j > 0 {
                        assert(gs[j] == rest[j - 1]);
                    }
                }
            },
            None => {
                assert forall|j: int| 0 <= j < gs.len() implies gs[j].name != name by {
                    if j > 0 {
                        assert(gs[j] == rest[j - 1]);
                    }
                }
            },
        }
    }
}

proof fn lemma_find_function_exists(fs: Seq<SpecFunction>, name: Seq<char>, j: int)
    requires
        0 <= j < fs.len(),
        fs[j].name == name,
    ensures
        spec_find_function(fs, name) is Some,
    decreases j,
{
    if fs[0].name != name {
        let rest = fs.subrange(1, fs.len() as int);
        assert(rest[j - 1] == fs[j]);
        lemma_find_function_exists(rest, name, j - 1);
    }
}

/// Lowering the same program twice, each time against a fresh module, yields
/// the same module, the same top-level body, and so byte-identical
/// serialized output.
pub proof fn lemma_lowering_deterministic(
    ss: Seq<SpecStatement>,
    m1: SpecModule,
    main1: Seq<SpecInstr>,
    m2: SpecModule,
    main2: Seq<SpecInstr>,
)
    requires
        spec_compile(spec_empty_module(), ss) == Ok::<(SpecModule, Seq<SpecInstr>), Seq<char>>(
            (m1, main1),
        ),
        spec_compile(spec_empty_module(), ss) == Ok::<(SpecModule, Seq<SpecInstr>), Seq<char>>(
            (m2, main2),
        ),
    ensures
        m1 == m2,
        main1 == main2,
        spec_serialize_program(m1, main1) == spec_serialize_program(m2, main2),
{
}

/// Two lowerings of one program from fresh module state that both fail,
/// fail with the same message: the error, like the output, is a function of
/// the AST alone.
pub proof fn lemma_failed_lowering_deterministic(
    ss: Seq<SpecStatement>,
    e1: Seq<char>,
    e2: Seq<char>,
)
    requires
        spec_compile(spec_empty_module(), ss) == Err::<(SpecModule, Seq<SpecInstr>), Seq<char>>(e1),
        spec_compile(spec_empty_module(), ss) == Err::<(SpecModule, Seq<SpecInstr>), Seq<char>>(e2),
    ensures
        e1 == e2,
{
}

/// Lowering a variable declaration installs or replaces the binding of that
/// name with the initializer's constant value: after it, the name resolves,
/// and it resolves to the new value — last write wins, and redeclaration is
/// no error.
pub proof fn lemma_declaration_overwrites(
    identifier: Seq<char>,
    value: SpecExpr,
    m: SpecModule,
    regs: Seq<RegKind>,
)
    requires
        spec_lower_stmt(
            SpecStatement::VariableDeclaration { identifier, value },
            m,
            regs,
        ) is Ok,
    ensures
        ({
            let sl = spec_lower_stmt(
                SpecStatement::VariableDeclaration { identifier, value },
                m,
                regs,
            )->Ok_0;
            let (cv, _) = spec_const_eval(value, m.strings, m.globals)->Ok_0;
            &&& spec_find_global(sl.module.globals, identifier) is Some
            &&& sl.module.globals[spec_find_global(sl.module.globals, identifier).unwrap()].value
                == cv
        }),
{
    let (cv, _) = spec_const_eval(value, m.strings, m.globals)->Ok_0;
    let binding = SpecGlobal { name: identifier, value: cv };
    lemma_find_global_props(m.globals, identifier);
    match spec_find_global(m.globals, identifier) {
        Some(i) => {
            let gs2 = m.globals.update(i, binding);
            assert forall|j: int| 0 <= j < i implies gs2[j].name != identifier by {
                assert(gs2[j] == m.globals[j]);
            }
            lemma_find_global_some(gs2, identifier, i);
        },
        None => {
            let gs2 = m.globals.push(binding);
            assert forall|j: int| 0 <= j < m.globals.len() implies gs2[j].name != identifier by {
                assert(gs2[j] == m.globals[j]);
            }
            lemma_find_global_some(gs2, identifier, m.globals.len() as int);
        },
    }
}

/// Lowering a variable assignment succeeds exactly when the name is already
/// bound and the value is constant-foldable, and then rebinds the existing
/// binding to the new value — it never creates or duplicates a binding.
pub proof fn lemma_assignment_rebinds(
    identifier: Seq<char>,
    value: SpecExpr,
    m: SpecModule,
    regs: Seq<RegKind>,
)
    ensures
        spec_lower_stmt(SpecStatement::VariableAssignment { identifier, value }, m, regs)
            is Ok <==> (spec_find_global(m.globals, identifier) is Some && spec_const_eval(
            value,
            m.strings,
            m.globals,
        ) is Ok),
        (spec_lower_stmt(SpecStatement::VariableAssignment { identifier, value }, m, regs)
            is Ok) ==> ({
            let sl = spec_lower_stmt(
                SpecStatement::VariableAssignment { identifier, value },
                m,
                regs,
            )->Ok_0;
            let i = spec_find_global(m.globals, identifier).unwrap();
            let (cv, _) = spec_const_eval(value, m.strings, m.globals)->Ok_0;
            &&& sl.module.globals.len() == m.globals.len()
            &&& sl.module.globals[i].value == cv
            &&& sl.module.globals[i].name == identifier
        }),
{
    lemma_find_global_props(m.globals, identifier);
}

/// A function call lowers exactly when its callee resolves — among the
/// declared functions, or as the external output primitive — and its
/// arguments lower; and an asynchronous function declaration makes its name
/// resolve, so the same call that failed before the declaration succeeds
/// after it whenever its arguments lower.
pub proof fn lemma_declaration_resolves_call(
    identifier: Seq<char>,
    body: Seq<SpecStatement>,
    m: SpecModule,
    regs: Seq<RegKind>,
)
    requires
        spec_lower_stmt(SpecStatement::AsyncFunction { identifier, body }, m, regs) is Ok,
    ensures
        ({
            let sl = spec_lower_stmt(
                SpecStatement::AsyncFunction { identifier, body },
                m,
                regs,
            )->Ok_0;
            spec_find_function(sl.module.functions, identifier) is Some
        }),
{
    let sl = spec_lower_stmt(SpecStatement::AsyncFunction { identifier, body }, m, regs)->Ok_0;
    let fi = m.functions.len() as int;
    let m1 = SpecModule {
        strings: m.strings,
        globals: m.globals,
        functions: m.functions.push(SpecFunction { name: identifier, body: Seq::empty() }),
    };
    lemma_stmts_functions_grow(body, m1, Seq::empty());
    assert(sl.module.functions[fi].name == identifier);
    lemma_find_function_exists(sl.module.functions, identifier, fi);
}

} // verus!
