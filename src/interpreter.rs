//! The evaluator: walks expressions against one mutable environment, reads
//! input lines on `readn` / `reads`, and collects what `print` writes.
use vstd::prelude::*;
use crate::parser::{
    ArithmeticOp, BinaryOp, InputType, AST, Expr, ast_view, asts_view, names_view,
};
use crate::text::{decimal, i64_value, parse_i64, render_int, trim, trim_blanks};
use vstd::string::StringExecFns;

verus! {

/// A runtime value.
#[derive(Debug, PartialEq)]
pub enum Object {
    Boolean(bool),
    Number(i64),
    String(String),
    Void,
    Function(Vec<String>, Box<AST>),
}

/// The mathematical form of a runtime value.
pub enum Value {
    Boolean(bool),
    Number(i64),
    Str(Seq<char>),
    Void,
    Function(Seq<Seq<char>>, Expr),
}

pub open spec fn object_view(o: Object) -> Value {
    match o {
        Object::Boolean(b) => Value::Boolean(b),
        Object::Number(n) => Value::Number(n),
        Object::String(s) => Value::Str(s@),
        Object::Void => Value::Void,
        Object::Function(ps, body) => Value::Function(names_view(ps@), ast_view(*body)),
    }
}

impl View for Object {
    type V = Value;

    open spec fn view(&self) -> Value {
        object_view(*self)
    }
}

pub open spec fn objects_view(s: Seq<Object>) -> Seq<Value> {
    s.map_values(|o: Object| o@)
}

pub open spec fn lines_view(s: Seq<String>) -> Seq<Seq<char>> {
    names_view(s)
}

fn copy_names(v: &Vec<String>) -> (r: Vec<String>)
    ensures
        names_view(r@) == names_view(v@),
{
    let mut out: Vec<String> = Vec::new();
    let mut i: usize = 0;
    while i < v.len()
        invariant
            i <= v@.len(),
            out@.len() == i,
            forall|j: int| 0 <= j < i ==> #[trigger] out@[j]@ == v@[j]@,
        decreases v@.len() - i,
    {
        out.push(v[i].clone());
        i += 1;
    }
    assert(names_view(out@) =~= names_view(v@));
    out
}

/// A deep copy of an expression.
pub fn copy_ast(a: &AST) -> (r: AST)
    ensures
        r@ == a@,
    decreases a,
{
    match a {
        AST::Binary(op, l, r) => AST::Binary(*op, Box::new(copy_ast(l)), Box::new(copy_ast(r))),
        AST::Arithmetic(op, v) => AST::Arithmetic(*op, copy_asts(v)),
        AST::If(c, t, f) => AST::If(
            Box::new(copy_ast(c)),
            Box::new(copy_ast(t)),
            Box::new(copy_ast(f)),
        ),
        AST::Define(n, e) => AST::Define(n.clone(), Box::new(copy_ast(e))),
        AST::Identifier(n) => AST::Identifier(n.clone()),
        AST::Input(k) => AST::Input(*k),
        AST::Number(n) => AST::Number(*n),
        AST::String(s) => AST::String(s.clone()),
        AST::Boolean(b) => AST::Boolean(*b),
        AST::Print(e) => AST::Print(Box::new(copy_ast(e))),
        AST::Lambda(ps, body) => AST::Lambda(copy_names(ps), Box::new(copy_ast(body))),
        AST::FunCall(n, args) => AST::FunCall(n.clone(), copy_asts(args)),
    }
}

fn copy_asts(v: &Vec<AST>) -> (r: Vec<AST>)
    ensures
        asts_view(r@) == asts_view(v@),
    decreases v,
{
    let mut out: Vec<AST> = Vec::new();
    let mut i: usize = 0;
    proof { crate::parser::lemma_asts_view(v@); }
    while i < v.len()
        invariant
            i <= v@.len(),
            out@.len() == i,
            forall|j: int| 0 <= j < i ==> #[trigger] ast_view(out@[j]) == ast_view(v@[j]),
        decreases v@.len() - i,
    {
        out.push(copy_ast(&v[i]));
        i += 1;
    }
    proof {
        crate::parser::lemma_asts_view(v@);
        crate::parser::lemma_asts_view(out@);
    }
    assert(asts_view(out@) =~= asts_view(v@));
    out
}

/// A deep copy of a value.
pub fn copy_object(o: &Object) -> (r: Object)
    ensures
        r@ == o@,
{
    match o {
        Object::Boolean(b) => Object::Boolean(*b),
        Object::Number(n) => Object::Number(*n),
        Object::String(s) => Object::String(s.clone()),
        Object::Void => Object::Void,
        Object::Function(ps, body) => Object::Function(copy_names(ps), Box::new(copy_ast(body))),
    }
}


pub open spec fn bindings_map(s: Seq<(String, Object)>) -> Map<Seq<char>, Value>
    decreases s.len(),
{
    if s.len() == 0 {
        Map::empty()
    } else {
        bindings_map(s.drop_last()).insert(s.last().0@, s.last().1@)
    }
}

pub open spec fn names_unique(s: Seq<(String, Object)>) -> bool {
    forall|i: int, j: int| 0 <= i < j < s.len() ==> s[i].0@ != s[j].0@
}

proof fn lemma_bindings_absent(s: Seq<(String, Object)>, k: Seq<char>)
    requires
        forall|i: int| 0 <= i < s.len() ==> s[i].0@ != k,
    ensures
        !bindings_map(s).contains_key(k),
    decreases s.len(),
{
    if s.len() > 0 {
        lemma_bindings_absent(s.drop_last(), k);
    }
}

proof fn lemma_bindings_at(s: Seq<(String, Object)>, i: int)
    requires
        names_unique(s),
        0 <= i < s.len(),
    ensures
        bindings_map(s).contains_key(s[i].0@),
        bindings_map(s)[s[i].0@] == s[i].1@,
    decreases s.len(),
{
    if i < s.len() - 1 {
        lemma_bindings_at(s.drop_last(), i);
    }
}

proof fn lemma_bindings_update(s: Seq<(String, Object)>, i: int, p: (String, Object))
    requires
        names_unique(s),
        0 <= i < s.len(),
        p.0@ == s[i].0@,
    ensures
        bindings_map(s.update(i, p)) == bindings_map(s).insert(p.0@, p.1@),
        names_unique(s.update(i, p)),
    decreases s.len(),
{
    let u = s.update(i, p);
    if i == s.len() - 1 {
        assert(u.drop_last() =~= s.drop_last());
        assert(bindings_map(u) =~= bindings_map(s).insert(p.0@, p.1@));
    } else {
        assert(u.drop_last() =~= s.drop_last().update(i, p));
        lemma_bindings_update(s.drop_last(), i, p);
        assert(bindings_map(u) =~= bindings_map(s).insert(p.0@, p.1@));
    }
}

proof fn lemma_bindings_push(s: Seq<(String, Object)>, p: (String, Object))
    requires
        names_unique(s),
        forall|i: int| 0 <= i < s.len() ==> s[i].0@ != p.0@,
    ensures
        bindings_map(s.push(p)) == bindings_map(s).insert(p.0@, p.1@),
        names_unique(s.push(p)),
{
    assert(s.push(p).drop_last() =~= s);
}

/// The environment: names bound to values, each name at most once.
pub struct Scope {
    entries: Vec<(String, Object)>,
}

impl View for Scope {
    type V = Map<Seq<char>, Value>;

    closed spec fn view(&self) -> Map<Seq<char>, Value> {
        bindings_map(self.entries@)
    }
}

impl Scope {
    pub closed spec fn wf(&self) -> bool {
        names_unique(self.entries@)
    }

    /// An environment with no bindings.
    pub fn new() -> (r: Scope)
        ensures
            r.wf(),
            r@ == Map::<Seq<char>, Value>::empty(),
    {
        Scope { entries: Vec::new() }
    }

    fn find(&self, name: &String) -> (r: Option<usize>)
        requires
            self.wf(),
        ensures
            match r {
                Some(i) => i < self.entries@.len() && self.entries@[i as int].0@ == name@,
                None => forall|i: int|
                    0 <= i < self.entries@.len() ==> self.entries@[i].0@ != name@,
            },
    {
        let mut i: usize = 0;
        while i < self.entries.len()
            invariant
                i <= self.entries@.len(),
                forall|j: int| 0 <= j < i ==> self.entries@[j].0@ != name@,
            decreases self.entries@.len() - i,
        {
            if self.entries[i].0.eq(name) {
                return Some(i);
            }
            i += 1;
        }
        None
    }

    /// A copy of the value bound to `name`, if any.
    pub fn get(&self, name: &String) -> (r: Option<Object>)
        requires
            self.wf(),
        ensures
            r is Some <==> self@.contains_key(name@),
            r is Some ==> r->Some_0@ == self@[name@],
    {
        match self.find(name) {
            Some(i) => {
                proof { lemma_bindings_at(self.entries@, i as int); }
                Some(copy_object(&self.entries[i].1))
            },
            None => {
                proof { lemma_bindings_absent(self.entries@, name@); }
                None
            },
        }
    }

    /// Binds `name` to `value`, replacing an earlier binding of `name`.
    pub fn insert(&mut self, name: String, value: Object)
        requires
            old(self).wf(),
        ensures
            final(self).wf(),
            final(self)@ == old(self)@.insert(name@, value@),
    {
        match self.find(&name) {
            Some(i) => {
                proof { lemma_bindings_update(self.entries@, i as int, (name, value)); }
                self.entries.set(i, (name, value));
            },
            None => {
                proof { lemma_bindings_push(self.entries@, (name, value)); }
                self.entries.push((name, value));
            },
        }
    }

    /// A deep copy of the environment.
    pub fn copy(&self) -> (r: Scope)
        requires
            self.wf(),
        ensures
            r.wf(),
            r@ == self@,
    {
        let mut entries: Vec<(String, Object)> = Vec::new();
        let mut i: usize = 0;
        while i < self.entries.len()
            invariant
                i <= self.entries@.len(),
                names_unique(self.entries@),
                entries@.len() == i,
                forall|j: int|
                    0 <= j < i ==> (#[trigger] entries@[j]).0@ == self.entries@[j].0@,
                bindings_map(entries@) == bindings_map(self.entries@.subrange(0, i as int)),
            decreases self.entries@.len() - i,
        {
            let name = self.entries[i].0.clone();
            let value = copy_object(&self.entries[i].1);
            let ghost prev = entries@;
            entries.push((name, value));
            assert(entries@.drop_last() =~= prev);
            assert(self.entries@.subrange(0, i + 1).drop_last() =~= self.entries@.subrange(
                0,
                i as int,
            ));
            i += 1;
        }
        assert(self.entries@.subrange(0, i as int) =~= self.entries@);
        Scope { entries }
    }
}

/// Why evaluation stopped.
#[derive(Debug, Clone, Copy, PartialEq, Eq, Structural)]
pub enum RuntimeError {
    /// A name with no binding.
    UndefinedVariable,
    /// An operand of arithmetic or of a comparison that is no number.
    NotANumber,
    /// An `if` condition that is no boolean.
    NotABoolean,
    /// A call of a name bound to something other than a function.
    NotAFunction,
    /// A call with a number of arguments other than the function's parameters.
    ArityMismatch { expected: usize, found: usize },
    /// `+` or `-` without operands.
    NoOperands,
    /// `readn` or `reads` with no input line left.
    InputExhausted,
    /// A `readn` line that is no signed 64-bit integer.
    InvalidNumber,
    /// Calls nested deeper than the depth the evaluation was given.
    DepthExceeded,
}

/// What evaluation reads and changes: the environment, the number of input
/// lines read so far, and the lines printed so far.
pub struct State {
    pub env: Map<Seq<char>, Value>,
    pub next: int,
    pub out: Seq<Seq<char>>,
}

pub open spec fn with_env(st: State, env: Map<Seq<char>, Value>) -> State {
    State { env: env, next: st.next, out: st.out }
}

/// The text that `print` shows for a value.
pub open spec fn render(v: Value) -> Seq<char> {
    match v {
        Value::Number(n) => decimal(n as int),
        Value::Str(s) => s,
        Value::Boolean(b) => if b {
            "true"@
        } else {
            "false"@
        },
        Value::Void => "_void"@,
        Value::Function(_, _) => "lambda-function"@,
    }
}

/// The line that `print` writes for a value.
pub open spec fn print_line(v: Value) -> Seq<char> {
    "→ "@ + render(v)
}

/// The wrapping sum of `ns`.
pub open spec fn sum_of(ns: Seq<i64>) -> i64
    decreases ns.len(),
{
    if ns.len() == 0 {
        0
    } else {
        sum_of(ns.drop_last()).wrapping_add(ns.last())
    }
}

/// `ns[0] - ns[1] - ... - ns[n-1]`, wrapping.
pub open spec fn difference_of(ns: Seq<i64>) -> i64
    decreases ns.len(),
{
    if ns.len() <= 1 {
        if ns.len() == 1 {
            ns[0]
        } else {
            0
        }
    } else {
        difference_of(ns.drop_last()).wrapping_sub(ns.last())
    }
}

/// The value of `+` or `-` over its operands: `-` of one operand negates it.
pub open spec fn arithmetic(op: ArithmeticOp, ns: Seq<i64>) -> i64 {
    match op {
        ArithmeticOp::Plus => sum_of(ns),
        ArithmeticOp::Minus => if ns.len() == 1 {
            0i64.wrapping_sub(ns[0])
        } else {
            difference_of(ns)
        },
    }
}

pub open spec fn compare(op: BinaryOp, x: i64, y: i64) -> bool {
    match op {
        BinaryOp::Eq => x == y,
        BinaryOp::Lt => x < y,
        BinaryOp::Gt => x > y,
    }
}

/// `readn` / `reads`: the next input line, as a number or as a string.
pub open spec fn read_step(input: Seq<Seq<char>>, st: State, kind: InputType) -> (
    State,
    Result<Value, RuntimeError>,
) {
    if 0 <= st.next < input.len() {
        let line = input[st.next];
        let st1 = State { env: st.env, next: st.next + 1, out: st.out };
        match kind {
            InputType::String => (st1, Ok(Value::Str(line))),
            InputType::Number => match i64_value(trim(line)) {
                Some(n) => (st1, Ok(Value::Number(n))),
                None => (st1, Err(RuntimeError::InvalidNumber)),
            },
        }
    } else {
        (st, Err(RuntimeError::InputExhausted))
    }
}

/// `env` with `ps[i]` bound to `vs[i]`, in order.
pub open spec fn bind_all(env: Map<Seq<char>, Value>, ps: Seq<Seq<char>>, vs: Seq<Value>) -> Map<
    Seq<char>,
    Value,
>
    decreases ps.len(),
{
    if ps.len() == 0 || vs.len() == 0 {
        env
    } else {
        bind_all(env, ps.drop_last(), vs.drop_last()).insert(ps.last(), vs.last())
    }
}

/// Evaluates the operands `es` in order; each must be a number. The numbers
/// come after those in `acc`.
pub open spec fn eval_operands(
    fuel: nat,
    input: Seq<Seq<char>>,
    st: State,
    es: Seq<Expr>,
    acc: Seq<i64>,
) -> (State, Result<Seq<i64>, RuntimeError>)
    decreases fuel, es,
{
    if es.len() == 0 {
        (st, Ok(acc))
    } else {
        let (st1, r) = eval(fuel, input, st, es[0]);
        match r {
            Ok(Value::Number(n)) => eval_operands(
                fuel,
                input,
                st1,
                es.subrange(1, es.len() as int),
                acc.push(n),
            ),
            Ok(_) => (st1, Err(RuntimeError::NotANumber)),
            Err(x) => (st1, Err(x)),
        }
    }
}

/// Evaluates the arguments `es` in order, after the values in `acc`.
pub open spec fn eval_args(
    fuel: nat,
    input: Seq<Seq<char>>,
    st: State,
    es: Seq<Expr>,
    acc: Seq<Value>,
) -> (State, Result<Seq<Value>, RuntimeError>)
    decreases fuel, es,
{
    if es.len() == 0 {
        (st, Ok(acc))
    } else {
        let (st1, r) = eval(fuel, input, st, es[0]);
        match r {
            Ok(v) => eval_args(fuel, input, st1, es.subrange(1, es.len() as int), acc.push(v)),
            Err(x) => (st1, Err(x)),
        }
    }
}

/// Evaluates `e` in `st`, with `input` the lines that `readn` / `reads`
/// read from and `fuel` the depth of function calls allowed.
pub open spec fn eval(fuel: nat, input: Seq<Seq<char>>, st: State, e: Expr) -> (
    State,
    Result<Value, RuntimeError>,
)
    decreases fuel, e,
{
    match e {
        Expr::Number(n) => (st, Ok(Value::Number(n))),
        Expr::Str(s) => (st, Ok(Value::Str(s))),
        Expr::Boolean(b) => (st, Ok(Value::Boolean(b))),
        Expr::Identifier(name) => if st.env.contains_key(name) {
            (st, Ok(st.env[name]))
        } else {
            (st, Err(RuntimeError::UndefinedVariable))
        },
        Expr::Arithmetic(op, es) => if es.len() == 0 {
            (st, Err(RuntimeError::NoOperands))
        } else {
            let (st1, r) = eval_operands(fuel, input, st, es, seq![]);
            match r {
                Ok(ns) => (st1, Ok(Value::Number(arithmetic(op, ns)))),
                Err(x) => (st1, Err(x)),
            }
        },
        Expr::Binary(op, l, r) => {
            let (st1, a) = eval(fuel, input, st, *l);
            match a {
                Ok(Value::Number(x)) => {
                    let (st2, b) = eval(fuel, input, st1, *r);
                    match b {
                        Ok(Value::Number(y)) => (st2, Ok(Value::Boolean(compare(op, x, y)))),
                        Ok(_) => (st2, Err(RuntimeError::NotANumber)),
                        Err(x) => (st2, Err(x)),
                    }
                },
                Ok(_) => (st1, Err(RuntimeError::NotANumber)),
                Err(x) => (st1, Err(x)),
            }
        },
        Expr::If(c, t, f) => {
            let (st1, cv) = eval(fuel, input, st, *c);
            match cv {
                Ok(Value::Boolean(b)) => if b {
                    eval(fuel, input, st1, *t)
                } else {
                    eval(fuel, input, st1, *f)
                },
                Ok(_) => (st1, Err(RuntimeError::NotABoolean)),
                Err(x) => (st1, Err(x)),
            }
        },
        Expr::Define(name, x) => {
            let (st1, v) = eval(fuel, input, st, *x);
            match v {
                Ok(v) => (with_env(st1, st1.env.insert(name, v)), Ok(Value::Void)),
                Err(err) => (st1, Err(err)),
            }
        },
        Expr::Lambda(ps, body) => (st, Ok(Value::Function(ps, *body))),
        Expr::Print(x) => {
            let (st1, v) = eval(fuel, input, st, *x);
            match v {
                Ok(v) => (
                    State { env: st1.env, next: st1.next, out: st1.out.push(print_line(v)) },
                    Ok(Value::Void),
                ),
                Err(err) => (st1, Err(err)),
            }
        },
        Expr::Input(kind) => read_step(input, st, kind),
        Expr::FunCall(name, args) => if !st.env.contains_key(name) {
            (st, Err(RuntimeError::UndefinedVariable))
        } else {
            match st.env[name] {
                Value::Function(ps, body) => if ps.len() != args.len() {
                    (
                        st,
                        Err(
                            RuntimeError::ArityMismatch {
                                expected: ps.len() as usize,
                                found: args.len() as usize,
                            },
                        ),
                    )
                } else {
                    let (st1, r) = eval_args(fuel, input, st, args, seq![]);
                    match r {
                        Err(x) => (st1, Err(x)),
                        Ok(vs) => if fuel == 0 {
                            (st1, Err(RuntimeError::DepthExceeded))
                        } else {
                            let (st2, res) = eval(
                                (fuel - 1) as nat,
                                input,
                                with_env(st1, bind_all(st1.env, ps, vs)),
                                body,
                            );
                            (with_env(st2, st1.env), res)
                        },
                    }
                },
                _ => (st, Err(RuntimeError::NotAFunction)),
            }
        },
    }
}

pub open spec fn result_view(r: Result<Object, RuntimeError>) -> Result<Value, RuntimeError> {
    match r {
        Ok(o) => Ok(o@),
        Err(x) => Err(x),
    }
}

/// The line that `print` writes for `v`.
fn print_text(v: &Object) -> (r: String)
    ensures
        r@ == print_line(v@),
{
    let mut line = "→ ".to_owned();
    match v {
        Object::Number(n) => {
            let t = render_int(*n);
            line.append(t.as_str());
        },
        Object::String(s) => line.append(s.as_str()),
        Object::Boolean(b) => if *b {
            line.append("true")
        } else {
            line.append("false")
        },
        Object::Void => line.append("_void"),
        Object::Function(_, _) => line.append("lambda-function"),
    }
    line
}

fn arithmetic_value(op: ArithmeticOp, nums: &Vec<i64>) -> (r: i64)
    requires
        nums@.len() > 0,
    ensures
        r == arithmetic(op, nums@),
{
    let n = nums.len();
    match op {
        ArithmeticOp::Plus => {
            let mut acc: i64 = 0;
            let mut i: usize = 0;
            assert(nums@.subrange(0, 0) =~= Seq::<i64>::empty());
            while i < n
                invariant
                    n == nums@.len(),
                    i <= n,
                    acc == sum_of(nums@.subrange(0, i as int)),
                decreases n - i,
            {
                assert(nums@.subrange(0, i + 1).drop_last() =~= nums@.subrange(0, i as int));
                acc = acc.wrapping_add(nums[i]);
                i += 1;
            }
            assert(nums@.subrange(0, n as int) =~= nums@);
            acc
        },
        ArithmeticOp::Minus => {
            if n == 1 {
                return 0i64.wrapping_sub(nums[0]);
            }
            let mut acc: i64 = nums[0];
            let mut i: usize = 1;
            while i < n
                invariant
                    n == nums@.len(),
                    1 <= i <= n,
                    acc == difference_of(nums@.subrange(0, i as int)),
                decreases n - i,
            {
                assert(nums@.subrange(0, i + 1).drop_last() =~= nums@.subrange(0, i as int));
                acc = acc.wrapping_sub(nums[i]);
                i += 1;
            }
            assert(nums@.subrange(0, n as int) =~= nums@);
            acc
        },
    }
}

/// Evaluates the top-level forms `es` in order, each allowing `fuel` nested
/// calls, and stops at the first error.
pub open spec fn run_forms(fuel: nat, input: Seq<Seq<char>>, st: State, es: Seq<Expr>) -> (
    State,
    Option<RuntimeError>,
)
    decreases es.len(),
{
    if es.len() == 0 {
        (st, None)
    } else {
        let (st1, r) = eval(fuel, input, st, es[0]);
        match r {
            Ok(_) => run_forms(fuel, input, st1, es.subrange(1, es.len() as int)),
            Err(x) => (st1, Some(x)),
        }
    }
}

pub open spec fn initial_state(env: Map<Seq<char>, Value>) -> State {
    State { env: env, next: 0, out: seq![] }
}

/// What a run of a whole program left: the environment, the lines printed,
/// the number of input lines read, and the error that stopped it, if any.
pub struct Outcome {
    pub scope: Scope,
    pub output: Vec<String>,
    pub consumed: usize,
    pub error: Option<RuntimeError>,
}

impl Outcome {
    pub open spec fn state(&self) -> State {
        State { env: self.scope@, next: self.consumed as int, out: lines_view(self.output@) }
    }
}

/// The depth of nested function calls that an interpreter allows unless it
/// is told otherwise.
pub const MAX_CALL_DEPTH: usize = 10000;

/// An evaluator: the environment, the input lines that `readn` / `reads`
/// read in order, and the lines that `print` has written.
pub struct Interpreter {
    scope: Scope,
    input: Vec<String>,
    next_input: usize,
    output: Vec<String>,
    depth: usize,
}

impl Interpreter {
    /// The environment, the input lines read so far and the lines printed.
    pub closed spec fn state(&self) -> State {
        State { env: self.scope@, next: self.next_input as int, out: lines_view(self.output@) }
    }

    /// The depth of nested function calls allowed.
    pub closed spec fn call_depth(&self) -> nat {
        self.depth as nat
    }

    /// The input lines, read ones included.
    pub closed spec fn input_lines(&self) -> Seq<Seq<char>> {
        lines_view(self.input@)
    }

    pub closed spec fn wf(&self) -> bool {
        &&& self.scope.wf()
        &&& self.next_input <= self.input@.len()
    }

    fn read_input(&mut self, kind: InputType) -> (r: Result<Object, RuntimeError>)
        requires
            old(self).wf(),
        ensures
            final(self).wf(),
            final(self).input_lines() == old(self).input_lines(),
            final(self).call_depth() == old(self).call_depth(),
            read_step(old(self).input_lines(), old(self).state(), kind) == (
                final(self).state(),
                result_view(r),
            ),
    {
        if self.next_input >= self.input.len() {
            return Err(RuntimeError::InputExhausted);
        }
        let i = self.next_input;
        self.next_input = i + 1;
        match kind {
            InputType::String => Ok(Object::String(self.input[i].clone())),
            InputType::Number => {
                let t = trim_blanks(self.input[i].as_str());
                match parse_i64(t) {
                    Some(n) => Ok(Object::Number(n)),
                    None => Err(RuntimeError::InvalidNumber),
                }
            },
        }
    }

    fn eval_arithmetic(&mut self, op: ArithmeticOp, list: &Vec<AST>, fuel: usize) -> (r: Result<
        Object,
        RuntimeError,
    >)
        requires
            old(self).wf(),
        ensures
            final(self).wf(),
            final(self).input_lines() == old(self).input_lines(),
            final(self).call_depth() == old(self).call_depth(),
            eval(
                fuel as nat,
                old(self).input_lines(),
                old(self).state(),
                Expr::Arithmetic(op, asts_view(list@)),
            ) == (final(self).state(), result_view(r)),
        decreases fuel, list,
    {
        proof { crate::parser::lemma_asts_view(list@); }
        let ghost es = asts_view(list@);
        let ghost st0 = self.state();
        let ghost inp = self.input_lines();
        if list.len() == 0 {
            return Err(RuntimeError::NoOperands);
        }
        let n = list.len();
        let mut nums: Vec<i64> = Vec::new();
        let mut i: usize = 0;
        assert(es.subrange(0, n as int) =~= es);
        while i < n
            invariant
                self.wf(),
                n == list@.len(),
                i <= n,
                nums@.len() == i,
                es == asts_view(list@),
                es.len() == n,
                forall|j: int| 0 <= j < n ==> #[trigger] es[j] == ast_view(list@[j]),
                st0 == old(self).state(),
                inp == old(self).input_lines(),
                inp == self.input_lines(),
                self.depth == old(self).depth,
                eval_operands(fuel as nat, inp, st0, es, seq![]) == eval_operands(
                    fuel as nat,
                    inp,
                    self.state(),
                    es.subrange(i as int, n as int),
                    nums@,
                ),
            decreases n - i,
        {
            let ghost rest = es.subrange(i as int, n as int);
            assert(rest[0] == es[i as int]);
            assert(rest.subrange(1, rest.len() as int) =~= es.subrange(i + 1, n as int));
            match self.evaluate(&list[i], fuel) {
                Ok(Object::Number(x)) => {
                    nums.push(x);
                },
                Ok(_) => {
                    return Err(RuntimeError::NotANumber);
                },
                Err(x) => {
                    return Err(x);
                },
            }
            i += 1;
        }
        assert(es.subrange(n as int, n as int) =~= Seq::<Expr>::empty());
        Ok(Object::Number(arithmetic_value(op, &nums)))
    }

    fn function_call(&mut self, identifier: &String, params: &Vec<AST>, fuel: usize) -> (r: Result<
        Object,
        RuntimeError,
    >)
        requires
            old(self).wf(),
        ensures
            final(self).wf(),
            final(self).input_lines() == old(self).input_lines(),
            final(self).call_depth() == old(self).call_depth(),
            eval(
                fuel as nat,
                old(self).input_lines(),
                old(self).state(),
                Expr::FunCall(identifier@, asts_view(params@)),
            ) == (final(self).state(), result_view(r)),
        decreases fuel, params,
    {
        proof { crate::parser::lemma_asts_view(params@); }
        let ghost es = asts_view(params@);
        let ghost st0 = self.state();
        let ghost inp = self.input_lines();
        let callee = match self.scope.get(identifier) {
            None => return Err(RuntimeError::UndefinedVariable),
            Some(o) => o,
        };
        match callee {
            Object::Function(args, body) => {
                let ghost ps = names_view(args@);
                if args.len() != params.len() {
                    return Err(
                        RuntimeError::ArityMismatch { expected: args.len(), found: params.len() },
                    );
                }
                let n = params.len();
                let mut vals: Vec<Object> = Vec::new();
                let mut i: usize = 0;
                assert(es.subrange(0, n as int) =~= es);
                assert(objects_view(vals@) =~= Seq::<Value>::empty());
                while i < n
                    invariant
                        self.wf(),
                        n == params@.len(),
                        i <= n,
                        vals@.len() == i,
                        es == asts_view(params@),
                        es.len() == n,
                        forall|j: int| 0 <= j < n ==> #[trigger] es[j] == ast_view(params@[j]),
                        st0 == old(self).state(),
                        inp == old(self).input_lines(),
                        inp == self.input_lines(),
                        self.depth == old(self).depth,
                        st0.env.contains_key(identifier@),
                        st0.env[identifier@] == Value::Function(ps, ast_view(*body)),
                        ps.len() == n,
                        eval_args(fuel as nat, inp, st0, es, seq![]) == eval_args(
                            fuel as nat,
                            inp,
                            self.state(),
                            es.subrange(i as int, n as int),
                            objects_view(vals@),
                        ),
                    decreases n - i,
                {
                    let ghost rest = es.subrange(i as int, n as int);
                    assert(rest[0] == es[i as int]);
                    assert(rest.subrange(1, rest.len() as int) =~= es.subrange(i + 1, n as int));
                    match self.evaluate(&params[i], fuel) {
                        Ok(v) => {
                            let ghost before = vals@;
                            vals.push(v);
                            assert(objects_view(vals@) =~= objects_view(before).push(v@));
                        },
                        Err(x) => {
                            return Err(x);
                        },
                    }
                    i += 1;
                }
                assert(es.subrange(n as int, n as int) =~= Seq::<Expr>::empty());
                if fuel == 0 {
                    return Err(RuntimeError::DepthExceeded);
                }
                let ghost vs = objects_view(vals@);
                let ghost old_next = self.next_input;
                let ghost old_output = self.output@;
                let ghost st1 = self.state();
                let saved = self.scope.copy();
                let mut j: usize = 0;
                while j < n
                    invariant
                        self.scope.wf(),
                        saved.wf(),
                        self.next_input <= self.input@.len(),
                        n == args@.len(),
                        n == vals@.len(),
                        j <= n,
                        ps == names_view(args@),
                        vs == objects_view(vals@),
                        inp == self.input_lines(),
                        self.depth == old(self).depth,
                        self.next_input == old_next,
                        self.output@ == old_output,
                        self.scope@ == bind_all(
                            saved@,
                            ps.subrange(0, j as int),
                            vs.subrange(0, j as int),
                        ),
                    decreases n - j,
                {
                    assert(ps.subrange(0, j + 1).drop_last() =~= ps.subrange(0, j as int));
                    assert(vs.subrange(0, j + 1).drop_last() =~= vs.subrange(0, j as int));
                    let v = copy_object(&vals[j]);
                    self.scope.insert(args[j].clone(), v);
                    j += 1;
                }
                assert(ps.subrange(0, n as int) =~= ps);
                assert(vs.subrange(0, n as int) =~= vs);
                assert(with_env(st1, bind_all(st1.env, ps, vs)) == self.state());
                let result = self.evaluate(&body, fuel - 1);
                self.scope = saved;
                result
            },
            _ => Err(RuntimeError::NotAFunction),
        }
    }

    /// An interpreter with an empty environment that reads `input` in order.
    pub fn new(input: Vec<String>) -> (r: Interpreter)
        ensures
            r.wf(),
            r.state() == initial_state(Map::empty()),
            r.input_lines() == lines_view(input@),
            r.call_depth() == MAX_CALL_DEPTH,
    {
        let r = Interpreter {
            scope: Scope::new(),
            input,
            next_input: 0,
            output: Vec::new(),
            depth: MAX_CALL_DEPTH,
        };
        assert(lines_view(r.output@) =~= seq![]);
        r
    }

    /// An interpreter that starts from `scope` and reads `input` in order.
    pub fn with_scope(scope: Scope, input: Vec<String>) -> (r: Interpreter)
        requires
            scope.wf(),
        ensures
            r.wf(),
            r.state() == initial_state(scope@),
            r.input_lines() == lines_view(input@),
            r.call_depth() == MAX_CALL_DEPTH,
    {
        let r = Interpreter { scope, input, next_input: 0, output: Vec::new(), depth: MAX_CALL_DEPTH };
        assert(lines_view(r.output@) =~= seq![]);
        r
    }

    /// Allows `depth` nested function calls from now on.
    pub fn set_call_depth(&mut self, depth: usize)
        requires
            old(self).wf(),
        ensures
            final(self).wf(),
            final(self).state() == old(self).state(),
            final(self).input_lines() == old(self).input_lines(),
            final(self).call_depth() == depth,
    {
        self.depth = depth;
    }

    /// Adds a line at the end of the input.
    pub fn add_input(&mut self, line: String)
        requires
            old(self).wf(),
        ensures
            final(self).wf(),
            final(self).state() == old(self).state(),
            final(self).input_lines() == old(self).input_lines().push(line@),
            final(self).call_depth() == old(self).call_depth(),
    {
        let ghost before = self.input@;
        self.input.push(line);
        assert(lines_view(self.input@) =~= lines_view(before).push(line@));
    }

    /// Hands out the lines printed so far and forgets them.
    pub fn take_printed(&mut self) -> (r: Vec<String>)
        requires
            old(self).wf(),
        ensures
            final(self).wf(),
            final(self).input_lines() == old(self).input_lines(),
            lines_view(r@) == old(self).state().out,
            final(self).call_depth() == old(self).call_depth(),
            final(self).state() == (State {
                env: old(self).state().env,
                next: old(self).state().next,
                out: seq![],
            }),
    {
        let mut r: Vec<String> = Vec::new();
        core::mem::swap(&mut r, &mut self.output);
        assert(lines_view(self.output@) =~= seq![]);
        r
    }

    /// The environment.
    pub fn into_scope(self) -> (r: Scope)
        requires
            self.wf(),
        ensures
            r.wf(),
            r@ == self.state().env,
    {
        self.scope
    }

    /// Evaluates one top-level form. When it runs out of input lines, the
    /// environment and the input position are left as they were, and only
    /// the lines that it printed before it stopped are kept: the form can run
    /// again once more input has been added.
    pub fn run(&mut self, ast: &AST) -> (r: Result<Object, RuntimeError>)
        requires
            old(self).wf(),
        ensures
            final(self).wf(),
            final(self).input_lines() == old(self).input_lines(),
            final(self).call_depth() == old(self).call_depth(),
            ({
                let (st, res) = eval(
                    old(self).call_depth(),
                    old(self).input_lines(),
                    old(self).state(),
                    ast@,
                );
                &&& result_view(r) == res
                &&& final(self).state() == if res == Err::<Value, RuntimeError>(
                    RuntimeError::InputExhausted,
                ) {
                    State { env: old(self).state().env, next: old(self).state().next, out: st.out }
                } else {
                    st
                }
            }),
    {
        let saved_scope = self.scope.copy();
        let saved_next = self.next_input;
        let depth = self.depth;
        let r = self.evaluate(ast, depth);
        assert(lines_view(self.input@).len() == self.input@.len());
        match r {
            Err(RuntimeError::InputExhausted) => {
                self.scope = saved_scope;
                self.next_input = saved_next;
            },
            _ => {},
        }
        r
    }

    fn run_all(&mut self, asts: &Vec<AST>) -> (r: Option<RuntimeError>)
        requires
            old(self).wf(),
        ensures
            final(self).wf(),
            final(self).input_lines() == old(self).input_lines(),
            final(self).call_depth() == old(self).call_depth(),
            run_forms(old(self).call_depth(), old(self).input_lines(), old(self).state(), asts_view(asts@)) == (
                final(self).state(),
                r,
            ),
    {
        proof { crate::parser::lemma_asts_view(asts@); }
        let ghost es = asts_view(asts@);
        let ghost st0 = self.state();
        let ghost inp = self.input_lines();
        let n = asts.len();
        let mut i: usize = 0;
        assert(es.subrange(0, n as int) =~= es);
        while i < n
            invariant
                self.wf(),
                n == asts@.len(),
                i <= n,
                es == asts_view(asts@),
                es.len() == n,
                forall|j: int| 0 <= j < n ==> #[trigger] es[j] == ast_view(asts@[j]),
                st0 == old(self).state(),
                inp == old(self).input_lines(),
                inp == self.input_lines(),
                self.depth == old(self).depth,
                run_forms(self.depth as nat, inp, st0, es) == run_forms(
                    self.depth as nat,
                    inp,
                    self.state(),
                    es.subrange(i as int, n as int),
                ),
            decreases n - i,
        {
            let ghost rest = es.subrange(i as int, n as int);
            assert(rest[0] == es[i as int]);
            assert(rest.subrange(1, rest.len() as int) =~= es.subrange(i + 1, n as int));
            let depth = self.depth;
            match self.evaluate(&asts[i], depth) {
                Ok(_) => {},
                Err(x) => {
                    return Some(x);
                },
            }
            i += 1;
        }
        assert(es.subrange(n as int, n as int) =~= Seq::<Expr>::empty());
        None
    }

    /// Runs a whole program in an empty environment, reading `input` line
    /// by line for `readn` / `reads`.
    pub fn interpret(asts: Vec<AST>, input: Vec<String>) -> (r: Outcome)
        ensures
            r.scope.wf(),
            (r.state(), r.error) == run_forms(
                MAX_CALL_DEPTH as nat,
                lines_view(input@),
                initial_state(Map::empty()),
                asts_view(asts@),
            ),
    {
        let mut interpreter = Interpreter::new(input);
        let error = interpreter.run_all(&asts);
        let consumed = interpreter.next_input;
        let output = interpreter.output;
        Outcome { scope: interpreter.scope, output, consumed, error }
    }

    /// Runs a program in the environment `scope`, as one line of an
    /// interactive session does, and hands back the environment it leaves.
    pub fn interpret_repl(asts: Vec<AST>, scope: Scope, input: Vec<String>) -> (r: Outcome)
        requires
            scope.wf(),
        ensures
            r.scope.wf(),
            (r.state(), r.error) == run_forms(
                MAX_CALL_DEPTH as nat,
                lines_view(input@),
                initial_state(scope@),
                asts_view(asts@),
            ),
    {
        let mut interpreter = Interpreter::with_scope(scope, input);
        let error = interpreter.run_all(&asts);
        let consumed = interpreter.next_input;
        let output = interpreter.output;
        Outcome { scope: interpreter.scope, output, consumed, error }
    }

    /// Evaluates `ast`, allowing `fuel` nested function calls.
    pub fn evaluate(&mut self, ast: &AST, fuel: usize) -> (r: Result<Object, RuntimeError>)
        requires
            old(self).wf(),
        ensures
            final(self).wf(),
            final(self).input_lines() == old(self).input_lines(),
            final(self).call_depth() == old(self).call_depth(),
            eval(fuel as nat, old(self).input_lines(), old(self).state(), ast@) == (
                final(self).state(),
                result_view(r),
            ),
        decreases fuel, ast,
    {
        match ast {
            AST::Number(n) => Ok(Object::Number(*n)),
            AST::Boolean(b) => Ok(Object::Boolean(*b)),
            AST::String(s) => Ok(Object::String(s.clone())),
            AST::Identifier(name) => match self.scope.get(name) {
                Some(o) => Ok(o),
                None => Err(RuntimeError::UndefinedVariable),
            },
            AST::Print(x) => match self.evaluate(x, fuel) {
                Ok(v) => {
                    let line = print_text(&v);
                    let ghost before = self.output@;
                    self.output.push(line);
                    assert(lines_view(self.output@) =~= lines_view(before).push(line@));
                    Ok(Object::Void)
                },
                Err(e) => Err(e),
            },
            AST::If(c, t, f) => match self.evaluate(c, fuel) {
                Ok(Object::Boolean(b)) => if b {
                    self.evaluate(t, fuel)
                } else {
                    self.evaluate(f, fuel)
                },
                Ok(_) => Err(RuntimeError::NotABoolean),
                Err(e) => Err(e),
            },
            AST::Binary(op, l, r) => match self.evaluate(l, fuel) {
                Ok(Object::Number(x)) => match self.evaluate(r, fuel) {
                    Ok(Object::Number(y)) => Ok(
                        Object::Boolean(
                            match op {
                                BinaryOp::Eq => x == y,
                                BinaryOp::Lt => x < y,
                                BinaryOp::Gt => x > y,
                            },
                        ),
                    ),
                    Ok(_) => Err(RuntimeError::NotANumber),
                    Err(e) => Err(e),
                },
                Ok(_) => Err(RuntimeError::NotANumber),
                Err(e) => Err(e),
            },
            AST::Arithmetic(op, list) => self.eval_arithmetic(*op, list, fuel),
            AST::Define(name, x) => match self.evaluate(x, fuel) {
                Ok(v) => {
                    self.scope.insert(name.clone(), v);
                    Ok(Object::Void)
                },
                Err(e) => Err(e),
            },
            AST::Lambda(ps, body) => Ok(Object::Function(copy_names(ps), Box::new(copy_ast(body)))),
            AST::Input(kind) => self.read_input(*kind),
            AST::FunCall(name, args) => self.function_call(name, args, fuel),
        }
    }
}

} // verus!
