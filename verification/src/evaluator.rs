//! Postfix evaluation: a stack machine over 64-bit words with a persistent
//! variable environment.
//!
//! The evaluator makes every decision — stack discipline, lazy identifier
//! resolution, zero-divisor and constant-reassignment checks, the variable
//! environment — but computes no arithmetic itself.  Whenever an operation
//! must be computed on two words it stops with [`EvalStep::Compute`]; the
//! embedding program applies the operation to the two IEEE-754 binary64
//! values the words encode and hands the resulting word back through
//! [`Evaluator::resume`].

use vstd::prelude::*;

use crate::error::Error;
use crate::error::ErrorCode;
use crate::error::ErrorModel;
use crate::token::OpCode;
use crate::token::Operator;
use crate::token::Scalar;
use crate::token::Token;
use crate::token::TokenModel;
use crate::token::Tokens;

verus! {

/// Whether `w` is an IEEE-754 binary64 encoding of zero: the two such
/// encodings are positive and negative zero.
pub open spec fn is_zero_word(w: u64) -> bool {
    w == 0 || w == 0x8000_0000_0000_0000
}

pub open spec fn msg_no_tokens() -> Seq<char> {
    "No tokens on stack."@
}

pub open spec fn msg_undefined() -> Seq<char> {
    "Undefined variable."@
}

pub open spec fn msg_non_value() -> Seq<char> {
    "Found non-value on value stack."@
}

pub open spec fn msg_non_ident() -> Seq<char> {
    "Found non-ident on value stack."@
}

pub open spec fn msg_division_by_zero() -> Seq<char> {
    "Division by zero is undefined."@
}

pub open spec fn msg_reassign_constant() -> Seq<char> {
    "Can not reassign constant."@
}

pub open spec fn msg_stack_size() -> Seq<char> {
    "Evaluator does not have a stack size of one."@
}

pub open spec fn msg_unhandled_token() -> Seq<char> {
    "Unhandled token."@
}

pub open spec fn msg_nothing_pending() -> Seq<char> {
    "No computation is pending."@
}

pub open spec fn evaluator_error(message: Seq<char>) -> ErrorModel {
    ErrorModel { code: ErrorCode::EvaluatorError, message }
}

/// A computation the evaluator has handed out and not yet been resumed
/// with: a plain arithmetic result to push, or a result to store into the
/// named variable and push.
pub enum Pending {
    Idle,
    Arith,
    Store(String),
}

/// The mathematical image of [`Pending`].
pub enum PendingModel {
    Idle,
    Arith,
    Store(Seq<char>),
}

impl View for Pending {
    type V = PendingModel;

    open spec fn view(&self) -> PendingModel {
        match self {
            Pending::Idle => PendingModel::Idle,
            Pending::Arith => PendingModel::Arith,
            Pending::Store(name) => PendingModel::Store(name@),
        }
    }
}

/// What one call into the evaluator comes back with: an operation the
/// embedding program must compute on two words, the final result word, or a
/// failure.
#[derive(Debug)]
pub enum EvalStep {
    Compute(OpCode, u64, u64),
    Done(u64),
    Fail(Error),
}

/// The mathematical image of an [`EvalStep`].
pub enum StepModel {
    Compute(OpCode, u64, u64),
    Done(u64),
    Fail(ErrorModel),
}

impl View for EvalStep {
    type V = StepModel;

    open spec fn view(&self) -> StepModel {
        match self {
            EvalStep::Compute(code, lhs, rhs) => StepModel::Compute(*code, *lhs, *rhs),
            EvalStep::Done(w) => StepModel::Done(*w),
            EvalStep::Fail(e) => StepModel::Fail(e@),
        }
    }
}

/// The mathematical image of an [`Evaluator`]: the variable environment, the
/// set of constant names, the value stack, the postfix input with the cursor
/// into it, and the pending computation.
pub struct EvalModel {
    pub variables: Map<Seq<char>, u64>,
    pub constants: Set<Seq<char>>,
    pub values: Seq<TokenModel>,
    pub input: Seq<TokenModel>,
    pub cursor: int,
    pub pending: PendingModel,
}

/// Resolving a popped stack entry to a word: a word number stands for
/// itself, an identifier reads the environment and an unknown name is a
/// fault, anything else on the stack is a fault.
pub open spec fn resolve_model(vars: Map<Seq<char>, u64>, t: TokenModel) -> Result<
    u64,
    ErrorModel,
> {
    match t {
        TokenModel::Number(Scalar::Word(w)) => Ok(w),
        TokenModel::Identifier(name) => if vars.contains_key(name) {
            Ok(vars[name])
        } else {
            Err(evaluator_error(msg_undefined()))
        },
        _ => Err(evaluator_error(msg_non_value())),
    }
}

/// Popping a value: the stack must be non-empty and the popped entry must
/// resolve.  The entry leaves the stack even when resolution fails.
pub open spec fn pop_value_model(st: EvalModel) -> (EvalModel, Result<u64, ErrorModel>) {
    if st.values.len() == 0 {
        (st, Err(evaluator_error(msg_no_tokens())))
    } else {
        (
            EvalModel { values: st.values.drop_last(), ..st },
            resolve_model(st.variables, st.values.last()),
        )
    }
}

/// Popping an assignment target: the stack must be non-empty and the popped
/// entry must be an identifier.
pub open spec fn pop_ident_model(st: EvalModel) -> (EvalModel, Result<Seq<char>, ErrorModel>) {
    if st.values.len() == 0 {
        (st, Err(evaluator_error(msg_no_tokens())))
    } else {
        (
            EvalModel { values: st.values.drop_last(), ..st },
            match st.values.last() {
                TokenModel::Identifier(name) => Ok(name),
                _ => Err(evaluator_error(msg_non_ident())),
            },
        )
    }
}

/// The arithmetic operation a compound assignment applies.
pub open spec fn base_of(code: OpCode) -> OpCode {
    match code {
        OpCode::AdditionAssignment => OpCode::Addition,
        OpCode::SubtractionAssignment => OpCode::Subtraction,
        OpCode::MultiplicationAssignment => OpCode::Multiplication,
        OpCode::DivisionAssignment => OpCode::Division,
        OpCode::RemainderAssignment => OpCode::Remainder,
        _ => code,
    }
}

/// Either evaluation continues with a changed state, or it stops with a
/// state and a step to hand out.
pub enum EvalOutcome {
    Continue(EvalModel),
    Stop(EvalModel, StepModel),
}

/// One operator, with the cursor already past it.  All twelve operators are
/// binary: the right operand is popped first.  `/` and `%` (and their
/// assignment forms) fail on a zero right operand; the assignment family
/// pops an identifier as its left operand, refuses constant names, and the
/// compound forms read the variable's current value (an unseen name counts
/// as zero) and hand the update out to be computed.
pub open spec fn eval_operator(st: EvalModel, op: Operator) -> EvalOutcome {
    match op.code {
        OpCode::Addition | OpCode::Subtraction | OpCode::Multiplication | OpCode::Power => {
            let popped_rhs = pop_value_model(st);
            match popped_rhs.1 {
                Err(e) => EvalOutcome::Stop(popped_rhs.0, StepModel::Fail(e)),
                Ok(rhs) => {
                    let popped_lhs = pop_value_model(popped_rhs.0);
                    match popped_lhs.1 {
                        Err(e) => EvalOutcome::Stop(popped_lhs.0, StepModel::Fail(e)),
                        Ok(lhs) => EvalOutcome::Stop(
                            EvalModel { pending: PendingModel::Arith, ..popped_lhs.0 },
                            StepModel::Compute(op.code, lhs, rhs),
                        ),
                    }
                },
            }
        },
        OpCode::Division | OpCode::Remainder => {
            let popped_rhs = pop_value_model(st);
            match popped_rhs.1 {
                Err(e) => EvalOutcome::Stop(popped_rhs.0, StepModel::Fail(e)),
                Ok(rhs) => {
                    let popped_lhs = pop_value_model(popped_rhs.0);
                    match popped_lhs.1 {
                        Err(e) => EvalOutcome::Stop(popped_lhs.0, StepModel::Fail(e)),
                        Ok(lhs) => if is_zero_word(rhs) {
                            EvalOutcome::Stop(
                                popped_lhs.0,
                                StepModel::Fail(
                                    ErrorModel {
                                        code: ErrorCode::ArithmeticError,
                                        message: msg_division_by_zero(),
                                    },
                                ),
                            )
                        } else {
                            EvalOutcome::Stop(
                                EvalModel { pending: PendingModel::Arith, ..popped_lhs.0 },
                                StepModel::Compute(op.code, lhs, rhs),
                            )
                        },
                    }
                },
            }
        },
        OpCode::Assignment => {
            let popped_rhs = pop_value_model(st);
            match popped_rhs.1 {
                Err(e) => EvalOutcome::Stop(popped_rhs.0, StepModel::Fail(e)),
                Ok(rhs) => {
                    let popped_lhs = pop_ident_model(popped_rhs.0);
                    match popped_lhs.1 {
                        Err(e) => EvalOutcome::Stop(popped_lhs.0, StepModel::Fail(e)),
                        Ok(name) => if st.constants.contains(name) {
                            EvalOutcome::Stop(
                                popped_lhs.0,
                                StepModel::Fail(
                                    ErrorModel {
                                        code: ErrorCode::ReassignConstant,
                                        message: msg_reassign_constant(),
                                    },
                                ),
                            )
                        } else {
                            EvalOutcome::Continue(
                                EvalModel {
                                    variables: popped_lhs.0.variables.insert(name, rhs),
                                    values: popped_lhs.0.values.push(
                                        TokenModel::Number(Scalar::Word(rhs)),
                                    ),
                                    ..popped_lhs.0
                                },
                            )
                        },
                    }
                },
            }
        },
        OpCode::AdditionAssignment | OpCode::SubtractionAssignment
            | OpCode::MultiplicationAssignment => {
            let popped_rhs = pop_value_model(st);
            match popped_rhs.1 {
                Err(e) => EvalOutcome::Stop(popped_rhs.0, StepModel::Fail(e)),
                Ok(rhs) => {
                    let popped_lhs = pop_ident_model(popped_rhs.0);
                    match popped_lhs.1 {
                        Err(e) => EvalOutcome::Stop(popped_lhs.0, StepModel::Fail(e)),
                        Ok(name) => if st.constants.contains(name) {
                            EvalOutcome::Stop(
                                popped_lhs.0,
                                StepModel::Fail(
                                    ErrorModel {
                                        code: ErrorCode::ReassignConstant,
                                        message: msg_reassign_constant(),
                                    },
                                ),
                            )
                        } else {
                            EvalOutcome::Stop(
                                EvalModel { pending: PendingModel::Store(name), ..popped_lhs.0 },
                                StepModel::Compute(
                                    base_of(op.code),
                                    if popped_lhs.0.variables.contains_key(name) {
                                        popped_lhs.0.variables[name]
                                    } else {
                                        0
                                    },
                                    rhs,
                                ),
                            )
                        },
                    }
                },
            }
        },
        OpCode::DivisionAssignment | OpCode::RemainderAssignment => {
            let popped_rhs = pop_value_model(st);
            match popped_rhs.1 {
                Err(e) => EvalOutcome::Stop(popped_rhs.0, StepModel::Fail(e)),
                Ok(rhs) => {
                    let popped_lhs = pop_ident_model(popped_rhs.0);
                    match popped_lhs.1 {
                        Err(e) => EvalOutcome::Stop(popped_lhs.0, StepModel::Fail(e)),
                        Ok(name) => if is_zero_word(rhs) {
                            EvalOutcome::Stop(
                                popped_lhs.0,
                                StepModel::Fail(
                                    ErrorModel {
                                        code: ErrorCode::ArithmeticError,
                                        message: msg_division_by_zero(),
                                    },
                                ),
                            )
                        } else if st.constants.contains(name) {
                            EvalOutcome::Stop(
                                popped_lhs.0,
                                StepModel::Fail(
                                    ErrorModel {
                                        code: ErrorCode::ReassignConstant,
                                        message: msg_reassign_constant(),
                                    },
                                ),
                            )
                        } else {
                            EvalOutcome::Stop(
                                EvalModel { pending: PendingModel::Store(name), ..popped_lhs.0 },
                                StepModel::Compute(
                                    base_of(op.code),
                                    if popped_lhs.0.variables.contains_key(name) {
                                        popped_lhs.0.variables[name]
                                    } else {
                                        0
                                    },
                                    rhs,
                                ),
                            )
                        },
                    }
                },
            }
        },
    }
}

/// Evaluation from the cursor on, until a computation must be handed out,
/// the input ends, or a fault stops it.  A word number is pushed; an
/// identifier is entered into the environment as zero when unseen and pushed
/// unresolved; an operator acts as [`eval_operator`] says; any other token is
/// a fault.  At the end of the input the stack must hold exactly one entry,
/// which resolves to the result.
pub open spec fn eval_advance(st: EvalModel) -> (EvalModel, StepModel)
    decreases st.input.len() - st.cursor,
{
    if st.cursor >= st.input.len() {
        if st.values.len() != 1 {
            (st, StepModel::Fail(evaluator_error(msg_stack_size())))
        } else {
            let popped = pop_value_model(st);
            match popped.1 {
                Ok(w) => (popped.0, StepModel::Done(w)),
                Err(e) => (popped.0, StepModel::Fail(e)),
            }
        }
    } else {
        let t = st.input[st.cursor];
        let stepped = EvalModel { cursor: st.cursor + 1, ..st };
        match t {
            TokenModel::Number(Scalar::Word(_)) => eval_advance(
                EvalModel { values: stepped.values.push(t), ..stepped },
            ),
            TokenModel::Identifier(name) => eval_advance(
                EvalModel {
                    variables: if stepped.variables.contains_key(name) {
                        stepped.variables
                    } else {
                        stepped.variables.insert(name, 0)
                    },
                    values: stepped.values.push(t),
                    ..stepped
                },
            ),
            TokenModel::Operator(op) => match eval_operator(stepped, op) {
                EvalOutcome::Continue(st2) => eval_advance(st2),
                EvalOutcome::Stop(st2, step) => (st2, step),
            },
            _ => (stepped, StepModel::Fail(evaluator_error(msg_unhandled_token()))),
        }
    }
}

/// What [`Evaluator::evaluate`] does: the input and cursor are replaced, any
/// pending computation is dropped, and evaluation advances.
pub open spec fn begin_model(st: EvalModel, input: Seq<TokenModel>) -> (EvalModel, StepModel) {
    eval_advance(EvalModel { input, cursor: 0, pending: PendingModel::Idle, ..st })
}

/// What [`Evaluator::resume`] does with a computed word: with nothing
/// pending it is a fault; a pending arithmetic result is pushed; a pending
/// store writes the variable and pushes.  Evaluation then advances.
pub open spec fn resume_model(st: EvalModel, w: u64) -> (EvalModel, StepModel) {
    match st.pending {
        PendingModel::Idle => (st, StepModel::Fail(evaluator_error(msg_nothing_pending()))),
        PendingModel::Arith => eval_advance(
            EvalModel {
                values: st.values.push(TokenModel::Number(Scalar::Word(w))),
                pending: PendingModel::Idle,
                ..st
            },
        ),
        PendingModel::Store(name) => eval_advance(
            EvalModel {
                variables: st.variables.insert(name, w),
                values: st.values.push(TokenModel::Number(Scalar::Word(w))),
                pending: PendingModel::Idle,
                ..st
            },
        ),
    }
}

/// The variable environment as a map: later entries of the association list
/// shadow earlier ones.
pub open spec fn env_map(entries: Seq<(String, u64)>) -> Map<Seq<char>, u64>
    decreases entries.len(),
{
    if entries.len() == 0 {
        Map::empty()
    } else {
        env_map(entries.drop_last()).insert(entries.last().0@, entries.last().1)
    }
}

/// The latest binding of `k` in the association list, if any.
pub open spec fn env_get(entries: Seq<(String, u64)>, k: Seq<char>) -> Option<u64>
    decreases entries.len(),
{
    if entries.len() == 0 {
        Option::None
    } else if entries.last().0@ == k {
        Option::Some(entries.last().1)
    } else {
        env_get(entries.drop_last(), k)
    }
}

proof fn lemma_env_get(entries: Seq<(String, u64)>, k: Seq<char>)
    ensures
        env_map(entries).contains_key(k) <==> env_get(entries, k) is Some,
        env_get(entries, k) is Some ==> env_map(entries)[k] == env_get(entries, k)->Some_0,
    decreases entries.len(),
{
    if entries.len() > 0 {
        lemma_env_get(entries.drop_last(), k);
    }
}

/// The set of names in a list: later entries add nothing new to it.
pub open spec fn names_set(entries: Seq<String>) -> Set<Seq<char>>
    decreases entries.len(),
{
    if entries.len() == 0 {
        Set::empty()
    } else {
        names_set(entries.drop_last()).insert(entries.last()@)
    }
}

pub open spec fn names_has(entries: Seq<String>, k: Seq<char>) -> bool
    decreases entries.len(),
{
    if entries.len() == 0 {
        false
    } else {
        entries.last()@ == k || names_has(entries.drop_last(), k)
    }
}

proof fn lemma_names_has(entries: Seq<String>, k: Seq<char>)
    ensures
        names_set(entries).contains(k) <==> names_has(entries, k),
    decreases entries.len(),
{
    if entries.len() > 0 {
        lemma_names_has(entries.drop_last(), k);
    }
}

/// A postfix stack machine with a persistent variable environment.
///
/// The environment and the set of constant names live as long as the
/// instance and are shared by consecutive [`Evaluator::evaluate`] calls; the
/// value stack is working state that is empty before and after every
/// successful evaluation.
pub struct Evaluator {
    pub variables: Vec<(String, u64)>,
    pub constants: Vec<String>,
    pub values: Tokens,
    pub input: Tokens,
    pub cursor: usize,
    pub pending: Pending,
}

impl View for Evaluator {
    type V = EvalModel;

    open spec fn view(&self) -> EvalModel {
        EvalModel {
            variables: env_map(self.variables@),
            constants: names_set(self.constants@),
            values: self.values@,
            input: self.input@,
            cursor: self.cursor as int,
            pending: self.pending@,
        }
    }
}

impl Evaluator {
    /// The cursor is inside the input.
    pub open spec fn wf(&self) -> bool {
        self.cursor <= self.input@.len()
    }

    /// A fresh evaluator: no variables, no constants, empty stacks.
    pub fn new() -> (r: Evaluator)
        ensures
            r.wf(),
            r@ == (EvalModel {
                variables: Map::<Seq<char>, u64>::empty(),
                constants: Set::<Seq<char>>::empty(),
                values: Seq::<TokenModel>::empty(),
                input: Seq::<TokenModel>::empty(),
                cursor: 0,
                pending: PendingModel::Idle,
            }),
    {
        let r = Evaluator {
            variables: Vec::new(),
            constants: Vec::new(),
            values: Tokens::new(),
            input: Tokens::new(),
            cursor: 0,
            pending: Pending::Idle,
        };
        r
    }

    /// The latest value bound to `name`, if the environment knows it.
    pub fn get_variable(&self, name: &String) -> (r: Option<u64>)
        ensures
            r is Some ==> self@.variables.contains_key(name@) && self@.variables[name@]
                == r->Some_0,
            r is None ==> !self@.variables.contains_key(name@),
    {
        let mut i = self.variables.len();
        proof {
            assert(self.variables@.take(i as int) =~= self.variables@);
        }
        while i > 0
            invariant
                i <= self.variables@.len(),
                env_get(self.variables@.take(i as int), name@) == env_get(self.variables@, name@),
            decreases i,
        {
            let entry = &self.variables[i - 1];
            proof {
                assert(self.variables@.take(i as int).last() == self.variables@[i - 1]);
                assert(self.variables@.take(i as int).drop_last() =~= self.variables@.take(
                    i - 1,
                ));
            }
            if entry.0.eq(name) {
                proof {
                    lemma_env_get(self.variables@, name@);
                }
                return Some(entry.1);
            }
            i = i - 1;
        }
        proof {
            assert(self.variables@.take(0) =~= Seq::<(String, u64)>::empty());
            lemma_env_get(self.variables@, name@);
        }
        None
    }

    /// Binds `name` to `w`, shadowing any earlier binding.
    fn insert_variable(&mut self, name: String, w: u64)
        ensures
            final(self)@ == (EvalModel {
                variables: old(self)@.variables.insert(name@, w),
                ..old(self)@
            }),
            final(self).wf() == old(self).wf(),
    {
        let ghost entries0 = self.variables@;
        self.variables.push((name, w));
        proof {
            assert(self.variables@.drop_last() =~= entries0);
        }
    }

    /// Whether `ident` was marked constant.
    pub fn is_constant(&self, ident: &String) -> (r: bool)
        ensures
            r == self@.constants.contains(ident@),
    {
        let mut i = self.constants.len();
        proof {
            assert(self.constants@.take(i as int) =~= self.constants@);
        }
        while i > 0
            invariant
                i <= self.constants@.len(),
                names_has(self.constants@.take(i as int), ident@) == names_has(
                    self.constants@,
                    ident@,
                ),
            decreases i,
        {
            let entry = &self.constants[i - 1];
            proof {
                assert(self.constants@.take(i as int).last() == self.constants@[i - 1]);
                assert(self.constants@.take(i as int).drop_last() =~= self.constants@.take(i - 1));
            }
            if entry.eq(ident) {
                proof {
                    lemma_names_has(self.constants@, ident@);
                }
                return true;
            }
            i = i - 1;
        }
        proof {
            assert(self.constants@.take(0) =~= Seq::<String>::empty());
            lemma_names_has(self.constants@, ident@);
        }
        false
    }

    /// Marks `ident` as write-protected.  No syntax of the language does
    /// this yet; it is the hook the reassignment check guards.
    pub fn mark_constant(&mut self, ident: String)
        ensures
            final(self)@ == (EvalModel {
                constants: old(self)@.constants.insert(ident@),
                ..old(self)@
            }),
            final(self).wf() == old(self).wf(),
    {
        let ghost entries0 = self.constants@;
        self.constants.push(ident);
        proof {
            assert(self.constants@.drop_last() =~= entries0);
        }
    }

    /// Pushes a token onto the value stack.
    pub fn push_value(&mut self, value: Token)
        ensures
            final(self)@ == (EvalModel {
                values: old(self)@.values.push(value@),
                ..old(self)@
            }),
            final(self).wf() == old(self).wf(),
    {
        self.values.push(value);
    }

    /// Pops the top of the value stack and resolves it to a word, exactly as
    /// [`pop_value_model`] says.
    pub fn pop_value(&mut self) -> (r: Result<u64, Error>)
        ensures
            final(self).wf() == old(self).wf(),
            final(self)@ == pop_value_model(old(self)@).0,
            match r {
                Ok(w) => pop_value_model(old(self)@).1 == Ok::<u64, ErrorModel>(w),
                Err(e) => pop_value_model(old(self)@).1 == Err::<u64, ErrorModel>(e@),
            },
    {
        let t = match self.values.pop() {
            Some(t) => t,
            None => {
                return Err(Error::new(ErrorCode::EvaluatorError, "No tokens on stack.".to_owned()));
            },
        };
        match t {
            Token::Identifier(name) => {
                match self.get_variable(&name) {
                    Some(w) => Ok(w),
                    None => Err(
                        Error::new(ErrorCode::EvaluatorError, "Undefined variable.".to_owned()),
                    ),
                }
            },
            Token::Number(Scalar::Word(w)) => Ok(w),
            _ => Err(
                Error::new(
                    ErrorCode::EvaluatorError,
                    "Found non-value on value stack.".to_owned(),
                ),
            ),
        }
    }

    /// Pops the top of the value stack as an assignment target, exactly as
    /// [`pop_ident_model`] says.
    pub fn pop_ident(&mut self) -> (r: Result<String, Error>)
        ensures
            final(self).wf() == old(self).wf(),
            final(self)@ == pop_ident_model(old(self)@).0,
            match r {
                Ok(name) => pop_ident_model(old(self)@).1 == Ok::<Seq<char>, ErrorModel>(name@),
                Err(e) => pop_ident_model(old(self)@).1 == Err::<Seq<char>, ErrorModel>(e@),
            },
    {
        let t = match self.values.pop() {
            Some(t) => t,
            None => {
                return Err(Error::new(ErrorCode::EvaluatorError, "No tokens on stack.".to_owned()));
            },
        };
        match t {
            Token::Identifier(name) => Ok(name),
            _ => Err(
                Error::new(
                    ErrorCode::EvaluatorError,
                    "Found non-ident on value stack.".to_owned(),
                ),
            ),
        }
    }

    /// Starts evaluating `tokens` against the persistent environment, and
    /// runs until the first outcome, as [`begin_model`] says.
    pub fn evaluate(&mut self, tokens: Tokens) -> (r: EvalStep)
        requires
            old(self).wf(),
        ensures
            final(self).wf(),
            (final(self)@, r@) == begin_model(old(self)@, tokens@),
    {
        self.input = tokens;
        self.cursor = 0;
        self.pending = Pending::Idle;
        self.advance()
    }

    /// Hands back the word computed for the pending operation and runs until
    /// the next outcome, as [`resume_model`] says.
    pub fn resume(&mut self, word: u64) -> (r: EvalStep)
        requires
            old(self).wf(),
        ensures
            final(self).wf(),
            (final(self)@, r@) == resume_model(old(self)@, word),
    {
        match &self.pending {
            Pending::Idle => {
                return EvalStep::Fail(
                    Error::new(ErrorCode::EvaluatorError, "No computation is pending.".to_owned()),
                );
            },
            _ => {},
        }
        let name_opt: Option<String> = match &self.pending {
            Pending::Store(name) => Some(name.clone()),
            _ => None,
        };
        self.pending = Pending::Idle;
        match name_opt {
            Some(name) => {
                self.insert_variable(name, word);
            },
            None => {},
        }
        self.values.push(Token::Number(Scalar::Word(word)));
        self.advance()
    }

    /// Runs the machine from the cursor until the next outcome, as
    /// [`eval_advance`] says.
    fn advance(&mut self) -> (r: EvalStep)
        requires
            old(self).wf(),
        ensures
            final(self).wf(),
            (final(self)@, r@) == eval_advance(old(self)@),
    {
        loop
            invariant
                self.wf(),
                eval_advance(self@) == eval_advance(old(self)@),
            decreases self.input@.len() - self.cursor,
        {
            let ghost pre = self@;
            if self.cursor >= self.input.len() {
                if self.values.len() != 1 {
                    return EvalStep::Fail(
                        Error::new(
                            ErrorCode::EvaluatorError,
                            "Evaluator does not have a stack size of one.".to_owned(),
                        ),
                    );
                }
                match self.pop_value() {
                    Ok(w) => {
                        return EvalStep::Done(w);
                    },
                    Err(e) => {
                        return EvalStep::Fail(e);
                    },
                }
            }
            let token = self.input.get(self.cursor).duplicate();
            self.cursor = self.cursor + 1;
            let ghost stepped = EvalModel { cursor: pre.cursor + 1, ..pre };
            match token {
                Token::Number(Scalar::Word(_)) => {
                    self.values.push(token);
                },
                Token::Number(Scalar::Literal(_)) => {
                    return EvalStep::Fail(
                        Error::new(ErrorCode::EvaluatorError, "Unhandled token.".to_owned()),
                    );
                },
                Token::Identifier(name) => {
                    let known = self.get_variable(&name).is_some();
                    if !known {
                        self.insert_variable(name.clone(), 0);
                    }
                    self.values.push(Token::Identifier(name));
                },
                Token::Operator(op) => {
                    match self.run_operator(op, Ghost(stepped)) {
                        Some(step) => {
                            return step;
                        },
                        None => {},
                    }
                },
                Token::LeftParenthesis => {
                    return EvalStep::Fail(
                        Error::new(ErrorCode::EvaluatorError, "Unhandled token.".to_owned()),
                    );
                },
                Token::RightParenthesis => {
                    return EvalStep::Fail(
                        Error::new(ErrorCode::EvaluatorError, "Unhandled token.".to_owned()),
                    );
                },
            }
        }
    }

    /// Performs one operator against the stack and the environment, exactly
    /// as [`eval_operator`] says: `None` means evaluation continues, `Some`
    /// is the outcome to hand out.
    fn run_operator(&mut self, op: Operator, stepped: Ghost<EvalModel>) -> (r: Option<EvalStep>)
        requires
            old(self).wf(),
            old(self)@ == stepped@,
        ensures
            final(self).wf(),
            match r {
                Option::None => eval_operator(stepped@, op) == EvalOutcome::Continue(final(self)@),
                Option::Some(step) => eval_operator(stepped@, op) == EvalOutcome::Stop(
                    final(self)@,
                    step@,
                ),
            },
    {
        let is_assignment_family = matches!(
            op.code,
            OpCode::Assignment
                | OpCode::AdditionAssignment
                | OpCode::SubtractionAssignment
                | OpCode::MultiplicationAssignment
                | OpCode::DivisionAssignment
                | OpCode::RemainderAssignment
        );
        let rhs = match self.pop_value() {
            Ok(w) => w,
            Err(e) => {
                return Some(EvalStep::Fail(e));
            },
        };
        if !is_assignment_family {
            let lhs = match self.pop_value() {
                Ok(w) => w,
                Err(e) => {
                    return Some(EvalStep::Fail(e));
                },
            };
            let needs_zero_check = matches!(op.code, OpCode::Division | OpCode::Remainder);
            if needs_zero_check && (rhs == 0 || rhs == 0x8000_0000_0000_0000) {
                return Some(
                    EvalStep::Fail(
                        Error::new(
                            ErrorCode::ArithmeticError,
                            "Division by zero is undefined.".to_owned(),
                        ),
                    ),
                );
            }
            self.pending = Pending::Arith;
            return Some(EvalStep::Compute(op.code, lhs, rhs));
        }
        let name = match self.pop_ident() {
            Ok(name) => name,
            Err(e) => {
                return Some(EvalStep::Fail(e));
            },
        };
        let zero_checked = matches!(
            op.code,
            OpCode::DivisionAssignment | OpCode::RemainderAssignment
        );
        if zero_checked && (rhs == 0 || rhs == 0x8000_0000_0000_0000) {
            return Some(
                EvalStep::Fail(
                    Error::new(
                        ErrorCode::ArithmeticError,
                        "Division by zero is undefined.".to_owned(),
                    ),
                ),
            );
        }
        if self.is_constant(&name) {
            return Some(
                EvalStep::Fail(
                    Error::new(ErrorCode::ReassignConstant, "Can not reassign constant.".to_owned()),
                ),
            );
        }
        if matches!(op.code, OpCode::Assignment) {
            self.insert_variable(name.clone(), rhs);
            self.values.push(Token::Number(Scalar::Word(rhs)));
            return None;
        }
        let current = match self.get_variable(&name) {
            Some(w) => w,
            None => 0,
        };
        let base = match op.code {
            OpCode::AdditionAssignment => OpCode::Addition,
            OpCode::SubtractionAssignment => OpCode::Subtraction,
            OpCode::MultiplicationAssignment => OpCode::Multiplication,
            OpCode::DivisionAssignment => OpCode::Division,
            OpCode::RemainderAssignment => OpCode::Remainder,
            _ => op.code,
        };
        self.pending = Pending::Store(name);
        Some(EvalStep::Compute(base, current, rhs))
    }
}

} // verus!

verus! {

/// Law: division and remainder by an exactly-zero word always fail with
/// `ArithmeticError`, for `/` and `%` as well as `/=` and `%=`.  The two
/// operands must pop cleanly (for the plain operators the left operand must
/// resolve to a word; for the assignment forms it must be an identifier),
/// since a stack fault is reported before the operator acts.
pub proof fn lemma_division_by_zero(st: EvalModel, op: Operator, z: u64)
    requires
        0 <= st.cursor < st.input.len(),
        st.input[st.cursor] == TokenModel::Operator(op),
        op.code == OpCode::Division || op.code == OpCode::Remainder || op.code
            == OpCode::DivisionAssignment || op.code == OpCode::RemainderAssignment,
        st.values.len() >= 2,
        st.values.last() == TokenModel::Number(Scalar::Word(z)),
        is_zero_word(z),
        (op.code == OpCode::Division || op.code == OpCode::Remainder) ==> resolve_model(
            st.variables,
            st.values[st.values.len() - 2],
        ) is Ok,
        (op.code == OpCode::DivisionAssignment || op.code == OpCode::RemainderAssignment)
            ==> st.values[st.values.len() - 2] is Identifier,
    ensures
        eval_advance(st).1 == StepModel::Fail(
            ErrorModel { code: ErrorCode::ArithmeticError, message: msg_division_by_zero() },
        ),
{
    let stepped = EvalModel { cursor: st.cursor + 1, ..st };
    assert(stepped.values.drop_last().last() == st.values[st.values.len() - 2]);
}

/// Law: evaluating the postfix form of `$x = v` on a stack machine whose
/// value stack is empty and whose environment does not protect `x` yields
/// `v` as the result, leaves the stack empty, and binds `x` to `v`; reading
/// `$x` alone on the same machine afterwards yields `v` again.
pub proof fn lemma_assign_then_read(st: EvalModel, name: Seq<char>, w: u64)
    requires
        st.values.len() == 0,
        st.cursor == 0,
        st.pending == PendingModel::Idle,
        !st.constants.contains(name),
        st.input == seq![
            TokenModel::Identifier(name),
            TokenModel::Number(Scalar::Word(w)),
            TokenModel::Operator(crate::token::operator_descriptor(OpCode::Assignment)),
        ],
    ensures
        eval_advance(st).1 == StepModel::Done(w),
        eval_advance(st).0.variables =~= st.variables.insert(name, w),
        eval_advance(st).0.values.len() == 0,
        ({
            let after = EvalModel {
                input: seq![TokenModel::Identifier(name)],
                cursor: 0,
                values: Seq::<TokenModel>::empty(),
                pending: PendingModel::Idle,
                ..eval_advance(st).0
            };
            eval_advance(after).1 == StepModel::Done(w)
        }),
{
    reveal_with_fuel(eval_advance, 6);
    let vars1 = if st.variables.contains_key(name) {
        st.variables
    } else {
        st.variables.insert(name, 0)
    };
    assert(vars1.insert(name, w) =~= st.variables.insert(name, w));
    let st1 = EvalModel {
        variables: vars1,
        values: st.values.push(TokenModel::Identifier(name)),
        cursor: 1,
        ..st
    };
    assert(eval_advance(st) == eval_advance(st1));
    let st2 = EvalModel {
        values: st1.values.push(TokenModel::Number(Scalar::Word(w))),
        cursor: 2,
        ..st1
    };
    assert(eval_advance(st1) == eval_advance(st2));
    let stepped = EvalModel { cursor: 3, ..st2 };
    assert(st2.values.len() == 2);
    assert(st2.values.last() == TokenModel::Number(Scalar::Word(w)));
    assert(st2.values.drop_last().last() == TokenModel::Identifier(name));
    let popped_rhs = pop_value_model(stepped);
    assert(popped_rhs.1 == Ok::<u64, ErrorModel>(w));
    let popped_lhs = pop_ident_model(popped_rhs.0);
    assert(popped_lhs.1 == Ok::<Seq<char>, ErrorModel>(name));
    assert(popped_lhs.0.values =~= Seq::<TokenModel>::empty());
    let st3 = EvalModel {
        variables: popped_lhs.0.variables.insert(name, w),
        values: popped_lhs.0.values.push(TokenModel::Number(Scalar::Word(w))),
        ..popped_lhs.0
    };
    assert(eval_operator(stepped, crate::token::operator_descriptor(OpCode::Assignment))
        == EvalOutcome::Continue(st3));
    assert(st3.values.len() == 1);
    assert(eval_advance(st3).1 == StepModel::Done(w));
    assert(eval_advance(st).1 == StepModel::Done(w));
    assert(eval_advance(st).0.values =~= Seq::<TokenModel>::empty());
    let fin = eval_advance(st).0;
    assert(fin.variables =~= st.variables.insert(name, w));
    let after = EvalModel {
        input: seq![TokenModel::Identifier(name)],
        cursor: 0,
        values: Seq::<TokenModel>::empty(),
        pending: PendingModel::Idle,
        ..fin
    };
    assert(after.variables.contains_key(name) && after.variables[name] == w);
    let after1 = EvalModel {
        variables: after.variables,
        values: after.values.push(TokenModel::Identifier(name)),
        cursor: 1,
        ..after
    };
    assert(eval_advance(after) == eval_advance(after1));
    assert(after1.values.len() == 1);
    assert(after1.values.last() == TokenModel::Identifier(name));
    assert(eval_advance(after1).1 == StepModel::Done(w));
}

} // verus!

verus! {

/// Law: a postfix pair of operations is computed inner-first.  On the input
/// `x y o1 z o2` (words `x`, `y`, `z` and arithmetic operators of the
/// table), the machine first asks for `o1` on `x` and `y`; resumed with a
/// word `r1`, it then asks for `o2` on `r1` and `z`; resumed with a word
/// `r2`, it finishes with `r2`.  The divisor conditions keep the two
/// operations off the zero-divisor fault.
pub proof fn lemma_postfix_order(
    st: EvalModel,
    x: u64,
    y: u64,
    z: u64,
    c1: OpCode,
    c2: OpCode,
    r1: u64,
    r2: u64,
)
    requires
        st.values.len() == 0,
        st.cursor == 0,
        st.pending == PendingModel::Idle,
        crate::parser::is_arithmetic(c1),
        crate::parser::is_arithmetic(c2),
        (c1 == OpCode::Division || c1 == OpCode::Remainder) ==> !is_zero_word(y),
        (c2 == OpCode::Division || c2 == OpCode::Remainder) ==> !is_zero_word(z),
        st.input == seq![
            TokenModel::Number(Scalar::Word(x)),
            TokenModel::Number(Scalar::Word(y)),
            TokenModel::Operator(crate::token::operator_descriptor(c1)),
            TokenModel::Number(Scalar::Word(z)),
            TokenModel::Operator(crate::token::operator_descriptor(c2)),
        ],
    ensures
        ({
            let first = eval_advance(st);
            &&& first.1 == StepModel::Compute(c1, x, y)
            &&& ({
                let second = resume_model(first.0, r1);
                &&& second.1 == StepModel::Compute(c2, r1, z)
                &&& resume_model(second.0, r2).1 == StepModel::Done(r2)
            })
        }),
{
    reveal_with_fuel(eval_advance, 7);
    let st1 = EvalModel {
        values: st.values.push(TokenModel::Number(Scalar::Word(x))),
        cursor: 1,
        ..st
    };
    let st2 = EvalModel {
        values: st1.values.push(TokenModel::Number(Scalar::Word(y))),
        cursor: 2,
        ..st1
    };
    assert(eval_advance(st) == eval_advance(st1));
    assert(eval_advance(st1) == eval_advance(st2));
    let stepped = EvalModel { cursor: 3, ..st2 };
    assert(st2.values.len() == 2);
    assert(st2.values.last() == TokenModel::Number(Scalar::Word(y)));
    assert(st2.values.drop_last().last() == TokenModel::Number(Scalar::Word(x)));
    assert(st2.values.drop_last().drop_last() =~= Seq::<TokenModel>::empty());
    let first = eval_advance(st);
    assert(first.1 == StepModel::Compute(c1, x, y));
    assert(first.0.values.len() == 0);
    assert(first.0.cursor == 3);
    assert(first.0.pending == PendingModel::Arith);
    let resumed1 = EvalModel {
        values: first.0.values.push(TokenModel::Number(Scalar::Word(r1))),
        pending: PendingModel::Idle,
        ..first.0
    };
    let st4 = EvalModel {
        values: resumed1.values.push(TokenModel::Number(Scalar::Word(z))),
        cursor: 4,
        ..resumed1
    };
    assert(eval_advance(resumed1) == eval_advance(st4));
    assert(st4.values.len() == 2);
    assert(st4.values.last() == TokenModel::Number(Scalar::Word(z)));
    assert(st4.values.drop_last().last() == TokenModel::Number(Scalar::Word(r1)));
    assert(st4.values.drop_last().drop_last() =~= Seq::<TokenModel>::empty());
    let second = resume_model(first.0, r1);
    assert(second.1 == StepModel::Compute(c2, r1, z));
    assert(second.0.values.len() == 0);
    assert(second.0.cursor == 5);
    assert(second.0.pending == PendingModel::Arith);
    let resumed2 = EvalModel {
        values: second.0.values.push(TokenModel::Number(Scalar::Word(r2))),
        pending: PendingModel::Idle,
        ..second.0
    };
    assert(resumed2.values.len() == 1);
    assert(resumed2.values.last() == TokenModel::Number(Scalar::Word(r2)));
    assert(eval_advance(resumed2).1 == StepModel::Done(r2));
}

} // verus!
