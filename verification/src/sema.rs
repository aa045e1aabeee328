//! Name resolution: gives every declared variable a unique name and checks
//! that variables are declared once, used only after their declaration,
//! and that only variables are assigned, incremented or decremented.

use vstd::prelude::*;
use crate::parse::{
    BlockItem, Declaration, Expression, FunctionDef, Program, SpecBlockItem, SpecDeclaration,
    SpecExpression, SpecFunctionDef, SpecProgram, SpecStatement, Statement, items_view,
};
use crate::text::{decimal, lemma_decimal_digits, lemma_decimal_injective, push_char, push_decimal};

verus! {

/// Why a program does not resolve.
#[derive(Debug, Clone, Copy, PartialEq, Eq, Structural)]
pub enum ResolveError {
    /// A variable is declared a second time.
    DuplicateDeclaration,
    /// A variable is used where no declaration of it is in scope.
    UndeclaredVariable,
    /// The left side of an assignment is not a variable.
    InvalidAssignmentTarget,
    /// The operand of `++` is not a variable.
    InvalidIncrementTarget,
    /// The operand of `--` is not a variable.
    InvalidDecrementTarget,
}

/// Scope entries: each source name with its unique name, in declaration
/// order.
pub type Scope = Seq<(Seq<char>, Seq<char>)>;

/// The unique name that `name` stands for in `scope` (its latest entry).
pub open spec fn scope_get(scope: Scope, name: Seq<char>) -> Option<Seq<char>>
    decreases scope.len(),
{
    if scope.len() == 0 {
        None
    } else if scope.last().0 == name {
        Some(scope.last().1)
    } else {
        scope_get(scope.drop_last(), name)
    }
}

/// The unique name of the declaration numbered `n` of the source name
/// `name`: `name.n`.
pub open spec fn unique_name(name: Seq<char>, n: nat) -> Seq<char> {
    name + seq!['.'] + decimal(n)
}

/// An expression with each variable replaced by its unique name.
pub open spec fn resolve_expression_in(e: SpecExpression, scope: Scope) -> Result<
    SpecExpression,
    ResolveError,
>
    decreases e,
{
    match e {
        SpecExpression::Assignment(a, b) => if (*a) is Var {
            match resolve_expression_in(*a, scope) {
                Ok(a2) => match resolve_expression_in(*b, scope) {
                    Ok(b2) => Ok(SpecExpression::Assignment(Box::new(a2), Box::new(b2))),
                    Err(err) => Err(err),
                },
                Err(err) => Err(err),
            }
        } else {
            Err(ResolveError::InvalidAssignmentTarget)
        },
        SpecExpression::Var(n) => match scope_get(scope, n) {
            Some(u) => Ok(SpecExpression::Var(u)),
            None => Err(ResolveError::UndeclaredVariable),
        },
        SpecExpression::Unary(op, a) => match resolve_expression_in(*a, scope) {
            Ok(a2) => Ok(SpecExpression::Unary(op, Box::new(a2))),
            Err(err) => Err(err),
        },
        SpecExpression::Binary(op, a, b) => match resolve_expression_in(*a, scope) {
            Ok(a2) => match resolve_expression_in(*b, scope) {
                Ok(b2) => Ok(SpecExpression::Binary(op, Box::new(a2), Box::new(b2))),
                Err(err) => Err(err),
            },
            Err(err) => Err(err),
        },
        SpecExpression::PrefixIncr(a) => if (*a) is Var {
            match resolve_expression_in(*a, scope) {
                Ok(a2) => Ok(SpecExpression::PrefixIncr(Box::new(a2))),
                Err(err) => Err(err),
            }
        } else {
            Err(ResolveError::InvalidIncrementTarget)
        },
        SpecExpression::PrefixDecr(a) => if (*a) is Var {
            match resolve_expression_in(*a, scope) {
                Ok(a2) => Ok(SpecExpression::PrefixDecr(Box::new(a2))),
                Err(err) => Err(err),
            }
        } else {
            Err(ResolveError::InvalidDecrementTarget)
        },
        SpecExpression::PostfixIncr(a) => if (*a) is Var {
            match resolve_expression_in(*a, scope) {
                Ok(a2) => Ok(SpecExpression::PostfixIncr(Box::new(a2))),
                Err(err) => Err(err),
            }
        } else {
            Err(ResolveError::InvalidIncrementTarget)
        },
        SpecExpression::PostfixDecr(a) => if (*a) is Var {
            match resolve_expression_in(*a, scope) {
                Ok(a2) => Ok(SpecExpression::PostfixDecr(Box::new(a2))),
                Err(err) => Err(err),
            }
        } else {
            Err(ResolveError::InvalidDecrementTarget)
        },
        SpecExpression::Constant(_) => Ok(e),
    }
}

/// A statement with its expression resolved.
pub open spec fn resolve_statement_in(s: SpecStatement, scope: Scope) -> Result<
    SpecStatement,
    ResolveError,
> {
    match s {
        SpecStatement::Return(e) => match resolve_expression_in(e, scope) {
            Ok(e2) => Ok(SpecStatement::Return(e2)),
            Err(err) => Err(err),
        },
        SpecStatement::Expression(e) => match resolve_expression_in(e, scope) {
            Ok(e2) => Ok(SpecStatement::Expression(e2)),
            Err(err) => Err(err),
        },
        SpecStatement::Null => Ok(SpecStatement::Null),
    }
}

/// A declaration renamed to `name.n`, with `n` the counter; the scope
/// gains the new name before the initializer is resolved, so an
/// initializer may refer to the variable it initializes.
pub open spec fn resolve_declaration_in(d: SpecDeclaration, scope: Scope, n: nat) -> Result<
    (SpecDeclaration, Scope, nat),
    ResolveError,
> {
    if scope_get(scope, d.name) is Some {
        Err(ResolveError::DuplicateDeclaration)
    } else {
        let u = unique_name(d.name, n);
        let scope2 = scope.push((d.name, u));
        match d.init {
            Some(e) => match resolve_expression_in(e, scope2) {
                Ok(e2) => Ok((SpecDeclaration { name: u, init: Some(e2) }, scope2, n + 1)),
                Err(err) => Err(err),
            },
            None => Ok((SpecDeclaration { name: u, init: None }, scope2, n + 1)),
        }
    }
}

/// The block items resolved in order, each declaration extending the
/// scope of the items after it; the final counter.
pub open spec fn resolve_items_in(items: Seq<SpecBlockItem>, scope: Scope, n: nat) -> Result<
    (Seq<SpecBlockItem>, nat),
    ResolveError,
>
    decreases items.len(),
{
    if items.len() == 0 {
        Ok((Seq::empty(), n))
    } else {
        let first = match items[0] {
            SpecBlockItem::S(s) => match resolve_statement_in(s, scope) {
                Ok(s2) => Ok((SpecBlockItem::S(s2), scope, n)),
                Err(err) => Err(err),
            },
            SpecBlockItem::D(d) => match resolve_declaration_in(d, scope, n) {
                Ok((d2, scope2, n2)) => Ok((SpecBlockItem::D(d2), scope2, n2)),
                Err(err) => Err(err),
            },
        };
        match first {
            Ok((item, scope2, n2)) => match resolve_items_in(items.drop_first(), scope2, n2) {
                Ok((rest, n3)) => Ok((seq![item] + rest, n3)),
                Err(err) => Err(err),
            },
            Err(err) => Err(err),
        }
    }
}

/// The resolved program and the counter after it, when the counter starts
/// at `n`.
pub open spec fn spec_resolve(p: SpecProgram, n: nat) -> Result<(SpecProgram, nat), ResolveError> {
    match resolve_items_in(p.function_def.body, Seq::empty(), n) {
        Ok((body, n2)) => Ok(
            (SpecProgram { function_def: SpecFunctionDef { name: p.function_def.name, body } }, n2),
        ),
        Err(err) => Err(err),
    }
}

/// The number of declarations among block items.
pub open spec fn declaration_count(items: Seq<SpecBlockItem>) -> nat
    decreases items.len(),
{
    if items.len() == 0 {
        0
    } else {
        (if items[0] is D {
            1nat
        } else {
            0nat
        }) + declaration_count(items.drop_first())
    }
}


// ---------------------------------------------------------------------
// The resolver
// ---------------------------------------------------------------------

/// Whether an executable result agrees with a specified one.
pub open spec fn agrees<T: View>(res: Result<T, ResolveError>, expected: Result<T::V, ResolveError>) -> bool {
    match (res, expected) {
        (Ok(v), Ok(w)) => v@ == w,
        (Err(e), Err(f)) => e == f,
        _ => false,
    }
}

/// The source names in scope, each with its unique name.
struct VariableMap {
    entries: Vec<(String, String)>,
}

impl VariableMap {
    spec fn scope(&self) -> Scope {
        self.entries@.map_values(|p: (String, String)| (p.0@, p.1@))
    }

    fn get(&self, name: &String) -> (r: Option<String>)
        ensures
            match r {
                Some(u) => scope_get(self.scope(), name@) == Some(u@),
                None => scope_get(self.scope(), name@) is None,
            },
    {
        let mut i = self.entries.len();
        assert(self.scope().take(i as int) =~= self.scope());
        while i > 0
            invariant
                i <= self.entries.len(),
                scope_get(self.scope(), name@) == scope_get(self.scope().take(i as int), name@),
            decreases i,
        {
            let ghost prefix = self.scope().take(i as int);
            assert(prefix.drop_last() =~= self.scope().take(i - 1));
            if self.entries[i - 1].0 == *name {
                return Some(self.entries[i - 1].1.clone());
            }
            i = i - 1;
        }
        None
    }

    fn insert(&mut self, name: String, unique: String)
        ensures
            final(self).scope() == old(self).scope().push((name@, unique@)),
    {
        let ghost n = name@;
        let ghost u = unique@;
        self.entries.push((name, unique));
        assert(self.scope() =~= old(self).scope().push((n, u)));
    }
}

/// The counter of declarations renamed so far.
struct Resolver {
    var_count: usize,
}

impl Resolver {
    fn make_tmp(&mut self, name: String) -> (r: String)
        requires
            old(self).var_count < usize::MAX,
        ensures
            r@ == unique_name(name@, old(self).var_count as nat),
            final(self).var_count == old(self).var_count + 1,
    {
        let mut tmp_var = name;
        push_char(&mut tmp_var, '.');
        push_decimal(&mut tmp_var, self.var_count as u64);
        self.var_count = self.var_count + 1;
        tmp_var
    }

    fn resolve_var(&self, name: String, variable_map: &VariableMap) -> (res: Result<Expression, ResolveError>)
        ensures
            agrees(res, resolve_expression_in(SpecExpression::Var(name@), variable_map.scope())),
    {
        match variable_map.get(&name) {
            Some(resolved_name) => Ok(Expression::Var(resolved_name)),
            None => Err(ResolveError::UndeclaredVariable),
        }
    }

    fn resolve_expression(&self, exp: Expression, variable_map: &VariableMap) -> (res: Result<
        Expression,
        ResolveError,
    >)
        ensures
            agrees(res, resolve_expression_in(exp@, variable_map.scope())),
        decreases exp,
    {
        match exp {
            Expression::Assignment(exp1, exp2) => {
                let ghost v1 = (*exp1)@;
                match *exp1 {
                    Expression::Var(name) => {
                        assert(v1 == SpecExpression::Var(name@));
                        let e1 = self.resolve_var(name, variable_map)?;
                        let e2 = self.resolve_expression(*exp2, variable_map)?;
                        Ok(Expression::Assignment(Box::new(e1), Box::new(e2)))
                    },
                    _ => Err(ResolveError::InvalidAssignmentTarget),
                }
            },
            Expression::Var(name) => self.resolve_var(name, variable_map),
            Expression::Unary(op, e) => {
                let e = self.resolve_expression(*e, variable_map)?;
                Ok(Expression::Unary(op, Box::new(e)))
            },
            Expression::Binary(op, e1, e2) => {
                let e1 = self.resolve_expression(*e1, variable_map)?;
                let e2 = self.resolve_expression(*e2, variable_map)?;
                Ok(Expression::Binary(op, Box::new(e1), Box::new(e2)))
            },
            Expression::PrefixIncr(e) => {
                let ghost v1 = (*e)@;
                match *e {
                    Expression::Var(name) => {
                        assert(v1 == SpecExpression::Var(name@));
                        let e = self.resolve_var(name, variable_map)?;
                        Ok(Expression::PrefixIncr(Box::new(e)))
                    },
                    _ => Err(ResolveError::InvalidIncrementTarget),
                }
            },
            Expression::PrefixDecr(e) => {
                let ghost v1 = (*e)@;
                match *e {
                    Expression::Var(name) => {
                        assert(v1 == SpecExpression::Var(name@));
                        let e = self.resolve_var(name, variable_map)?;
                        Ok(Expression::PrefixDecr(Box::new(e)))
                    },
                    _ => Err(ResolveError::InvalidDecrementTarget),
                }
            },
            Expression::PostfixIncr(e) => {
                let ghost v1 = (*e)@;
                match *e {
                    Expression::Var(name) => {
                        assert(v1 == SpecExpression::Var(name@));
                        let e = self.resolve_var(name, variable_map)?;
                        Ok(Expression::PostfixIncr(Box::new(e)))
                    },
                    _ => Err(ResolveError::InvalidIncrementTarget),
                }
            },
            Expression::PostfixDecr(e) => {
                let ghost v1 = (*e)@;
                match *e {
                    Expression::Var(name) => {
                        assert(v1 == SpecExpression::Var(name@));
                        let e = self.resolve_var(name, variable_map)?;
                        Ok(Expression::PostfixDecr(Box::new(e)))
                    },
                    _ => Err(ResolveError::InvalidDecrementTarget),
                }
            },
            Expression::Constant(v) => Ok(Expression::Constant(v)),
        }
    }

    fn resolve_statement(&self, statement: Statement, variable_map: &VariableMap) -> (res: Result<
        Statement,
        ResolveError,
    >)
        ensures
            agrees(res, resolve_statement_in(statement@, variable_map.scope())),
    {
        match statement {
            Statement::Return(exp) => Ok(Statement::Return(self.resolve_expression(exp, variable_map)?)),
            Statement::Expression(exp) => Ok(
                Statement::Expression(self.resolve_expression(exp, variable_map)?),
            ),
            Statement::Null => Ok(Statement::Null),
        }
    }

    fn resolve_declaration(&mut self, declaration: Declaration, variable_map: &mut VariableMap) -> (res:
        Result<Declaration, ResolveError>)
        requires
            old(self).var_count < usize::MAX,
        ensures
            match res {
                Ok(d) => resolve_declaration_in(
                    declaration@,
                    old(variable_map).scope(),
                    old(self).var_count as nat,
                ) == Ok::<(SpecDeclaration, Scope, nat), ResolveError>(
                    (d@, final(variable_map).scope(), final(self).var_count as nat),
                ),
                Err(e) => resolve_declaration_in(
                    declaration@,
                    old(variable_map).scope(),
                    old(self).var_count as nat,
                ) == Err::<(SpecDeclaration, Scope, nat), ResolveError>(e),
            },
            scope_get(old(variable_map).scope(), declaration@.name) is Some ==> {
                &&& res is Err
                &&& final(variable_map).scope() == old(variable_map).scope()
                &&& final(self).var_count == old(self).var_count
            },
            res is Err && scope_get(old(variable_map).scope(), declaration@.name) is None ==> {
                &&& final(variable_map).scope() == old(variable_map).scope().push(
                    (declaration@.name, unique_name(declaration@.name, old(self).var_count as nat)),
                )
                &&& final(self).var_count == old(self).var_count + 1
            },
    {
        let Declaration { name, init } = declaration;
        if variable_map.get(&name).is_some() {
            return Err(ResolveError::DuplicateDeclaration);
        }
        let var_name = self.make_tmp(name.clone());
        variable_map.insert(name, var_name.clone());
        let init = match init {
            Some(exp) => Some(self.resolve_expression(exp, variable_map)?),
            None => None,
        };
        Ok(Declaration { name: var_name, init })
    }

    fn resolve_program(&mut self, program: Program) -> (res: Result<Program, ResolveError>)
        requires
            old(self).var_count + declaration_count(program@.function_def.body) <= usize::MAX,
        ensures
            match res {
                Ok(p) => spec_resolve(program@, old(self).var_count as nat) == Ok::<
                    (SpecProgram, nat),
                    ResolveError,
                >((p@, final(self).var_count as nat)),
                Err(e) => spec_resolve(program@, old(self).var_count as nat) == Err::<
                    (SpecProgram, nat),
                    ResolveError,
                >(e),
            },
    {
        let ghost whole = program@.function_def.body;
        let ghost count0 = self.var_count as nat;
        let FunctionDef { name, body } = program.function_def;
        let mut block_items: Vec<BlockItem> = Vec::new();
        let mut variable_map = VariableMap { entries: Vec::new() };
        assert(variable_map.scope() =~= Seq::<(Seq<char>, Seq<char>)>::empty());
        assert(whole.skip(0) =~= whole);
        for item in it: body
            invariant
                whole == program@.function_def.body,
                count0 == old(self).var_count,
                it.seq().len() == whole.len(),
                forall|k: int| 0 <= k < whole.len() ==> #[trigger] whole[k] == it.seq()[k]@,
                self.var_count + declaration_count(whole.skip(it.index() as int)) <= usize::MAX,
                resolve_items_in(whole, Seq::empty(), count0) == match resolve_items_in(
                    whole.skip(it.index() as int),
                    variable_map.scope(),
                    self.var_count as nat,
                ) {
                    Ok((rest, n)) => Ok((items_view(block_items@) + rest, n)),
                    Err(err) => Err(err),
                },
        {
            let ghost rem = whole.skip(it.index() as int);
            let ghost done = items_view(block_items@);
            proof {
                assert(rem[0] == item@);
                assert(rem.drop_first() =~= whole.skip(it.index() + 1));
            }
            let resolved_item = match item {
                BlockItem::S(statement) => BlockItem::S(self.resolve_statement(statement, &variable_map)?),
                BlockItem::D(declaration) => BlockItem::D(
                    self.resolve_declaration(declaration, &mut variable_map)?,
                ),
            };
            let ghost rv = resolved_item@;
            block_items.push(resolved_item);
            proof {
                assert(items_view(block_items@) =~= done.push(rv));
                match resolve_items_in(
                    whole.skip(it.index() + 1),
                    variable_map.scope(),
                    self.var_count as nat,
                ) {
                    Ok((rest, n)) => {
                        assert(done + (seq![rv] + rest) =~= done.push(rv) + rest);
                    },
                    Err(_) => {},
                }
            }
        }
        assert(whole.skip(whole.len() as int) =~= Seq::<SpecBlockItem>::empty());
        assert(items_view(block_items@) + Seq::<SpecBlockItem>::empty() =~= items_view(block_items@));
        Ok(Program { function_def: FunctionDef { name, body: block_items } })
    }
}

/// Resolves the variables of a program. Each declaration of a variable
/// `x` is renamed to `x.n`, where `n` counts the declarations renamed so
/// far, starting at `*tmp_var_count`; each use of `x` becomes the name of
/// the declaration of `x` in scope. On success the counter is advanced
/// past the declarations; on failure it is left as it was.
pub fn resolve(program: Program, tmp_var_count: &mut usize) -> (res: Result<Program, ResolveError>)
    requires
        *old(tmp_var_count) + declaration_count(program@.function_def.body) <= usize::MAX,
    ensures
        match res {
            Ok(p) => spec_resolve(program@, *old(tmp_var_count) as nat) == Ok::<
                (SpecProgram, nat),
                ResolveError,
            >((p@, *final(tmp_var_count) as nat)),
            Err(e) => {
                &&& spec_resolve(program@, *old(tmp_var_count) as nat) == Err::<
                    (SpecProgram, nat),
                    ResolveError,
                >(e)
                &&& *final(tmp_var_count) == *old(tmp_var_count)
            },
        },
{
    let var_count = *tmp_var_count;
    let mut resolver = Resolver { var_count };
    let program = resolver.resolve_program(program)?;
    *tmp_var_count = resolver.var_count;
    Ok(program)
}


// ---------------------------------------------------------------------
// Properties of resolution
// ---------------------------------------------------------------------

proof fn lemma_resolve_items(items: Seq<SpecBlockItem>, scope: Scope, n: nat)
    ensures
        resolve_items_in(items, scope, n) matches Ok((out, m)) ==> {
            &&& m == n + declaration_count(items)
            &&& out.len() == items.len()
            &&& forall|k: int|
                #![trigger out[k]]
                0 <= k < items.len() ==> ((items[k] is D) <==> (out[k] is D)) && (items[k] matches SpecBlockItem::D(
                    d,
                ) ==> out[k]->D_0.name == unique_name(d.name, n + declaration_count(items.take(k))))
        },
    decreases items.len(),
{
    if items.len() > 0 {
        let first = match items[0] {
            SpecBlockItem::S(s) => match resolve_statement_in(s, scope) {
                Ok(s2) => Ok((SpecBlockItem::S(s2), scope, n)),
                Err(err) => Err(err),
            },
            SpecBlockItem::D(d) => match resolve_declaration_in(d, scope, n) {
                Ok((d2, scope2, n2)) => Ok((SpecBlockItem::D(d2), scope2, n2)),
                Err(err) => Err(err),
            },
        };
        if let Ok((item, scope2, n2)) = first {
            let rest = items.drop_first();
            lemma_resolve_items(rest, scope2, n2);
            if let Ok((out, m)) = resolve_items_in(items, scope, n) {
                let (out_rest, m2) = resolve_items_in(rest, scope2, n2).unwrap();
                assert(out == seq![item] + out_rest);
                assert forall|k: int|
                    #![trigger out[k]]
                    0 <= k < items.len() implies ((items[k] is D) <==> (out[k] is D)) && (
                    items[k] matches SpecBlockItem::D(d) ==> out[k]->D_0.name == unique_name(
                        d.name,
                        n + declaration_count(items.take(k)),
                    )) by {
                    if k > 0 {
                        assert(out[k] == out_rest[k - 1]);
                        assert(items[k] == rest[k - 1]);
                        assert(items.take(k).drop_first() =~= rest.take(k - 1));
                        assert(items.take(k)[0] == items[0]);
                    } else {
                        assert(items.take(0) =~= Seq::<SpecBlockItem>::empty());
                    }
                }
            }
        }
    }
}

/// Resolution renames declarations in order with consecutive numbers:
/// when it succeeds, the counter has advanced by the number of
/// declarations, the body keeps its length and the places of its
/// declarations, and the declaration at place `k` of a variable `x` is
/// renamed `x.c`, where `c` is the starting counter plus the number of
/// declarations before place `k`.
pub proof fn lemma_resolve_numbering(p: SpecProgram, n: nat)
    ensures
        spec_resolve(p, n) matches Ok((q, m)) ==> {
            let body = p.function_def.body;
            let out = q.function_def.body;
            &&& m == n + declaration_count(body)
            &&& q.function_def.name == p.function_def.name
            &&& out.len() == body.len()
            &&& forall|k: int|
                #![trigger out[k]]
                0 <= k < body.len() ==> ((body[k] is D) <==> (out[k] is D)) && (body[k] matches SpecBlockItem::D(
                    d,
                ) ==> out[k]->D_0.name == unique_name(d.name, n + declaration_count(body.take(k))))
        },
{
    lemma_resolve_items(p.function_def.body, Seq::empty(), n);
}


/// Unique names determine the source name and the number: the last `.`
/// of `name.n` is the one in front of the digits of `n`.
pub proof fn lemma_unique_name_injective(a: Seq<char>, i: nat, b: Seq<char>, j: nat)
    requires
        unique_name(a, i) == unique_name(b, j),
    ensures
        a == b,
        i == j,
{
    let s = unique_name(a, i);
    lemma_decimal_digits(i);
    lemma_decimal_digits(j);
    assert(s == (a + seq!['.']) + decimal(i));
    assert(s == (b + seq!['.']) + decimal(j));
    assert(s.len() == a.len() + 1 + decimal(i).len());
    assert(s.len() == b.len() + 1 + decimal(j).len());
    assert(s[a.len() as int] == '.');
    assert(s[b.len() as int] == '.');
    if a.len() < b.len() {
        let k = b.len() - a.len() - 1;
        assert(0 <= k < decimal(i).len());
        assert(s[b.len() as int] == decimal(i)[k]);
        assert('0' <= decimal(i)[k] <= '9');
    } else if b.len() < a.len() {
        let k = a.len() - b.len() - 1;
        assert(0 <= k < decimal(j).len());
        assert(s[a.len() as int] == decimal(j)[k]);
        assert('0' <= decimal(j)[k] <= '9');
    }
    assert(a =~= s.subrange(0, a.len() as int));
    assert(b =~= s.subrange(0, b.len() as int));
    assert(decimal(i) =~= s.subrange((a.len() + 1) as int, s.len() as int));
    assert(decimal(j) =~= s.subrange((b.len() + 1) as int, s.len() as int));
    lemma_decimal_injective(i, j);
}

proof fn lemma_declaration_count_push(s: Seq<SpecBlockItem>, x: SpecBlockItem)
    ensures
        declaration_count(s.push(x)) == declaration_count(s) + if x is D {
            1nat
        } else {
            0nat
        },
    decreases s.len(),
{
    if s.len() > 0 {
        assert(s.push(x).drop_first() =~= s.drop_first().push(x));
        assert(s.push(x)[0] == s[0]);
        lemma_declaration_count_push(s.drop_first(), x);
    } else {
        assert(s.push(x).drop_first() =~= Seq::<SpecBlockItem>::empty());
        assert(s.push(x)[0] == x);
        assert(declaration_count(Seq::<SpecBlockItem>::empty()) == 0);
    }
}

proof fn lemma_declaration_count_grows(s: Seq<SpecBlockItem>, j: int, k: int)
    requires
        0 <= j < k <= s.len(),
        s[j] is D,
    ensures
        declaration_count(s.take(j)) < declaration_count(s.take(k)),
    decreases k - j,
{
    assert(s.take(j + 1) =~= s.take(j).push(s[j]));
    lemma_declaration_count_push(s.take(j), s[j]);
    if k > j + 1 {
        lemma_declaration_count_monotone(s, j + 1, k);
    }
}

proof fn lemma_declaration_count_monotone(s: Seq<SpecBlockItem>, j: int, k: int)
    requires
        0 <= j <= k <= s.len(),
    ensures
        declaration_count(s.take(j)) <= declaration_count(s.take(k)),
    decreases k - j,
{
    if j < k {
        assert(s.take(k) =~= s.take(k - 1).push(s[k - 1]));
        lemma_declaration_count_push(s.take(k - 1), s[k - 1]);
        lemma_declaration_count_monotone(s, j, k - 1);
    }
}

/// Resolution gives every declaration its own name: no two declarations
/// of the resolved body share a name.
pub proof fn lemma_resolved_names_distinct(p: SpecProgram, n: nat)
    ensures
        spec_resolve(p, n) matches Ok((q, _)) ==> forall|j: int, k: int|
            0 <= j < k < q.function_def.body.len() && (#[trigger] q.function_def.body[j] is D) && (
            #[trigger] q.function_def.body[k] is D) ==> q.function_def.body[j]->D_0.name
                != q.function_def.body[k]->D_0.name,
{
    lemma_resolve_numbering(p, n);
    if let Ok((q, m)) = spec_resolve(p, n) {
        let body = p.function_def.body;
        let out = q.function_def.body;
        assert forall|j: int, k: int|
            0 <= j < k < out.len() && (#[trigger] out[j] is D) && (#[trigger] out[k] is D) implies out[j]->D_0.name
            != out[k]->D_0.name by {
            let dj = body[j]->D_0;
            let dk = body[k]->D_0;
            lemma_declaration_count_grows(body, j, k);
            if out[j]->D_0.name == out[k]->D_0.name {
                lemma_unique_name_injective(
                    dj.name,
                    n + declaration_count(body.take(j)),
                    dk.name,
                    n + declaration_count(body.take(k)),
                );
            }
        }
    }
}

/// `r` is `e` with each variable replaced by its unique name in `scope`:
/// the same kinds of nodes, the same operators and the same constants in
/// the same places.
pub open spec fn renamed_in(e: SpecExpression, r: SpecExpression, scope: Scope) -> bool
    decreases e,
{
    match e {
        SpecExpression::Constant(c) => r == SpecExpression::Constant(c),
        SpecExpression::Var(x) => r matches SpecExpression::Var(u) && scope_get(scope, x) == Some(u),
        SpecExpression::Unary(op, a) => r matches SpecExpression::Unary(op2, b) && op2 == op
            && renamed_in(*a, *b, scope),
        SpecExpression::Binary(op, a1, a2) => r matches SpecExpression::Binary(op2, b1, b2) && op2
            == op && renamed_in(*a1, *b1, scope) && renamed_in(*a2, *b2, scope),
        SpecExpression::Assignment(a1, a2) => r matches SpecExpression::Assignment(b1, b2)
            && renamed_in(*a1, *b1, scope) && renamed_in(*a2, *b2, scope),
        SpecExpression::PrefixIncr(a) => r matches SpecExpression::PrefixIncr(b) && renamed_in(
            *a,
            *b,
            scope,
        ),
        SpecExpression::PrefixDecr(a) => r matches SpecExpression::PrefixDecr(b) && renamed_in(
            *a,
            *b,
            scope,
        ),
        SpecExpression::PostfixIncr(a) => r matches SpecExpression::PostfixIncr(b) && renamed_in(
            *a,
            *b,
            scope,
        ),
        SpecExpression::PostfixDecr(a) => r matches SpecExpression::PostfixDecr(b) && renamed_in(
            *a,
            *b,
            scope,
        ),
    }
}

/// Resolution renames and does nothing else: a resolved expression has the
/// shape of the source expression, with every variable replaced by the
/// unique name that its source name has in scope.
pub proof fn lemma_resolution_only_renames(e: SpecExpression, scope: Scope)
    ensures
        resolve_expression_in(e, scope) matches Ok(r) ==> renamed_in(e, r, scope),
    decreases e,
{
    match e {
        SpecExpression::Unary(_, a) | SpecExpression::PrefixIncr(a) | SpecExpression::PrefixDecr(a)
        | SpecExpression::PostfixIncr(a) | SpecExpression::PostfixDecr(a) => {
            lemma_resolution_only_renames(*a, scope);
        },
        SpecExpression::Binary(_, a, b) | SpecExpression::Assignment(a, b) => {
            lemma_resolution_only_renames(*a, scope);
            lemma_resolution_only_renames(*b, scope);
        },
        _ => {},
    }
}

/// A resolved statement is the source statement of the same kind, its
/// expression renamed as [`lemma_resolution_only_renames`] says.
pub proof fn lemma_statement_resolution_only_renames(st: SpecStatement, scope: Scope)
    ensures
        resolve_statement_in(st, scope) matches Ok(r) ==> match st {
            SpecStatement::Return(e) => r matches SpecStatement::Return(e2) && renamed_in(e, e2, scope),
            SpecStatement::Expression(e) => r matches SpecStatement::Expression(e2) && renamed_in(
                e,
                e2,
                scope,
            ),
            SpecStatement::Null => r == SpecStatement::Null,
        },
{
    match st {
        SpecStatement::Return(e) | SpecStatement::Expression(e) => {
            lemma_resolution_only_renames(e, scope);
        },
        _ => {},
    }
}

/// A resolved declaration declares `name.n`, with `n` the counter, adds
/// it to the scope, and keeps its initializer, renamed in the extended
/// scope.
pub proof fn lemma_declaration_resolution_only_renames(d: SpecDeclaration, scope: Scope, n: nat)
    ensures
        resolve_declaration_in(d, scope, n) matches Ok((d2, scope2, m)) ==> {
            &&& d2.name == unique_name(d.name, n)
            &&& scope2 == scope.push((d.name, d2.name))
            &&& m == n + 1
            &&& match d.init {
                Some(e) => d2.init matches Some(e2) && renamed_in(e, e2, scope2),
                None => d2.init is None,
            }
        },
{
    if let Some(e) = d.init {
        lemma_resolution_only_renames(e, scope.push((d.name, unique_name(d.name, n))));
    }
}

} // verus!
