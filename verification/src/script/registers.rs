//! Which registers the variables of a script get.

use vstd::prelude::*;
use crate::script::compiler::Scope;
use crate::script::parser::{AstView, ExprView, StmtView};

verus! {

/// The scope in which all of these names have been asked for, one behind the other.
pub open spec fn scope_of(names: Seq<Seq<char>>) -> Scope
    decreases names.len(),
{
    if names.len() == 0 {
        crate::script::compiler::first_scope()
    } else {
        crate::script::compiler::with_name(scope_of(names.drop_last()), names.last())
    }
}

/// The names in the order in which they get their registers: those that every script has, and
/// then each other name where it is asked for the first time.
pub open spec fn known(names: Seq<Seq<char>>) -> Seq<Seq<char>>
    decreases names.len(),
{
    if names.len() == 0 {
        seq!["spl0"@, "spl1"@, "srate"@]
    } else {
        let before = known(names.drop_last());
        if before.contains(names.last()) {
            before
        } else {
            before.push(names.last())
        }
    }
}

/// Names bound to their places in a list.
pub open spec fn places(list: Seq<Seq<char>>) -> Seq<(Seq<char>, int)> {
    Seq::new(list.len(), |i: int| (list[i], i))
}

proof fn lemma_lookup_place(list: Seq<Seq<char>>, name: Seq<char>)
    requires
        list.no_duplicates(),
    ensures
        !list.contains(name) ==> crate::script::compiler::lookup(places(list), name) is None,
        forall|i: int|
            0 <= i < list.len() && #[trigger] list[i] == name ==> crate::script::compiler::lookup(
                places(list),
                name,
            ) == Some(i),
    decreases list.len(),
{
    if list.len() > 0 {
        let short = list.drop_last();
        assert(places(list).drop_last() =~= places(short));
        lemma_lookup_place(short, name);
        assert(places(list).last() == (list.last(), list.len() - 1));
        assert(list.last() == list[list.len() - 1]);
        if short.contains(name) {
            let i = choose|i: int| 0 <= i < short.len() && short[i] == name;
            assert(list[i] == name);
        }
        assert forall|i: int| 0 <= i < list.len() && #[trigger] list[i] == name implies
            crate::script::compiler::lookup(places(list), name) == Some(i) by {
            if i < list.len() - 1 {
                assert(short[i] == name);
                assert(list[i] != list[list.len() - 1]);
            }
        }
    }
}

proof fn lemma_scope(names: Seq<Seq<char>>)
    ensures
        known(names).no_duplicates(),
        known(names).len() >= 3,
        known(names)[0] == "spl0"@,
        known(names)[1] == "spl1"@,
        known(names)[2] == "srate"@,
        forall|i: int| 0 <= i < names.len() ==> known(names).contains(#[trigger] names[i]),
        scope_of(names) == (Scope { bound: places(known(names)), next: known(names).len() as int }),
    decreases names.len(),
{
    if names.len() == 0 {
        reveal_strlit("spl0");
        reveal_strlit("spl1");
        reveal_strlit("srate");
        assert("spl0"@[3] != "spl1"@[3]);
        assert("spl0"@.len() != "srate"@.len());
        assert("spl1"@.len() != "srate"@.len());
        assert(places(known(names)) =~= scope_of(names).bound);
    } else {
        let before = known(names.drop_last());
        let name = names.last();
        lemma_scope(names.drop_last());
        lemma_lookup_place(before, name);
        if before.contains(name) {
            let at = choose|i: int| 0 <= i < before.len() && before[i] == name;
            assert(before[at] == name);
        } else {
            assert(places(known(names)) =~= places(before).push((name, before.len() as int)));
            let now = known(names);
            assert forall|i: int, j: int|
                0 <= i < now.len() && 0 <= j < now.len() && i != j implies now[i] != now[j] by {
                assert(i < before.len() ==> before.contains(now[i]));
                assert(j < before.len() ==> before.contains(now[j]));
            }
        }
        let now = known(names);
        assert forall|i: int| 0 <= i < names.len() implies now.contains(#[trigger] names[i]) by {
            if i < names.len() - 1 {
                assert(names.drop_last()[i] == names[i]);
                let k = choose|k: int| 0 <= k < before.len() && before[k] == names[i];
                assert(now[k] == names[i]);
            } else if before.contains(name) {
                let k = choose|k: int| 0 <= k < before.len() && before[k] == name;
                assert(now[k] == names[i]);
            } else {
                assert(now[now.len() - 1] == names[i]);
            }
        }
    }
}

/// Registers 0, 1 and 2 are those of `spl0`, `spl1` and `srate`; every other name gets the next one
/// where it is asked for the first time. Distinct names have distinct registers, and to ask for a
/// name again takes none.
pub proof fn law_names_have_registers_of_their_own(names: Seq<Seq<char>>)
    ensures
        ({
            let scope = scope_of(names);
            let list = known(names);
            &&& list.no_duplicates()
            &&& list.take(3) == seq!["spl0"@, "spl1"@, "srate"@]
            &&& scope.next == list.len()
            &&& forall|k: int|
                0 <= k < list.len() ==> crate::script::compiler::register(
                    scope,
                    #[trigger] list[k],
                ) == k
            &&& forall|i: int|
                0 <= i < names.len() ==> list.contains(#[trigger] names[i])
                    && crate::script::compiler::with_name(scope, names[i]) == scope
            &&& forall|i: int, j: int|
                0 <= i < names.len() && 0 <= j < names.len() && names[i] != names[j]
                    ==> crate::script::compiler::register(scope, #[trigger] names[i])
                    != crate::script::compiler::register(scope, #[trigger] names[j])
        }),
{
    let scope = scope_of(names);
    let list = known(names);
    lemma_scope(names);
    assert(list.take(3) =~= seq!["spl0"@, "spl1"@, "srate"@]);
    assert forall|k: int| 0 <= k < list.len() implies crate::script::compiler::register(
        scope,
        #[trigger] list[k],
    ) == k by {
        lemma_lookup_place(list, list[k]);
    }
    assert forall|i: int| 0 <= i < names.len() implies list.contains(#[trigger] names[i])
        && crate::script::compiler::with_name(scope, names[i]) == scope by {
        lemma_lookup_place(list, names[i]);
        let k = choose|k: int| 0 <= k < list.len() && list[k] == names[i];
        assert(list[k] == names[i]);
    }
    assert forall|i: int, j: int|
        0 <= i < names.len() && 0 <= j < names.len() && names[i] != names[j] implies
        crate::script::compiler::register(scope, #[trigger] names[i])
        != crate::script::compiler::register(scope, #[trigger] names[j]) by {
        let k = choose|k: int| 0 <= k < list.len() && list[k] == names[i];
        let l = choose|l: int| 0 <= l < list.len() && list[l] == names[j];
        assert(crate::script::compiler::register(scope, list[k]) == k);
        assert(crate::script::compiler::register(scope, list[l]) == l);
    }
}

/// The names of a scope are distinct, and so are their registers, which are below the next one.
pub open spec fn apart(scope: Scope) -> bool {
    &&& forall|i: int| 0 <= i < scope.bound.len() ==> (#[trigger] scope.bound[i]).1 < scope.next
    &&& forall|i: int, j: int|
        0 <= i < scope.bound.len() && 0 <= j < scope.bound.len() && i != j ==> (
        #[trigger] scope.bound[i]).0 != (#[trigger] scope.bound[j]).0 && scope.bound[i].1
            != scope.bound[j].1
}

proof fn lemma_absent(bound: Seq<(Seq<char>, int)>, name: Seq<char>)
    requires
        crate::script::compiler::lookup(bound, name) is None,
    ensures
        forall|i: int| 0 <= i < bound.len() ==> (#[trigger] bound[i]).0 != name,
    decreases bound.len(),
{
    if bound.len() > 0 {
        lemma_absent(bound.drop_last(), name);
        assert forall|i: int| 0 <= i < bound.len() implies (#[trigger] bound[i]).0 != name by {
            if i < bound.len() - 1 {
                assert(bound.drop_last()[i] == bound[i]);
            }
        }
    }
}

/// The scope that a script starts in.
pub proof fn lemma_first_apart()
    ensures
        apart(crate::script::compiler::first_scope()),
{
    reveal_strlit("spl0");
    reveal_strlit("spl1");
    reveal_strlit("srate");
    assert("spl0"@[3] != "spl1"@[3]);
    assert("spl0"@.len() != "srate"@.len());
    assert("spl1"@.len() != "srate"@.len());
}

/// Names and loop counters never share a register, whichever is asked for next: no name gets the
/// register that a counter took, neither one from before nor one from behind.
pub proof fn law_registers_stay_apart(scope: Scope, name: Seq<char>)
    requires
        apart(scope),
    ensures
        apart(crate::script::compiler::with_name(scope, name)),
        apart(crate::script::compiler::with_counter(scope)),
        crate::script::compiler::register(
            crate::script::compiler::with_counter(scope),
            name,
        ) != scope.next,
{
    crate::script::compiler::lemma_lookup(scope.bound, name);
    if crate::script::compiler::lookup(scope.bound, name) is None {
        lemma_absent(scope.bound, name);
    }
}

/// Every name of the first scope has the same register in the second.
pub open spec fn kept(a: Scope, b: Scope) -> bool {
    &&& a.bound.len() <= b.bound.len()
    &&& forall|i: int| 0 <= i < a.bound.len() ==> #[trigger] b.bound[i] == a.bound[i]
}

/// An expression keeps the registers of the names in front of it.
pub proof fn lemma_expr_keeps(e: ExprView, scope: Scope, at: int)
    ensures
        kept(scope, crate::script::compiler::expr_code(e, scope, at).scope),
    decreases e,
{
    reveal(crate::script::compiler::binary_joined);
    reveal(crate::script::compiler::call_joined);
    reveal(crate::script::compiler::if_joined);
    reveal(crate::script::compiler::while_joined);
    reveal(crate::script::compiler::loop_joined);
    match e {
        ExprView::Num(_) | ExprView::Const(_) | ExprView::Var(_) => {},
        ExprView::Unary(_, a) => {
            lemma_expr_keeps(*a, scope, at);
        },
        ExprView::Binary(_, a, b) => {
            lemma_expr_keeps(*a, scope, at);
            let c = crate::script::compiler::expr_code(*a, scope, at);
            lemma_expr_keeps(*b, c.scope, at + c.ops.len());
        },
        ExprView::Call(_, args) => {
            lemma_exprs_keep(args, scope, at);
        },
        ExprView::If(a, b, o) => {
            lemma_expr_keeps(*a, scope, at);
            let c = crate::script::compiler::expr_code(*a, scope, at);
            lemma_expr_keeps(*b, c.scope, at + c.ops.len() + 1);
            let t = crate::script::compiler::expr_code(*b, c.scope, at + c.ops.len() + 1);
            lemma_expr_keeps(*o, t.scope, at + c.ops.len() + 1 + t.ops.len() + 1);
        },
        ExprView::While(a, body) => {
            lemma_expr_keeps(*a, scope, at);
            let c = crate::script::compiler::expr_code(*a, scope, at);
            lemma_stmts_keep(body, c.scope, at + c.ops.len() + 1);
        },
        ExprView::Loop(n, body) => {
            let counting = crate::script::compiler::with_counter(scope);
            lemma_expr_keeps(*n, counting, at);
            let c = crate::script::compiler::expr_code(*n, counting, at);
            lemma_stmts_keep(body, c.scope, at + c.ops.len() + 1 + 4);
        },
    }
}

/// Expressions keep the registers of the names in front of them.
pub proof fn lemma_exprs_keep(es: Seq<ExprView>, scope: Scope, at: int)
    ensures
        kept(scope, crate::script::compiler::exprs_code(es, scope, at).scope),
    decreases es,
{
    if es.len() > 0 {
        lemma_exprs_keep(es.drop_last(), scope, at);
        let a = crate::script::compiler::exprs_code(es.drop_last(), scope, at);
        lemma_expr_keeps(es.last(), a.scope, at + a.ops.len());
    }
}

/// A statement keeps the registers of the names in front of it.
pub proof fn lemma_stmt_keeps(s: StmtView, scope: Scope, at: int)
    ensures
        kept(scope, crate::script::compiler::stmt_code(s, scope, at).scope),
    decreases s,
{
    reveal(crate::script::compiler::assign_joined);
    match s {
        StmtView::Assign { name, op, value } => {
            let named = crate::script::compiler::with_name(scope, name);
            lemma_expr_keeps(value, named, at);
            lemma_expr_keeps(value, named, at + 1);
        },
        StmtView::Expr(e) => {
            lemma_expr_keeps(e, scope, at);
        },
    }
}

/// Statements keep the registers of the names in front of them.
pub proof fn lemma_stmts_keep(ss: Seq<StmtView>, scope: Scope, at: int)
    ensures
        kept(scope, crate::script::compiler::stmts_code(ss, scope, at).scope),
    decreases ss,
{
    if ss.len() > 0 {
        lemma_stmts_keep(ss.drop_last(), scope, at);
        let a = crate::script::compiler::stmts_code(ss.drop_last(), scope, at);
        lemma_stmt_keeps(ss.last(), a.scope, at + a.ops.len());
    }
}

/// A name is found where it is bound.
pub proof fn lemma_lookup_bound(scope: Scope, i: int)
    requires
        apart(scope),
        0 <= i < scope.bound.len(),
    ensures
        crate::script::compiler::lookup(scope.bound, scope.bound[i].0) == Some(scope.bound[i].1),
{
    let name = scope.bound[i].0;
    crate::script::compiler::lemma_lookup(scope.bound, name);
    if crate::script::compiler::lookup(scope.bound, name) is None {
        lemma_absent(scope.bound, name);
    }
}

/// In a compiled script a variable has one register: `@sample` finds each variable of `@init`, and
/// the names that every script has, where they were.
pub proof fn law_variables_keep_their_registers(ast: AstView, name: Seq<char>)
    ensures
        ({
            let first = crate::script::compiler::first_scope();
            let init = crate::script::compiler::stmts_code(ast.init, first, 0).scope;
            let last = crate::script::compiler::stmts_code(ast.sample, init, 0).scope;
            &&& crate::script::compiler::lookup(init.bound, name) matches Some(r)
                ==> crate::script::compiler::lookup(last.bound, name) == Some(r)
            &&& crate::script::compiler::lookup(last.bound, "spl0"@) == Some(0int)
            &&& crate::script::compiler::lookup(last.bound, "spl1"@) == Some(1int)
            &&& crate::script::compiler::lookup(last.bound, "srate"@) == Some(2int)
        }),
{
    let first = crate::script::compiler::first_scope();
    let init = crate::script::compiler::stmts_code(ast.init, first, 0).scope;
    let last = crate::script::compiler::stmts_code(ast.sample, init, 0).scope;
    lemma_stmts_keep(ast.init, first, 0);
    lemma_stmts_keep(ast.sample, init, 0);
    crate::script::compiler::law_compiled_variables_are_apart(ast);
    crate::script::compiler::lemma_lookup(init.bound, name);
    if let Some(r) = crate::script::compiler::lookup(init.bound, name) {
        let i = choose|i: int|
            0 <= i < init.bound.len() && (#[trigger] init.bound[i]).0 == name && init.bound[i].1
                == r;
        assert(last.bound[i] == init.bound[i]);
        lemma_lookup_bound(last, i);
    }
    assert forall|i: int| 0 <= i < 3 implies #[trigger] last.bound[i] == first.bound[i] by {
        assert(init.bound[i] == first.bound[i]);
    }
    lemma_lookup_bound(last, 0);
    lemma_lookup_bound(last, 1);
    lemma_lookup_bound(last, 2);
}

} // verus!
