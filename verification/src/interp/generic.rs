//! Type parameters: what they are bound to, and what an annotation is once they are.

use crate::interp::state::{bindings_v, Binding, BindingV};
use crate::syntax::ast::{
    expr_kind_v, expr_v, group_models, type_exprs_v, type_params_v, Expr, ExprKind, ExprKindV,
    ExprV, ParamKind, ParamKindV, TypeExpr, TypeExprV, TypeName, TypeNameV, TypeParam, TypeParamV,
};
use crate::syntax::parser::opt_type;
use crate::syntax::token::Span;
use crate::text::same;
use vstd::prelude::*;

verus! {

broadcast use group_models;

/// What a name is bound to, the first binding of it counting.
pub open spec fn bound(bs: Seq<BindingV>, name: Seq<char>, from: int) -> Option<TypeExprV>
    decreases bs.len() - from,
{
    if from < 0 || from >= bs.len() {
        None
    } else if bs[from].name == name {
        Some(bs[from].ty)
    } else {
        bound(bs, name, from + 1)
    }
}

/// A bound type where a parameter stood: the place of the use, and the `?` and the
/// `const` of either.
pub open spec fn in_place(b: TypeExprV, ty: TypeExprV) -> TypeExprV {
    TypeExprV {
        span: ty.span,
        nullable: b.nullable || ty.nullable,
        frozen: b.frozen || ty.frozen,
        ..b
    }
}

/// An annotation with every type parameter replaced by what it is bound to.
pub open spec fn substituted(ty: TypeExprV, bs: Seq<BindingV>) -> TypeExprV
    decreases ty, 1int,
{
    if bs.len() == 0 {
        ty
    } else {
        let out = TypeExprV { args: all_expanded(ty.args, bs), ..ty };
        match ty.name {
            TypeNameV::Named(name) => match bound(bs, name, 0) {
                Some(b) => in_place(b, ty),
                None => out,
            },
            TypeNameV::Pack(name) => match bound(bs, name, 0) {
                Some(b) => in_place(b, ty),
                None => out,
            },
            _ => out,
        }
    }
}

/// Arguments with their parameters replaced; a bound pack becomes as many as it took.
pub open spec fn all_expanded(args: Seq<TypeExprV>, bs: Seq<BindingV>) -> Seq<TypeExprV>
    decreases args, 0int,
{
    if args.len() == 0 {
        Seq::empty()
    } else {
        all_expanded(args.drop_last(), bs) + expanded(args.last(), bs)
    }
}

/// One argument, as however many types it turns into.
pub open spec fn expanded(arg: TypeExprV, bs: Seq<BindingV>) -> Seq<TypeExprV>
    decreases arg, 2int,
{
    match arg.name {
        TypeNameV::Pack(name) => match bound(bs, name, 0) {
            Some(b) => b.args,
            None => seq![arg],
        },
        _ => seq![substituted(arg, bs)],
    }
}

fn find_bound<'a>(bs: &'a Vec<Binding>, name: &str) -> (r: Option<&'a TypeExpr>)
    ensures
        match r {
            Some(ty) => bound(bindings_v(bs@), name@, 0) == Some(ty@),
            None => bound(bindings_v(bs@), name@, 0) is None,
        },
{
    let mut i: usize = 0;
    while i < bs.len()
        invariant
            i <= bs@.len(),
            bound(bindings_v(bs@), name@, 0) == bound(bindings_v(bs@), name@, i as int),
        decreases bs@.len() - i,
    {
        if same(bs[i].name.as_str(), name) {
            return Some(&bs[i].ty);
        }
        i += 1;
    }
    None
}

fn placed(b: &TypeExpr, ty: &TypeExpr) -> (r: TypeExpr)
    ensures
        r@ == in_place(b@, ty@),
{
    let copy = b.copied();
    let r = TypeExpr {
        span: ty.span,
        nullable: b.nullable || ty.nullable,
        frozen: b.frozen || ty.frozen,
        ..copy
    };
    assert(r@.args == type_exprs_v(r.args@));
    assert(copy@.args == type_exprs_v(copy.args@));
    r
}

/// [`substituted`], computed.
pub fn substitute(ty: &TypeExpr, bs: &Vec<Binding>) -> (r: TypeExpr)
    ensures
        r@ == substituted(ty@, bindings_v(bs@)),
    decreases ty, 1int,
{
    if bs.len() == 0 {
        return ty.copied();
    }
    assert(ty@.args == type_exprs_v(ty.args@));
    let bound = match &ty.name {
        TypeName::Named(name) => find_bound(bs, name.as_str()),
        TypeName::Pack(name) => find_bound(bs, name.as_str()),
        _ => None,
    };
    if let Some(b) = bound {
        return placed(b, ty);
    }
    let mut args: Vec<TypeExpr> = Vec::new();
    let mut i: usize = 0;
    let ghost all = type_exprs_v(ty.args@);
    let ghost bsv = bindings_v(bs@);
    assert(all.take(0) =~= Seq::empty());
    while i < ty.args.len()
        invariant
            i <= ty.args@.len(),
            all == type_exprs_v(ty.args@),
            bsv == bindings_v(bs@),
            type_exprs_v(args@) == all_expanded(all.take(i as int), bsv),
        decreases ty.args@.len() - i,
    {
        let ghost before = type_exprs_v(args@);
        expand_into(&ty.args[i], bs, &mut args);
        proof {
            let longer = all.take(i + 1);
            assert(longer.drop_last() =~= all.take(i as int));
            assert(longer.last() == all[i as int]);
        }
        i += 1;
    }
    assert(all.take(i as int) =~= all);
    let r = TypeExpr {
        name: ty.name.copied(),
        args,
        applied: ty.applied,
        nullable: ty.nullable,
        frozen: ty.frozen,
        span: ty.span,
    };
    assert(r@.args == type_exprs_v(r.args@));
    r
}

/// Adds what an argument turns into.
fn expand_into(arg: &TypeExpr, bs: &Vec<Binding>, out: &mut Vec<TypeExpr>)
    ensures
        type_exprs_v(final(out)@) == type_exprs_v(old(out)@) + expanded(arg@, bindings_v(bs@)),
    decreases arg, 2int,
{
    let ghost before = type_exprs_v(out@);
    match &arg.name {
        TypeName::Pack(name) => match find_bound(bs, name.as_str()) {
            Some(b) => {
                let mut i: usize = 0;
                assert(b@.args == type_exprs_v(b.args@));
                let ghost all = b@.args;
                assert(type_exprs_v(out@) =~= before + all.take(0));
                while i < b.args.len()
                    invariant
                        i <= b.args@.len(),
                        all == type_exprs_v(b.args@),
                        type_exprs_v(out@) == before + all.take(i as int),
                    decreases b.args@.len() - i,
                {
                    let one = b.args[i].copied();
                    out.push(one);
                    assert(type_exprs_v(out@) =~= before + all.take(i + 1));
                    i += 1;
                }
                assert(all.take(i as int) =~= all);
            },
            None => {
                let one = arg.copied();
                out.push(one);
                assert(type_exprs_v(out@) =~= before + seq![arg@]);
            },
        },
        _ => {
            let one = substitute(arg, bs);
            out.push(one);
            assert(type_exprs_v(out@) =~= before + seq![substituted(arg@, bindings_v(bs@))]);
        },
    }
}

/// Where a pack stands in a parameter list.
pub open spec fn pack_at(params: Seq<TypeParamV>, from: int) -> Option<int>
    decreases params.len() - from,
{
    if from < 0 || from >= params.len() {
        None
    } else if params[from].kind == ParamKindV::Pack {
        Some(from)
    } else {
        pack_at(params, from + 1)
    }
}

/// [`pack_at`], computed.
pub fn find_pack(params: &Vec<TypeParam>) -> (r: Option<usize>)
    ensures
        match r {
            Some(i) => pack_at(type_params_v(params@), 0) == Some(i as int) && i < params@.len(),
            None => pack_at(type_params_v(params@), 0) is None,
        },
{
    let mut i: usize = 0;
    while i < params.len()
        invariant
            i <= params@.len(),
            pack_at(type_params_v(params@), 0) == pack_at(type_params_v(params@), i as int),
        decreases params@.len() - i,
    {
        if let ParamKind::Pack = &params[i].kind {
            return Some(i);
        }
        i += 1;
    }
    None
}

/// What a pack is bound to: the arguments it took, as a tuple.
pub open spec fn packed(args: Seq<TypeExprV>) -> TypeExprV {
    TypeExprV {
        name: TypeNameV::Named("tuple"@),
        args,
        applied: true,
        nullable: false,
        frozen: false,
        span: Span { start: 0, end: 0 },
    }
}

/// The description an annotation lends to the initializer beside it: only to a bare
/// construction of the very class it names, and only where it says what the class's
/// arguments are.
pub open spec fn inferred_header(ty: Option<TypeExprV>, value: ExprV) -> Option<TypeExprV> {
    match ty {
        Some(ty) => if !ty.applied {
            None
        } else {
            match (ty.name, value.kind) {
                (TypeNameV::Named(named), ExprKindV::Call { callee, args }) => if callee.kind
                    == ExprKindV::Var(named) {
                    Some(TypeExprV { nullable: false, frozen: false, ..ty })
                } else {
                    None
                },
                _ => None,
            }
        },
        None => None,
    }
}

/// [`inferred_header`], computed.
pub fn infer_header(ty: Option<&TypeExpr>, value: &Expr) -> (r: Option<TypeExpr>)
    ensures
        opt_type(r) == inferred_header(
            match ty {
                Some(ty) => Some(ty@),
                None => None,
            },
            value@,
        ),
{
    let ty = match ty {
        Some(ty) => ty,
        None => {
            return None;
        },
    };
    if !ty.applied {
        return None;
    }
    if let TypeName::Named(named) = &ty.name {
        if let ExprKind::Call { callee, args: _ } = &value.kind {
            assert(expr_v(**callee).kind == expr_kind_v(callee.kind));
            if let ExprKind::Var(name) = &callee.kind {
                if *name == *named {
                    let copy = ty.copied();
                    let r = TypeExpr { nullable: false, frozen: false, ..copy };
                    assert(r@.args == type_exprs_v(r.args@));
                    assert(copy@.args == type_exprs_v(copy.args@));
                    return Some(r);
                }
            }
        }
    }
    None
}

/// Substituting nothing changes nothing.
pub proof fn law_no_bindings_change_nothing(ty: TypeExprV)
    ensures
        substituted(ty, Seq::empty()) == ty,
{
}

/// A bare parameter becomes what it is bound to, at the place of its use, and its
/// `?` is the use's or the argument's.
pub proof fn law_a_parameter_becomes_its_argument(ty: TypeExprV, name: Seq<char>, arg: TypeExprV)
    requires
        ty.name == TypeNameV::Named(name),
    ensures
        substituted(ty, seq![BindingV { name, ty: arg }]) == in_place(arg, ty),
        substituted(ty, seq![BindingV { name, ty: arg }]).span == ty.span,
{
}

/// A type that mentions no parameter is left alone.
pub proof fn law_an_unclaimed_name_is_left_alone(ty: TypeExprV, bs: Seq<BindingV>)
    requires
        ty.args.len() == 0,
        ty.name matches TypeNameV::Named(name) && bound(bs, name, 0) is None,
    ensures
        substituted(ty, bs) == ty,
{
    assert(all_expanded(ty.args, bs) =~= ty.args);
}

/// Whether a type mentions none of the names that are bound.
pub open spec fn free_of(ty: TypeExprV, bs: Seq<BindingV>) -> bool
    decreases ty,
{
    &&& match ty.name {
        TypeNameV::Named(name) => bound(bs, name, 0) is None,
        TypeNameV::Pack(name) => bound(bs, name, 0) is None,
        _ => true,
    }
    &&& all_free_of(ty.args, bs)
}

pub open spec fn all_free_of(tys: Seq<TypeExprV>, bs: Seq<BindingV>) -> bool
    decreases tys,
{
    forall|i: int| 0 <= i < tys.len() ==> free_of(#[trigger] tys[i], bs)
}

/// Whether every pack that a type mentions stands alone, as a pack is written.
pub open spec fn packs_alone(ty: TypeExprV) -> bool
    decreases ty,
{
    &&& ty.name is Pack ==> ty.args.len() == 0
    &&& all_packs_alone(ty.args)
}

pub open spec fn all_packs_alone(tys: Seq<TypeExprV>) -> bool
    decreases tys,
{
    forall|i: int| 0 <= i < tys.len() ==> packs_alone(#[trigger] tys[i])
}

/// Whether nothing that is bound mentions a name that is.
pub open spec fn closed(bs: Seq<BindingV>) -> bool {
    forall|i: int| 0 <= i < bs.len() ==> free_of((#[trigger] bs[i]).ty, bs)
}

proof fn lemma_bound_free(bs: Seq<BindingV>, name: Seq<char>, from: int)
    requires
        closed(bs),
    ensures
        bound(bs, name, from) is Some ==> free_of(bound(bs, name, from)->0, bs),
    decreases bs.len() - from,
{
    if 0 <= from < bs.len() && bs[from].name != name {
        lemma_bound_free(bs, name, from + 1);
    }
}

/// Once substituted, a type mentions no name that is bound, where nothing bound does.
pub proof fn law_substitution_leaves_no_bound_name(ty: TypeExprV, bs: Seq<BindingV>)
    requires
        closed(bs),
        packs_alone(ty),
    ensures
        free_of(substituted(ty, bs), bs),
    decreases ty, 1int,
{
    if bs.len() == 0 {
        lemma_free_of_nothing(ty, bs);
    } else {
        match ty.name {
            TypeNameV::Named(name) => lemma_bound_free(bs, name, 0),
            TypeNameV::Pack(name) => lemma_bound_free(bs, name, 0),
            _ => {},
        }
        lemma_all_expanded_free(ty.args, bs);
    }
}

proof fn lemma_free_of_nothing(ty: TypeExprV, bs: Seq<BindingV>)
    requires
        bs.len() == 0,
    ensures
        free_of(ty, bs),
    decreases ty,
{
    assert forall|i: int| 0 <= i < ty.args.len() implies free_of(#[trigger] ty.args[i], bs) by {
        lemma_free_of_nothing(ty.args[i], bs);
    }
}

proof fn lemma_all_expanded_free(args: Seq<TypeExprV>, bs: Seq<BindingV>)
    requires
        closed(bs),
        all_packs_alone(args),
    ensures
        all_free_of(all_expanded(args, bs), bs),
    decreases args, 0int,
{
    if args.len() > 0 {
        let front_args = args.drop_last();
        assert forall|i: int| 0 <= i < front_args.len() implies packs_alone(#[trigger] front_args[i]) by {
            assert(front_args[i] == args[i]);
        }
        lemma_all_expanded_free(front_args, bs);
        let arg = args.last();
        assert(packs_alone(args[args.len() - 1]));
        match arg.name {
            TypeNameV::Pack(name) => lemma_bound_free(bs, name, 0),
            _ => law_substitution_leaves_no_bound_name(arg, bs),
        }
        let front = all_expanded(args.drop_last(), bs);
        let back = expanded(arg, bs);
        let all = front + back;
        assert(all_expanded(args, bs) == all);
        assert forall|i: int| 0 <= i < all.len() implies free_of(#[trigger] all[i], bs) by {
            if i < front.len() {
                assert(all[i] == front[i]);
            } else {
                assert(all[i] == back[i - front.len()]);
            }
        }
    }
}

/// A type that mentions no name that is bound is left as it is.
pub proof fn law_a_type_free_of_bound_names_is_left_alone(ty: TypeExprV, bs: Seq<BindingV>)
    requires
        free_of(ty, bs),
    ensures
        substituted(ty, bs) == ty,
    decreases ty, 1int,
{
    lemma_all_left_alone(ty.args, bs);
}

proof fn lemma_all_left_alone(args: Seq<TypeExprV>, bs: Seq<BindingV>)
    requires
        all_free_of(args, bs),
    ensures
        all_expanded(args, bs) == args,
    decreases args, 0int,
{
    if args.len() > 0 {
        let front = args.drop_last();
        assert forall|i: int| 0 <= i < front.len() implies free_of(#[trigger] front[i], bs) by {
            assert(front[i] == args[i]);
        }
        lemma_all_left_alone(front, bs);
        assert(free_of(args[args.len() - 1], bs));
        law_a_type_free_of_bound_names_is_left_alone(args.last(), bs);
        assert(expanded(args.last(), bs) =~= seq![args.last()]);
        assert(front + seq![args.last()] =~= args);
    } else {
        assert(all_expanded(args, bs) =~= args);
    }
}

/// Substituting a second time changes nothing, where nothing bound mentions a bound name.
pub proof fn law_substitution_is_done_once(ty: TypeExprV, bs: Seq<BindingV>)
    requires
        closed(bs),
        packs_alone(ty),
    ensures
        substituted(substituted(ty, bs), bs) == substituted(ty, bs),
{
    law_substitution_leaves_no_bound_name(ty, bs);
    law_a_type_free_of_bound_names_is_left_alone(substituted(ty, bs), bs);
}

} // verus!
