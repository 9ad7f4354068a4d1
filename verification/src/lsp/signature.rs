//! The call around a place, and the signature of what it calls.

use crate::error::{catchable, error_kinds};
use crate::lsp::document::DocumentState;
use crate::lsp::members::{answers, answers_to};
use crate::lsp::names::error_name;
use crate::lsp::position::{char_of, char_of_position, opt_text, Position};
use crate::lsp::receiver::{
    capitalised, class_opened, class_opened_by, infer_receiver_class, is_capitalised,
    method_opened, method_opened_by, parent_opened, parent_opened_by, receiver_class, receiver_in,
    receiver_of, rows_counted,
};
use crate::lsp::rows::{
    char_from, ends, ends_with, find_char, is_text, name_start, part, rows, rows_of, start_of_name,
    starts, starts_with, string_part, text, trim, trim_end, trimmed, trimmed_end, vecs,
};
use crate::runtime::value::{
    all_builtins, builtin_types, methods_born, native_methods, Builtin, Native,
};
use crate::syntax::ast::{FnDecl, Param, Stmt, StmtKind};
use crate::text::{
    cat2, cat3, cat4, cat5, chars_of, digits, digits_of, join, joined, lemma_strs_push, lowercase,
    pieces, same, split, strs, to_lowercase,
};
use std::rc::Rc;
use vstd::prelude::*;

verus! {

// -- the call around a place -----------------------------------------------------------------------------

/// The bracket that the first `n` characters leave open, `depth` closed ones to be matched
/// first, and how many commas stand behind it.
pub open spec fn open_bracket(s: Seq<char>, n: int, depth: nat, commas: nat) -> Option<(int, nat)>
    decreases n,
{
    if n <= 0 || n > s.len() {
        None
    } else if s[n - 1] == ')' {
        open_bracket(s, n - 1, depth + 1, commas)
    } else if s[n - 1] == '(' {
        if depth == 0 {
            Some((n - 1, commas))
        } else {
            open_bracket(s, n - 1, (depth - 1) as nat, commas)
        }
    } else if s[n - 1] == ',' && depth == 0 {
        open_bracket(s, n - 1, depth, commas + 1)
    } else {
        open_bracket(s, n - 1, depth, commas)
    }
}

/// A call: the name it calls, the text before that name, and which argument is being written.
pub struct CallV {
    pub callee: Seq<char>,
    pub before: Seq<char>,
    pub active: nat,
}

/// The call that a text leaves open.
pub open spec fn open_call(s: Seq<char>) -> Option<CallV> {
    match open_bracket(s, s.len() as int, 0, 0) {
        Some((k, commas)) => {
            let t = trim_end(s.take(k));
            let start = name_start(t, t.len() as int);
            if start >= t.len() {
                None
            } else {
                Some(CallV { callee: t.skip(start), before: t.take(start), active: commas })
            }
        },
        None => None,
    }
}

/// A call that a text leaves open.
pub struct OpenCall {
    pub callee: Vec<char>,
    pub before: Vec<char>,
    pub active: usize,
}

impl View for OpenCall {
    type V = CallV;

    open spec fn view(&self) -> CallV {
        CallV { callee: self.callee@, before: self.before@, active: self.active as nat }
    }
}

pub(crate) fn open_call_in(s: &Vec<char>) -> (r: Option<OpenCall>)
    ensures
        match r {
            Some(call) => open_call(s@) == Some(call@),
            None => open_call(s@) is None,
        },
{
    let mut n: usize = s.len();
    let mut depth: usize = 0;
    let mut commas: usize = 0;
    let len: usize = s.len();
    while n > 0
        invariant
            n <= len,
            len == s@.len(),
            depth + n <= len,
            commas + n <= len,
            open_bracket(s@, len as int, 0, 0) == open_bracket(s@, n as int, depth as nat, commas as nat),
        decreases n,
    {
        let c = s[n - 1];
        if c == ')' {
            depth += 1;
        } else if c == '(' {
            if depth == 0 {
                let front = part(s, 0, n - 1);
                assert(front@ =~= s@.take(n - 1));
                let t = trimmed_end(&front);
                let start = start_of_name(&t, t.len());
                if start >= t.len() {
                    return None;
                }
                let callee = part(&t, start, t.len());
                assert(callee@ =~= t@.skip(start as int));
                let before = part(&t, 0, start);
                assert(before@ =~= t@.take(start as int));
                return Some(OpenCall { callee, before, active: commas });
            }
            depth -= 1;
        } else if c == ',' && depth == 0 {
            commas += 1;
        }
        n -= 1;
    }
    None
}

/// The text before a place.
pub open spec fn text_before(cs: Seq<char>, pos: Position) -> Seq<char> {
    cs.take(char_of(cs, pos))
}

/// The receiver that the text before a called name ends in.
pub open spec fn call_receiver(before: Seq<char>) -> Option<Seq<char>> {
    let t = trim_end(before);
    if ends(t, '.') && trim_end(t.drop_last()).len() > 0 {
        Some(receiver_of(trim_end(t.drop_last())))
    } else {
        None
    }
}

/// A call around a place: what it calls, on what, and which argument is being written.
#[derive(Debug)]
pub struct CallContext {
    pub callee: String,
    pub receiver: Option<String>,
    pub active: usize,
}

/// The model of a [`CallContext`].
pub struct CallContextV {
    pub callee: Seq<char>,
    pub receiver: Option<Seq<char>>,
    pub active: nat,
}

impl View for CallContext {
    type V = CallContextV;

    open spec fn view(&self) -> CallContextV {
        CallContextV { callee: self.callee@, receiver: opt_text(self.receiver), active: self.active as nat }
    }
}

/// The call around a place of a text.
pub open spec fn call_context(cs: Seq<char>, pos: Position) -> Option<CallContextV> {
    match open_call(text_before(cs, pos)) {
        Some(call) => Some(
            CallContextV { callee: call.callee, receiver: call_receiver(call.before), active: call.active },
        ),
        None => None,
    }
}

fn text_before_of(source: &str, pos: Position) -> (r: Vec<char>)
    ensures
        r@ == text_before(source@, pos),
{
    let cs = chars_of(source);
    let n = char_of_position(&cs, pos);
    let r = part(&cs, 0, n);
    assert(r@ =~= cs@.take(n as int));
    r
}

/// The call around a place of a text.
pub fn find_call_context(source: &str, pos: Position) -> (r: Option<CallContext>)
    ensures
        match r {
            Some(call) => call_context(source@, pos) == Some(call@),
            None => call_context(source@, pos) is None,
        },
{
    let before = text_before_of(source, pos);
    match open_call_in(&before) {
        None => None,
        Some(call) => {
            let t = trimmed_end(&call.before);
            let mut receiver: Option<String> = None;
            if ends_with(&t, '.') {
                let front = part(&t, 0, t.len() - 1);
                assert(front@ =~= t@.drop_last());
                let object = trimmed_end(&front);
                if object.len() > 0 {
                    receiver = Some(text(&receiver_in(object)));
                }
            }
            Some(CallContext { callee: text(&call.callee), receiver, active: call.active })
        },
    }
}

// -- signatures ----------------------------------------------------------------------------------------------

/// A signature as an editor shows it.
#[derive(Debug)]
pub struct SignatureInformation {
    pub label: String,
    pub documentation: Option<String>,
    pub parameters: Vec<String>,
}

/// The model of a [`SignatureInformation`].
pub struct SignatureV {
    pub label: Seq<char>,
    pub documentation: Option<Seq<char>>,
    pub parameters: Seq<Seq<char>>,
}

impl View for SignatureInformation {
    type V = SignatureV;

    open spec fn view(&self) -> SignatureV {
        SignatureV {
            label: self.label@,
            documentation: opt_text(self.documentation),
            parameters: strs(self.parameters@),
        }
    }
}

pub open spec fn opt_sig(s: Option<SignatureInformation>) -> Option<SignatureV> {
    match s {
        Some(s) => Some(s@),
        None => None,
    }
}

/// A signature: what it is called, then its parameters.
pub open spec fn signature(name: Seq<char>, params: Seq<Seq<char>>) -> SignatureV {
    SignatureV { label: name + "("@ + joined(params, ", "@) + ")"@, documentation: None, parameters: params }
}

pub(crate) fn signature_of(name: &str, params: Vec<String>) -> (r: SignatureInformation)
    ensures
        r@ == signature(name@, strs(params@)),
{
    let inside = join(&params, ", ");
    SignatureInformation { label: cat4(name, "(", inside.as_str(), ")"), documentation: None, parameters: params }
}

/// The names given to what a native takes.
pub open spec fn native_params(n: Option<nat>) -> Seq<Seq<char>> {
    match n {
        None => seq!["*args"@],
        Some(n) => if n == 1 {
            seq!["arg"@]
        } else {
            Seq::new(n, |i: int| "arg"@ + digits((i + 1) as nat))
        },
    }
}

fn native_params_of(n: Option<usize>) -> (r: Vec<String>)
    ensures
        strs(r@) == native_params(match n { Some(n) => Some(n as nat), None => None }),
{
    broadcast use lemma_strs_push;

    let mut out: Vec<String> = Vec::new();
    let ghost goal = native_params(match n { Some(n) => Some(n as nat), None => None });
    match n {
        None => {
            out.push("*args".to_owned());
            assert(strs(out@) =~= goal);
        },
        Some(n) => {
            if n == 1 {
                out.push("arg".to_owned());
                assert(strs(out@) =~= goal);
            } else {
                let mut i: usize = 0;
                assert(strs(out@) =~= goal.take(0));
                while i < n
                    invariant
                        i <= n,
                        n != 1,
                        goal == native_params(Some(n as nat)),
                        strs(out@) == goal.take(i as int),
                    decreases n - i,
                {
                    let number = digits_of((i + 1) as u64);
                    let ghost before = strs(out@);
                    out.push(cat2("arg", number.as_str()));
                    assert(goal[i as int] == "arg"@ + digits((i + 1) as nat));
                    assert(strs(out@) == before.push(goal[i as int]));
                    assert(strs(out@) =~= goal.take(i + 1));
                    i += 1;
                }
                assert(strs(out@) =~= goal);
            }
        },
    }
    out
}

/// The signature of a native method of a builtin type.
pub open spec fn native_signature(b: Builtin, native: Native) -> SignatureV {
    SignatureV {
        documentation: Some("Builtin method `"@ + b.spelled() + "."@ + native.spelled() + "()`"@),
        ..signature("fn "@ + native.spelled(), native_params(native.takes()))
    }
}

/// The signature of the method of a name among those of a builtin type, from `i` on.
pub open spec fn native_named(b: Builtin, name: Seq<char>, i: int) -> Option<SignatureV>
    decreases native_methods(b).len() - i,
{
    if i < 0 || i >= native_methods(b).len() {
        None
    } else if native_methods(b)[i].spelled() == name {
        Some(native_signature(b, native_methods(b)[i]))
    } else {
        native_named(b, name, i + 1)
    }
}

/// The signature of the method of a name among those of the builtin types from `i` on that
/// answer to a lower-case name.
pub open spec fn builtin_signature(class: Seq<char>, name: Seq<char>, i: int) -> Option<SignatureV>
    decreases all_builtins().len() - i,
{
    if i < 0 || i >= all_builtins().len() {
        None
    } else {
        let b = all_builtins()[i];
        if answers_to(b, class) && native_named(b, name, 0) is Some {
            native_named(b, name, 0)
        } else {
            builtin_signature(class, name, i + 1)
        }
    }
}

fn native_named_in(b: Builtin, name: &str) -> (r: Option<SignatureInformation>)
    ensures
        opt_sig(r) == native_named(b, name@, 0),
{
    let natives = methods_born(b);
    let mut i: usize = 0;
    while i < natives.len()
        invariant
            i <= natives@.len(),
            natives@ == native_methods(b),
            native_named(b, name@, 0) == native_named(b, name@, i as int),
        decreases natives@.len() - i,
    {
        let native = natives[i];
        if same(native.name(), name) {
            let label = cat2("fn ", native.name());
            let mut sig = signature_of(label.as_str(), native_params_of(native.arity()));
            sig.documentation = Some(cat5("Builtin method `", b.name(), ".", native.name(), "()`"));
            return Some(sig);
        }
        i += 1;
    }
    None
}

fn builtin_signature_of(class: &str, name: &str) -> (r: Option<SignatureInformation>)
    ensures
        opt_sig(r) == builtin_signature(class@, name@, 0),
{
    let all = builtin_types();
    let mut i: usize = 0;
    while i < all.len()
        invariant
            i <= all@.len(),
            all@ == all_builtins(),
            builtin_signature(class@, name@, 0) == builtin_signature(class@, name@, i as int),
        decreases all@.len() - i,
    {
        if answers(all[i], class) {
            let sig = native_named_in(all[i], name);
            if sig.is_some() {
                return sig;
            }
        }
        i += 1;
    }
    None
}

// -- signatures of a program ---------------------------------------------------------------------------------

/// The names of the first `n` parameters, the receiver left out where it is to be.
pub open spec fn param_names(ps: Seq<Param>, without_self: bool, n: int) -> Seq<Seq<char>>
    decreases n,
{
    if 0 < n <= ps.len() {
        let before = param_names(ps, without_self, n - 1);
        if without_self && (ps[n - 1].receiver || ps[n - 1].name@ == "self"@) {
            before
        } else {
            before.push(ps[n - 1].name@)
        }
    } else {
        Seq::empty()
    }
}

/// The first method of a name, from `i` on.
pub open spec fn method_named(ms: Seq<Rc<FnDecl>>, name: Seq<char>, i: int) -> Option<int>
    decreases ms.len() - i,
{
    if i < 0 || i >= ms.len() {
        None
    } else if ms[i].name@ == name {
        Some(i)
    } else {
        method_named(ms, name, i + 1)
    }
}

/// The signature of a method, shown under a name.
pub open spec fn method_signature(shown: Seq<char>, m: Rc<FnDecl>) -> SignatureV {
    signature(shown, param_names(m.params@, true, m.params@.len() as int))
}

/// What stands between the first opening bracket of a label and the second.
pub open spec fn label_inside(label: Seq<char>) -> Seq<char> {
    let parts = pieces(label, "("@, 0);
    if parts.len() > 1 {
        parts[1]
    } else {
        ")"@
    }
}

/// A signature under another name.
pub open spec fn shown_as(sig: SignatureV, name: Seq<char>) -> SignatureV {
    SignatureV { label: name + "("@ + label_inside(sig.label), ..sig }
}

/// Whether a call on a class, or on nothing, constructs a class.
pub open spec fn constructs(class: Seq<char>, callee: Seq<char>, target: Option<Seq<char>>) -> bool {
    match target {
        Some(target) => target == class && callee == class,
        None => class == callee,
    }
}

/// The signature of what a call calls, from statement `i` on, looking through as many as
/// `depth` classes above the one it starts at.
pub open spec fn ast_signature(ss: Seq<Stmt>, callee: Seq<char>, target: Option<Seq<char>>, i: int, depth: nat) -> Option<
    SignatureV,
>
    decreases depth, ss.len() - i,
{
    if i < 0 || i >= ss.len() {
        None
    } else {
        let own = match ss[i].kind {
            StmtKind::Fn(decl) => if target is None && decl.name@ == callee {
                Some(signature("fn "@ + decl.name@, param_names(decl.params@, false, decl.params@.len() as int)))
            } else {
                None
            },
            StmtKind::Class(decl) => if constructs(decl.name@, callee, target) {
                match method_named(decl.methods@, "init"@, 0) {
                    Some(k) => Some(method_signature(decl.name@, decl.methods@[k])),
                    None => match decl.parent {
                        Some(parent) => {
                            let above = if depth > 0 {
                                ast_signature(ss, parent@, Some(parent@), 0, (depth - 1) as nat)
                            } else {
                                None
                            };
                            match above {
                                Some(sig) => Some(shown_as(sig, decl.name@)),
                                None => Some(signature(decl.name@, Seq::empty())),
                            }
                        },
                        None => Some(signature(decl.name@, Seq::empty())),
                    },
                }
            } else if target is None || target == Some(decl.name@) {
                match method_named(decl.methods@, callee, 0) {
                    Some(k) => Some(method_signature("fn "@ + decl.methods@[k].name@, decl.methods@[k])),
                    None => match decl.parent {
                        Some(parent) => if depth > 0 {
                            ast_signature(ss, callee, Some(parent@), 0, (depth - 1) as nat)
                        } else {
                            None
                        },
                        None => None,
                    },
                }
            } else {
                None
            },
            _ => None,
        };
        match own {
            Some(sig) => Some(sig),
            None => ast_signature(ss, callee, target, i + 1, depth),
        }
    }
}

pub(crate) fn param_names_of(ps: &Vec<Param>, without_self: bool) -> (r: Vec<String>)
    ensures
        strs(r@) == param_names(ps@, without_self, ps@.len() as int),
{
    broadcast use lemma_strs_push;

    let mut out: Vec<String> = Vec::new();
    let mut i: usize = 0;
    assert(strs(out@) =~= Seq::empty());
    while i < ps.len()
        invariant
            i <= ps@.len(),
            strs(out@) == param_names(ps@, without_self, i as int),
        decreases ps@.len() - i,
    {
        let name = ps[i].name.as_str();
        if !(without_self && (ps[i].receiver || same(name, "self"))) {
            out.push(name.to_owned());
        }
        i += 1;
    }
    out
}

fn find_method(ms: &Vec<Rc<FnDecl>>, name: &str) -> (r: Option<usize>)
    ensures
        match r {
            Some(k) => method_named(ms@, name@, 0) == Some(k as int) && k < ms@.len(),
            None => method_named(ms@, name@, 0) is None,
        },
{
    let mut i: usize = 0;
    while i < ms.len()
        invariant
            i <= ms@.len(),
            method_named(ms@, name@, 0) == method_named(ms@, name@, i as int),
        decreases ms@.len() - i,
    {
        if same(ms[i].name.as_str(), name) {
            return Some(i);
        }
        i += 1;
    }
    None
}

fn label_inside_of(label: &str) -> (r: String)
    ensures
        r@ == label_inside(label@),
{
    proof {
        reveal_strlit("(");
    }
    let parts = split(label, "(");
    assert(strs(parts@).len() == parts@.len());
    if parts.len() > 1 {
        assert(strs(parts@)[1] == parts@[1]@);
        parts[1].as_str().to_owned()
    } else {
        ")".to_owned()
    }
}

fn show_as(sig: SignatureInformation, name: &str) -> (r: SignatureInformation)
    ensures
        r@ == shown_as(sig@, name@),
{
    let inside = label_inside_of(sig.label.as_str());
    SignatureInformation {
        label: cat3(name, "(", inside.as_str()),
        documentation: sig.documentation,
        parameters: sig.parameters,
    }
}

pub open spec fn opt_str_v(s: Option<&str>) -> Option<Seq<char>> {
    match s {
        Some(s) => Some(s@),
        None => None,
    }
}

fn is_target(target: Option<&str>, name: &str) -> (r: bool)
    ensures
        r == (opt_str_v(target) == Some(name@)),
{
    match target {
        Some(target) => same(target, name),
        None => false,
    }
}

/// The signature of what a call calls, as the program declares it, looking through as many
/// as `depth` classes above the one it starts at.
pub fn find_ast_signature(stmts: &Vec<Stmt>, callee: &str, target_class: Option<&str>, depth: usize) -> (r: Option<
    SignatureInformation,
>)
    ensures
        opt_sig(r) == ast_signature(stmts@, callee@, opt_str_v(target_class), 0, depth as nat),
    decreases depth,
{
    let ghost target = opt_str_v(target_class);
    let ghost goal = ast_signature(stmts@, callee@, target, 0, depth as nat);
    let mut i: usize = 0;
    while i < stmts.len()
        invariant
            i <= stmts@.len(),
            target == opt_str_v(target_class),
            goal == ast_signature(stmts@, callee@, target, 0, depth as nat),
            goal == ast_signature(stmts@, callee@, target, i as int, depth as nat),
        decreases stmts@.len() - i,
    {
        match &stmts[i].kind {
            StmtKind::Fn(decl) => {
                if target_class.is_none() && same(decl.name.as_str(), callee) {
                    let label = cat2("fn ", decl.name.as_str());
                    return Some(signature_of(label.as_str(), param_names_of(&decl.params, false)));
                }
            },
            StmtKind::Class(decl) => {
                let name = decl.name.as_str();
                let constructing = match target_class {
                    Some(target) => same(target, name) && same(callee, name),
                    None => same(name, callee),
                };
                if constructing {
                    if let Some(k) = find_method(&decl.methods, "init") {
                        let params = param_names_of(&decl.methods[k].params, true);
                        return Some(signature_of(name, params));
                    }
                    if let Some(parent) = &decl.parent {
                        if depth > 0 {
                            if let Some(sig) = find_ast_signature(
                                stmts,
                                parent.as_str(),
                                Some(parent.as_str()),
                                depth - 1,
                            ) {
                                return Some(show_as(sig, name));
                            }
                        }
                    }
                    let none: Vec<String> = Vec::new();
                    assert(strs(none@) =~= Seq::empty());
                    return Some(signature_of(name, none));
                }
                if target_class.is_none() || is_target(target_class, name) {
                    if let Some(k) = find_method(&decl.methods, callee) {
                        let m = &decl.methods[k];
                        let label = cat2("fn ", m.name.as_str());
                        return Some(signature_of(label.as_str(), param_names_of(&m.params, true)));
                    }
                    if let Some(parent) = &decl.parent {
                        if depth > 0 {
                            let above = find_ast_signature(stmts, callee, Some(parent.as_str()), depth - 1);
                            if above.is_some() {
                                return above;
                            }
                        }
                    }
                }
            },
            _ => {},
        }
        i += 1;
    }
    None
}

// -- signatures of a text --------------------------------------------------------------------------------------

/// Those of the first `n` pieces that name a parameter.
pub open spec fn listed_params(parts: Seq<Seq<char>>, n: int) -> Seq<Seq<char>>
    decreases n,
{
    if 0 < n <= parts.len() {
        let before = listed_params(parts, n - 1);
        let name = trim(parts[n - 1]);
        if name.len() > 0 {
            before.push(name)
        } else {
            before
        }
    } else {
        Seq::empty()
    }
}

/// The parameters between the first brackets of a row.
pub open spec fn row_params(row: Seq<char>) -> Seq<Seq<char>> {
    let close = match char_from(row, ')', 0) {
        Some(k) => k,
        None => row.len() as int,
    };
    match char_from(row, '(', 0) {
        Some(open) => if open < close {
            let parts = pieces(row.subrange(open + 1, close), ","@, 0);
            listed_params(parts, parts.len() as int)
        } else {
            Seq::empty()
        },
        None => Seq::empty(),
    }
}

/// Names without `self`, the first `n` of them.
pub open spec fn without_self(names: Seq<Seq<char>>, n: int) -> Seq<Seq<char>>
    decreases n,
{
    if 0 < n <= names.len() {
        let before = without_self(names, n - 1);
        if names[n - 1] == "self"@ {
            before
        } else {
            before.push(names[n - 1])
        }
    } else {
        Seq::empty()
    }
}

/// The signature a row shows, under a name.
pub open spec fn row_signature(shown: Seq<char>, row: Seq<char>) -> SignatureV {
    let names = row_params(trim(row));
    signature(shown, without_self(names, names.len() as int))
}

/// The signature of what a call calls, as row `i` shows it, inside a class or not.
pub open spec fn row_shows(row: Seq<char>, callee: Seq<char>, target: Option<Seq<char>>, inside: bool, class: Seq<char>) -> Option<
    SignatureV,
> {
    let t = trim(row);
    if target is Some && class == callee && (starts(t, "op init"@) || starts(t, "init"@)) {
        Some(row_signature(callee, row))
    } else if method_opened(row) == Some(callee) && (target is None || (inside && target == Some(class))) {
        Some(row_signature("fn "@ + callee, row))
    } else {
        None
    }
}

/// The signature of what a call calls, as the rows from `i` on show it.
pub open spec fn rows_show(
    rs: Seq<Seq<char>>,
    callee: Seq<char>,
    target: Option<Seq<char>>,
    i: int,
    inside: bool,
    class: Seq<char>,
) -> Option<SignatureV>
    decreases rs.len() - i,
{
    if i < 0 || i >= rs.len() {
        None
    } else {
        let row = rs[i];
        let opened = class_opened(row);
        let class = match opened {
            Some(name) => name,
            None => class,
        };
        let inside = inside || opened is Some;
        match row_shows(row, callee, target, inside, class) {
            Some(sig) => Some(sig),
            None => rows_show(rs, callee, target, i + 1, inside && !starts(trim(row), "}"@), class),
        }
    }
}

/// The signature of what a call calls, as the text shows it: the class itself, the classes
/// it extends as far as `depth` of them, and a bare constructor for a capital name.
pub open spec fn text_signature(rs: Seq<Seq<char>>, callee: Seq<char>, target: Option<Seq<char>>, depth: nat) -> Option<
    SignatureV,
>
    decreases depth, 1int, 0int,
{
    match rows_show(rs, callee, target, 0, false, Seq::empty()) {
        Some(sig) => Some(sig),
        None => {
            let above = match target {
                Some(target) => inherited_signature(rs, callee, target, 0, depth),
                None => None,
            };
            match above {
                Some(sig) => Some(sig),
                None => if capitalised(callee) {
                    Some(signature(callee, Seq::empty()))
                } else {
                    None
                },
            }
        },
    }
}

/// The signature a class has from the class it extends, as the rows from `i` on show it.
pub open spec fn inherited_signature(rs: Seq<Seq<char>>, callee: Seq<char>, target: Seq<char>, i: int, depth: nat) -> Option<
    SignatureV,
>
    decreases depth, 0int, rs.len() - i,
{
    if i < 0 || i >= rs.len() || depth == 0 {
        None
    } else {
        let own = if class_opened(rs[i]) == Some(target) {
            match parent_opened(rs[i]) {
                Some(parent) => if callee == target {
                    match text_signature(rs, parent, Some(parent), (depth - 1) as nat) {
                        Some(sig) => Some(shown_as(sig, target)),
                        None => None,
                    }
                } else {
                    text_signature(rs, callee, Some(parent), (depth - 1) as nat)
                },
                None => None,
            }
        } else {
            None
        };
        match own {
            Some(sig) => Some(sig),
            None => inherited_signature(rs, callee, target, i + 1, depth),
        }
    }
}

fn row_params_of(row: &Vec<char>) -> (r: Vec<String>)
    ensures
        strs(r@) == row_params(row@),
{
    broadcast use lemma_strs_push;

    let mut out: Vec<String> = Vec::new();
    assert(strs(out@) =~= Seq::empty());
    let open = match find_char(row, '(', 0) {
        Some(i) => i,
        None => return out,
    };
    let close = match find_char(row, ')', 0) {
        Some(i) => i,
        None => row.len(),
    };
    if open >= close {
        return out;
    }
    let inner = string_part(row, open + 1, close);
    proof {
        reveal_strlit(",");
    }
    let parts = split(inner.as_str(), ",");
    let ghost all = strs(parts@);
    let mut i: usize = 0;
    while i < parts.len()
        invariant
            i <= parts@.len(),
            all == strs(parts@),
            strs(out@) == listed_params(all, i as int),
        decreases parts@.len() - i,
    {
        assert(all[i as int] == parts@[i as int]@);
        let piece = chars_of(parts[i].as_str());
        let name = trimmed(&piece);
        if name.len() > 0 {
            out.push(text(&name));
        }
        i += 1;
    }
    assert(all.len() == parts@.len());
    out
}

/// The parameters between the first brackets of a line.
pub fn extract_params_from_line(line: &str) -> (r: Vec<String>)
    ensures
        strs(r@) == row_params(line@),
{
    let row = chars_of(line);
    row_params_of(&row)
}

fn drop_self(names: &Vec<String>) -> (r: Vec<String>)
    ensures
        strs(r@) == without_self(strs(names@), names@.len() as int),
{
    broadcast use lemma_strs_push;

    let mut out: Vec<String> = Vec::new();
    let mut i: usize = 0;
    assert(strs(out@) =~= Seq::empty());
    while i < names.len()
        invariant
            i <= names@.len(),
            strs(out@) == without_self(strs(names@), i as int),
        decreases names@.len() - i,
    {
        assert(strs(names@)[i as int] == names@[i as int]@);
        if !same(names[i].as_str(), "self") {
            out.push(names[i].as_str().to_owned());
        }
        i += 1;
    }
    out
}

fn row_signature_of(shown: &str, row: &Vec<char>) -> (r: SignatureInformation)
    ensures
        r@ == row_signature(shown@, row@),
{
    let t = trimmed(row);
    let names = row_params_of(&t);
    assert(strs(names@).len() == names@.len());
    signature_of(shown, drop_self(&names))
}

fn row_shows_of(row: &Vec<char>, callee: &str, target: Option<&str>, inside: bool, class: &Vec<char>) -> (r: Option<
    SignatureInformation,
>)
    ensures
        opt_sig(r) == row_shows(row@, callee@, opt_str_v(target), inside, class@),
{
    let t = trimmed(row);
    if target.is_some() && is_text(class, callee) && (starts_with(&t, "op init") || starts_with(&t, "init")) {
        return Some(row_signature_of(callee, row));
    }
    if let Some(name) = method_opened_by(row) {
        if is_text(&name, callee) {
            let matching = match target {
                None => true,
                Some(target) => inside && is_text(class, target),
            };
            if matching {
                let label = cat2("fn ", callee);
                return Some(row_signature_of(label.as_str(), row));
            }
        }
    }
    None
}

fn rows_show_of(rs: &Vec<Vec<char>>, callee: &str, target: Option<&str>) -> (r: Option<SignatureInformation>)
    ensures
        opt_sig(r) == rows_show(vecs(rs@), callee@, opt_str_v(target), 0, false, Seq::empty()),
{
    let ghost all = vecs(rs@);
    let ghost goal = rows_show(all, callee@, opt_str_v(target), 0, false, Seq::empty());
    let mut inside = false;
    let mut class: Vec<char> = Vec::new();
    let mut i: usize = 0;
    assert(class@ =~= Seq::empty());
    while i < rs.len()
        invariant
            i <= rs@.len(),
            all == vecs(rs@),
            goal == rows_show(all, callee@, opt_str_v(target), 0, false, Seq::empty()),
            goal == rows_show(all, callee@, opt_str_v(target), i as int, inside, class@),
        decreases rs@.len() - i,
    {
        let row = &rs[i];
        assert(all[i as int] == row@);
        if let Some(name) = class_opened_by(row) {
            class = name;
            inside = true;
        }
        let sig = row_shows_of(row, callee, target, inside, &class);
        if sig.is_some() {
            return sig;
        }
        let t = trimmed(row);
        if starts_with(&t, "}") {
            inside = false;
        }
        i += 1;
    }
    None
}

fn text_signature_in(rs: &Vec<Vec<char>>, callee: &str, target: Option<&str>, depth: usize) -> (r: Option<
    SignatureInformation,
>)
    ensures
        opt_sig(r) == text_signature(vecs(rs@), callee@, opt_str_v(target), depth as nat),
    decreases depth, 1int,
{
    let shown = rows_show_of(rs, callee, target);
    if shown.is_some() {
        return shown;
    }
    if let Some(target) = target {
        let above = inherited_signature_in(rs, callee, target, depth);
        if above.is_some() {
            return above;
        }
    }
    let name = chars_of(callee);
    if is_capitalised(&name) {
        let none: Vec<String> = Vec::new();
        assert(strs(none@) =~= Seq::empty());
        Some(signature_of(callee, none))
    } else {
        None
    }
}

fn inherited_signature_in(rs: &Vec<Vec<char>>, callee: &str, target: &str, depth: usize) -> (r: Option<
    SignatureInformation,
>)
    ensures
        opt_sig(r) == inherited_signature(vecs(rs@), callee@, target@, 0, depth as nat),
    decreases depth, 0int,
{
    if depth == 0 {
        return None;
    }
    let ghost all = vecs(rs@);
    let ghost goal = inherited_signature(all, callee@, target@, 0, depth as nat);
    let mut i: usize = 0;
    while i < rs.len()
        invariant
            i <= rs@.len(),
            depth > 0,
            all == vecs(rs@),
            goal == inherited_signature(all, callee@, target@, 0, depth as nat),
            goal == inherited_signature(all, callee@, target@, i as int, depth as nat),
        decreases rs@.len() - i,
    {
        let row = &rs[i];
        assert(all[i as int] == row@);
        let is_class = match class_opened_by(row) {
            Some(name) => is_text(&name, target),
            None => false,
        };
        if is_class {
            if let Some(parent) = parent_opened_by(row) {
                let parent_name = text(&parent);
                if same(callee, target) {
                    if let Some(sig) = text_signature_in(
                        rs,
                        parent_name.as_str(),
                        Some(parent_name.as_str()),
                        depth - 1,
                    ) {
                        return Some(show_as(sig, target));
                    }
                } else {
                    let sig = text_signature_in(rs, callee, Some(parent_name.as_str()), depth - 1);
                    if sig.is_some() {
                        return sig;
                    }
                }
            }
        }
        i += 1;
    }
    None
}

/// The signature of what a call calls, as the text shows it.
pub fn find_text_signature(source: &str, callee: &str, target_class: Option<&str>) -> (r: Option<SignatureInformation>)
    ensures
        opt_sig(r) == text_signature(rows(source@), callee@, opt_str_v(target_class), rows(source@).len()),
{
    let cs = chars_of(source);
    let rs = rows_of(&cs);
    assert(vecs(rs@).len() == rs@.len());
    text_signature_in(&rs, callee, target_class, rs.len())
}

/// The signature of what a call calls: a method a builtin type is born with, then what the
/// program declares, then what its text shows.
pub open spec fn found_signature(cs: Seq<char>, ast: Option<Seq<Stmt>>, callee: Seq<char>, target: Option<Seq<char>>) -> Option<
    SignatureV,
> {
    let born = match target {
        Some(target) => builtin_signature(lowercase(target), callee, 0),
        None => None,
    };
    let declared = match ast {
        Some(ss) => ast_signature(ss, callee, target, 0, ss.len()),
        None => None,
    };
    if born is Some {
        born
    } else if declared is Some {
        declared
    } else {
        text_signature(rows(cs), callee, target, rows(cs).len())
    }
}

/// The signature of what a call calls.
pub fn find_function_signature(source: &str, ast: Option<&Vec<Stmt>>, callee: &str, target_class: Option<&str>) -> (r: Option<
    SignatureInformation,
>)
    ensures
        opt_sig(r) == found_signature(
            source@,
            match ast { Some(ss) => Some(ss@), None => None },
            callee@,
            opt_str_v(target_class),
        ),
{
    if let Some(target) = target_class {
        let lower = to_lowercase(target);
        let born = builtin_signature_of(lower.as_str(), callee);
        if born.is_some() {
            return born;
        }
    }
    if let Some(stmts) = ast {
        let declared = find_ast_signature(stmts, callee, target_class, stmts.len());
        if declared.is_some() {
            return declared;
        }
    }
    find_text_signature(source, callee, target_class)
}

// -- help ---------------------------------------------------------------------------------------------------------

/// What an editor shows while a call is written.
#[derive(Debug)]
pub struct SignatureHelp {
    pub signatures: Vec<SignatureInformation>,
    pub active_parameter: usize,
}

/// The model of a [`SignatureHelp`].
pub struct HelpV {
    pub signature: SignatureV,
    pub active_parameter: nat,
}

/// Help shows one signature.
pub open spec fn shows(r: Option<SignatureHelp>, help: Option<HelpV>) -> bool {
    match r {
        Some(r) => help is Some && r.signatures@.len() == 1 && r.signatures@[0]@ == help->0.signature
            && r.active_parameter == help->0.active_parameter,
        None => help is None,
    }
}

/// Whether a name is that of one of the kinds of error from `i` on.
pub open spec fn names_error(name: Seq<char>, i: int) -> bool
    decreases catchable().len() - i,
{
    if i < 0 || i >= catchable().len() {
        false
    } else {
        error_name(catchable()[i]) == name || names_error(name, i + 1)
    }
}

/// A documented signature of one parameter.
pub open spec fn documented(name: Seq<char>, param: Seq<char>, doc: Seq<char>) -> SignatureV {
    SignatureV { documentation: Some(doc), ..signature(name, seq![param]) }
}

/// The signature of what a call on some receiver calls at a place.
pub open spec fn called_signature(state: DocumentState, call: CallContextV, pos: Position) -> Option<SignatureV> {
    let cs = state.text@;
    let callee = call.callee;
    if callee == "print"@ {
        Some(documented("print"@, "*args"@, "Prints values to standard output."@))
    } else if callee == "type"@ {
        Some(documented("type"@, "value"@, "Returns the type of a value."@))
    } else if callee == "Error"@ || names_error(callee, 0) {
        Some(documented(callee, "message"@, "Constructs a `"@ + callee + "` instance with a message string."@))
    } else {
        let target = match call.receiver {
            Some(receiver) => receiver_class(
                rows(cs),
                receiver,
                pos.line as int,
                rows_counted(rows(cs), pos.line as int),
            ),
            None => if capitalised(callee) {
                Some(callee)
            } else {
                None
            },
        };
        found_signature(
            cs,
            match state.ast {
                Some(ast) => Some(ast@),
                None => None,
            },
            callee,
            target,
        )
    }
}

/// What is shown while a call is written at a place.
pub open spec fn help_at(state: DocumentState, pos: Position) -> Option<HelpV> {
    match call_context(state.text@, pos) {
        Some(call) => match called_signature(state, call, pos) {
            Some(signature) => Some(HelpV { signature, active_parameter: call.active }),
            None => None,
        },
        None => None,
    }
}

pub(crate) fn is_error_name(name: &str) -> (r: bool)
    ensures
        r == names_error(name@, 0),
{
    let kinds = error_kinds();
    let mut i: usize = 0;
    while i < kinds.len()
        invariant
            i <= kinds@.len(),
            kinds@ == catchable(),
            names_error(name@, 0) == names_error(name@, i as int),
        decreases kinds@.len() - i,
    {
        let own = match kinds[i].class_name() {
            Some(own) => own,
            None => {
                assert(false);
                ""
            },
        };
        if same(own, name) {
            return true;
        }
        i += 1;
    }
    false
}

fn document(name: &str, param: &str, doc: String) -> (r: SignatureInformation)
    ensures
        r@ == documented(name@, param@, doc@),
{
    let params: Vec<String> = vec![param.to_owned()];
    assert(strs(params@) =~= seq![param@]);
    let mut sig = signature_of(name, params);
    sig.documentation = Some(doc);
    sig
}

fn called_signature_of(state: &DocumentState, call: &CallContext, pos: Position) -> (r: Option<SignatureInformation>)
    ensures
        opt_sig(r) == called_signature(*state, call@, pos),
{
    let callee = call.callee.as_str();
    if same(callee, "print") {
        return Some(document("print", "*args", "Prints values to standard output.".to_owned()));
    }
    if same(callee, "type") {
        return Some(document("type", "value", "Returns the type of a value.".to_owned()));
    }
    if same(callee, "Error") || is_error_name(callee) {
        return Some(document(callee, "message", cat3("Constructs a `", callee, "` instance with a message string.")));
    }
    let target = match &call.receiver {
        Some(receiver) => infer_receiver_class(state.text.as_str(), receiver.as_str(), pos),
        None => {
            let name = chars_of(callee);
            if is_capitalised(&name) {
                Some(callee.to_owned())
            } else {
                None
            }
        },
    };
    find_function_signature(
        state.text.as_str(),
        match &state.ast {
            Some(ast) => Some(&**ast),
            None => None,
        },
        callee,
        match &target {
            Some(target) => Some(target.as_str()),
            None => None,
        },
    )
}

/// What an editor shows while a call is written at a place of a document.
pub fn get_signature_help(state: Option<&DocumentState>, pos: Position) -> (r: Option<SignatureHelp>)
    ensures
        shows(
            r,
            match state {
                Some(state) => help_at(*state, pos),
                None => None,
            },
        ),
{
    let state = match state {
        Some(state) => state,
        None => return None,
    };
    let call = match find_call_context(state.text.as_str(), pos) {
        Some(call) => call,
        None => return None,
    };
    match called_signature_of(state, &call, pos) {
        Some(sig) => {
            let signatures: Vec<SignatureInformation> = vec![sig];
            assert(signatures@ =~= seq![sig]);
            Some(SignatureHelp { signatures, active_parameter: call.active })
        },
        None => None,
    }
}

} // verus!
