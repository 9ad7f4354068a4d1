//! What may follow a point: the members of a class, as the program and its text show them.

use crate::lsp::item::{
    item, items_v, law_no_label_is_offered_twice, offer, offering, unrepeated, CompletionItem,
    ItemKind, ItemV,
};
use crate::lsp::receiver::{
    class_opened, class_opened_by, deeper, in_path, method_opened, method_opened_by, opt_chars,
    shallower,
};
use crate::lsp::rows::{
    char_from, find_char, in_name, is_in_name, is_text, part, rows, rows_of, same_chars, starts,
    starts_with, text, trim, trimmed, vecs,
};
use crate::runtime::value::{all_builtins, builtin_types, methods_born, native_methods, Builtin};
use crate::syntax::ast::{FnDecl, Stmt, StmtKind};
use crate::syntax::token::{keyword_of, TokenKind};
use crate::text::{cat3, cat5, chars_of, lowercase, same, to_lowercase};
use std::rc::Rc;
use vstd::prelude::*;

verus! {

// -- the builtin types --------------------------------------------------------------------------------

/// Whether a builtin type answers to a lower-case name.
pub open spec fn answers_to(b: Builtin, name: Seq<char>) -> bool {
    b.spelled() == name || (name == "str"@ && b.spelled() == "string"@)
}

/// Items with the first `n` methods of a builtin type.
pub open spec fn with_natives(items: Seq<ItemV>, b: Builtin, n: int) -> Seq<ItemV>
    decreases n,
{
    let natives = native_methods(b);
    if 0 < n <= natives.len() {
        let name = natives[n - 1].spelled();
        offering(
            with_natives(items, b, n - 1),
            item(name, ItemKind::Method, "builtin method "@ + b.spelled() + "."@ + name + "()"@),
        )
    } else {
        items
    }
}

/// Items with the methods of those of the first `n` builtin types that answer to a name.
pub open spec fn with_builtins(items: Seq<ItemV>, name: Seq<char>, n: int) -> Seq<ItemV>
    decreases n,
{
    if 0 < n <= all_builtins().len() {
        let before = with_builtins(items, name, n - 1);
        let b = all_builtins()[n - 1];
        if answers_to(b, name) {
            with_natives(before, b, native_methods(b).len() as int)
        } else {
            before
        }
    } else {
        items
    }
}

pub(crate) fn answers(b: Builtin, name: &str) -> (r: bool)
    ensures
        r == answers_to(b, name@),
{
    same(b.name(), name) || (same(name, "str") && same(b.name(), "string"))
}

fn offer_natives(items: &mut Vec<CompletionItem>, b: Builtin)
    ensures
        items_v(final(items)@) == with_natives(items_v(old(items)@), b, native_methods(b).len() as int),
{
    let natives = methods_born(b);
    let ghost before = items_v(items@);
    let mut i: usize = 0;
    while i < natives.len()
        invariant
            i <= natives@.len(),
            natives@ == native_methods(b),
            before == items_v(old(items)@),
            items_v(items@) == with_natives(before, b, i as int),
        decreases natives@.len() - i,
    {
        let name = natives[i].name();
        offer(items, name, ItemKind::Method, cat5("builtin method ", b.name(), ".", name, "()"));
        i += 1;
    }
}

fn offer_builtins(items: &mut Vec<CompletionItem>, name: &str)
    ensures
        items_v(final(items)@) == with_builtins(items_v(old(items)@), name@, all_builtins().len() as int),
{
    let all = builtin_types();
    let ghost before = items_v(items@);
    let mut i: usize = 0;
    while i < all.len()
        invariant
            i <= all@.len(),
            all@ == all_builtins(),
            before == items_v(old(items)@),
            items_v(items@) == with_builtins(before, name@, i as int),
        decreases all@.len() - i,
    {
        if answers(all[i], name) {
            offer_natives(items, all[i]);
        }
        i += 1;
    }
}

// -- the classes of a program --------------------------------------------------------------------------

/// What is said of a method.
pub open spec fn method_detail(class: Seq<char>, name: Seq<char>) -> Seq<char> {
    "method "@ + class + "."@ + name + "()"@
}

/// Items with the first `n` methods of a class.
pub open spec fn with_methods(items: Seq<ItemV>, class: Seq<char>, ms: Seq<Rc<FnDecl>>, n: int) -> Seq<ItemV>
    decreases n,
{
    if 0 < n <= ms.len() {
        let name = ms[n - 1].name@;
        offering(with_methods(items, class, ms, n - 1), item(name, ItemKind::Method, method_detail(class, name)))
    } else {
        items
    }
}

/// Items with the methods of the classes of a name among the first `n` statements, and of
/// the classes those extend, as far as `depth` of them.
pub open spec fn with_class(items: Seq<ItemV>, ss: Seq<Stmt>, target: Seq<char>, n: int, depth: nat) -> Seq<ItemV>
    decreases depth, n,
{
    if 0 < n <= ss.len() {
        let before = with_class(items, ss, target, n - 1, depth);
        match ss[n - 1].kind {
            StmtKind::Class(decl) => if decl.name@ == target {
                let own = with_methods(before, decl.name@, decl.methods@, decl.methods@.len() as int);
                match decl.parent {
                    Some(parent) => if depth > 0 {
                        with_class(own, ss, parent@, ss.len() as int, (depth - 1) as nat)
                    } else {
                        own
                    },
                    None => own,
                }
            } else {
                before
            },
            _ => before,
        }
    } else {
        items
    }
}

/// Items with the methods of every class among the first `n` statements.
pub open spec fn with_all_classes(items: Seq<ItemV>, ss: Seq<Stmt>, n: int) -> Seq<ItemV>
    decreases n,
{
    if 0 < n <= ss.len() {
        let before = with_all_classes(items, ss, n - 1);
        match ss[n - 1].kind {
            StmtKind::Class(decl) => with_methods(before, decl.name@, decl.methods@, decl.methods@.len() as int),
            _ => before,
        }
    } else {
        items
    }
}

fn offer_methods(items: &mut Vec<CompletionItem>, class: &str, ms: &Vec<Rc<FnDecl>>)
    ensures
        items_v(final(items)@) == with_methods(items_v(old(items)@), class@, ms@, ms@.len() as int),
{
    let ghost before = items_v(items@);
    let mut i: usize = 0;
    while i < ms.len()
        invariant
            i <= ms@.len(),
            before == items_v(old(items)@),
            items_v(items@) == with_methods(before, class@, ms@, i as int),
        decreases ms@.len() - i,
    {
        let name = ms[i].name.as_str();
        offer(items, name, ItemKind::Method, cat5("method ", class, ".", name, "()"));
        i += 1;
    }
}

/// Adds the methods of a class of the program and of the classes it extends, as far as
/// `depth` of them.
pub fn collect_ast_dot_completions_for_class(
    stmts: &Vec<Stmt>,
    target_class: &str,
    depth: usize,
    items: &mut Vec<CompletionItem>,
)
    ensures
        items_v(final(items)@) == with_class(
            items_v(old(items)@),
            stmts@,
            target_class@,
            stmts@.len() as int,
            depth as nat,
        ),
    decreases depth,
{
    let ghost before = items_v(items@);
    let mut i: usize = 0;
    while i < stmts.len()
        invariant
            i <= stmts@.len(),
            before == items_v(old(items)@),
            items_v(items@) == with_class(before, stmts@, target_class@, i as int, depth as nat),
        decreases stmts@.len() - i,
    {
        if let StmtKind::Class(decl) = &stmts[i].kind {
            if same(decl.name.as_str(), target_class) {
                offer_methods(items, decl.name.as_str(), &decl.methods);
                if let Some(parent) = &decl.parent {
                    if depth > 0 {
                        collect_ast_dot_completions_for_class(stmts, parent.as_str(), depth - 1, items);
                    }
                }
            }
        }
        i += 1;
    }
}

fn offer_all_classes(stmts: &Vec<Stmt>, items: &mut Vec<CompletionItem>)
    ensures
        items_v(final(items)@) == with_all_classes(items_v(old(items)@), stmts@, stmts@.len() as int),
{
    let ghost before = items_v(items@);
    let mut i: usize = 0;
    while i < stmts.len()
        invariant
            i <= stmts@.len(),
            before == items_v(old(items)@),
            items_v(items@) == with_all_classes(before, stmts@, i as int),
        decreases stmts@.len() - i,
    {
        if let StmtKind::Class(decl) = &stmts[i].kind {
            offer_methods(items, decl.name.as_str(), &decl.methods);
        }
        i += 1;
    }
}

// -- the text ----------------------------------------------------------------------------------------------

/// Whether a character belongs to a run: a name, or a path of names.
pub open spec fn in_run(c: char, paths: bool) -> bool {
    if paths {
        in_path(c)
    } else {
        in_name(c)
    }
}

/// Where the run at `i` ends.
pub open spec fn run_end(s: Seq<char>, paths: bool, i: int) -> int
    decreases s.len() - i,
{
    if 0 <= i < s.len() && in_run(s[i], paths) {
        run_end(s, paths, i + 1)
    } else {
        i
    }
}

/// The runs of a text from `i` on.
pub open spec fn runs(s: Seq<char>, paths: bool, i: int) -> Seq<Seq<char>>
    decreases s.len() - i,
{
    let end = run_end(s, paths, i);
    if i < 0 || i >= s.len() {
        Seq::empty()
    } else if i < end <= s.len() {
        seq![s.subrange(i, end)] + runs(s, paths, end)
    } else {
        runs(s, paths, i + 1)
    }
}

pub(crate) fn runs_of(s: &Vec<char>, paths: bool) -> (r: Vec<Vec<char>>)
    ensures
        vecs(r@) == runs(s@, paths, 0),
{
    let mut r: Vec<Vec<char>> = Vec::new();
    let mut i: usize = 0;
    assert(vecs(r@) + runs(s@, paths, 0) =~= runs(s@, paths, 0));
    while i < s.len()
        invariant
            i <= s@.len(),
            vecs(r@) + runs(s@, paths, i as int) == runs(s@, paths, 0),
        decreases s@.len() - i,
    {
        let mut end: usize = i;
        while end < s.len() && (is_in_name(s[end]) || (paths && s[end] == '.'))
            invariant
                i <= end <= s@.len(),
                run_end(s@, paths, i as int) == run_end(s@, paths, end as int),
            decreases s@.len() - end,
        {
            end += 1;
        }
        if end > i {
            let ghost before = vecs(r@);
            let word = part(s, i, end);
            let ghost model = word@;
            r.push(word);
            proof {
                assert(vecs(r@) =~= before.push(model));
                assert(before + runs(s@, paths, i as int) =~= vecs(r@) + runs(s@, paths, end as int));
            }
            i = end;
        } else {
            i += 1;
        }
    }
    assert(vecs(r@) =~= runs(s@, paths, 0));
    r
}

/// Whether a text is a name's characters alone.
pub open spec fn all_in_name(s: Seq<char>) -> bool {
    forall|i: int| 0 <= i < s.len() ==> in_name(#[trigger] s[i])
}

/// The field that a path reads of a receiver; with `of_self`, of `self` too.
pub open spec fn field_read(path: Seq<char>, receiver: Seq<char>, of_self: bool) -> Option<Seq<char>> {
    match char_from(path, '.', 0) {
        Some(k) => {
            let object = trim(path.take(k));
            let field = trim(path.skip(k + 1));
            if ((of_self && object == "self"@) || object == receiver) && field.len() > 0 && all_in_name(field)
                && keyword_of(field) is None {
                Some(field)
            } else {
                None
            }
        },
        None => None,
    }
}

/// Items with the fields that the first `n` of some paths read of a receiver.
pub open spec fn with_fields(
    items: Seq<ItemV>,
    paths: Seq<Seq<char>>,
    receiver: Seq<char>,
    of_self: bool,
    prefix: Seq<char>,
    n: int,
) -> Seq<ItemV>
    decreases n,
{
    if 0 < n <= paths.len() {
        let before = with_fields(items, paths, receiver, of_self, prefix, n - 1);
        match field_read(paths[n - 1], receiver, of_self) {
            Some(field) => offering(before, item(field, ItemKind::Field, prefix + field)),
            None => before,
        }
    } else {
        items
    }
}

fn is_all_in_name(s: &Vec<char>) -> (r: bool)
    ensures
        r == all_in_name(s@),
{
    let mut i: usize = 0;
    while i < s.len()
        invariant
            i <= s@.len(),
            forall|j: int| 0 <= j < i ==> in_name(#[trigger] s@[j]),
        decreases s@.len() - i,
    {
        if !is_in_name(s[i]) {
            return false;
        }
        i += 1;
    }
    true
}

pub(crate) fn is_keyword(s: &str) -> (r: bool)
    ensures
        r == (keyword_of(s@) is Some),
{
    TokenKind::keyword(s).is_some()
}

fn field_read_by(path: &Vec<char>, receiver: &Vec<char>, of_self: bool) -> (r: Option<Vec<char>>)
    ensures
        opt_chars(r) == field_read(path@, receiver@, of_self),
{
    match find_char(path, '.', 0) {
        Some(k) => {
            let left = part(path, 0, k);
            assert(left@ =~= path@.take(k as int));
            let len: usize = path.len();
            let right = part(path, k + 1, len);
            assert(right@ =~= path@.skip(k + 1));
            let object = trimmed(&left);
            let field = trimmed(&right);
            if ((of_self && is_text(&object, "self")) || same_chars(&object, receiver)) && field.len() > 0
                && is_all_in_name(&field) && !is_keyword(text(&field).as_str()) {
                Some(field)
            } else {
                None
            }
        },
        None => None,
    }
}

fn offer_fields(
    items: &mut Vec<CompletionItem>,
    paths: &Vec<Vec<char>>,
    receiver: &Vec<char>,
    of_self: bool,
    prefix: &str,
)
    ensures
        items_v(final(items)@) == with_fields(
            items_v(old(items)@),
            vecs(paths@),
            receiver@,
            of_self,
            prefix@,
            paths@.len() as int,
        ),
{
    let ghost before = items_v(items@);
    let mut i: usize = 0;
    while i < paths.len()
        invariant
            i <= paths@.len(),
            before == items_v(old(items)@),
            items_v(items@) == with_fields(before, vecs(paths@), receiver@, of_self, prefix@, i as int),
        decreases paths@.len() - i,
    {
        assert(vecs(paths@)[i as int] == paths@[i as int]@);
        if let Some(field) = field_read_by(&paths[i], receiver, of_self) {
            let name = text(&field);
            offer(items, name.as_str(), ItemKind::Field, crate::text::cat2(prefix, name.as_str()));
        }
        i += 1;
    }
}

/// What has been read of a text: the class it is in, and what it offers.
pub struct Reading {
    pub inside: bool,
    pub class: Seq<char>,
    pub depth: usize,
    pub from: usize,
    pub items: Seq<ItemV>,
}

/// How deep the braces are after the first `n` characters of a row, and whether the class
/// that began at `from` goes on.
pub open spec fn braces(inside: bool, depth: usize, from: usize, row: Seq<char>, n: int) -> (bool, usize)
    decreases n,
{
    if 0 < n <= row.len() {
        let (inside, depth) = braces(inside, depth, from, row, n - 1);
        if row[n - 1] == '{' {
            (inside, deeper(depth))
        } else if row[n - 1] == '}' {
            (inside && shallower(depth) > from, shallower(depth))
        } else {
            (inside, depth)
        }
    } else {
        (inside, depth)
    }
}

/// Items with the method a row opens.
pub open spec fn with_method_row(items: Seq<ItemV>, class: Seq<char>, row: Seq<char>) -> Seq<ItemV> {
    match method_opened(row) {
        Some(name) => if name.len() > 0 && keyword_of(name) is None {
            offering(items, item(name, ItemKind::Method, method_detail(class, name)))
        } else {
            items
        },
        None => items,
    }
}

/// Items with what a row inside a class shows of it.
pub open spec fn with_class_row(items: Seq<ItemV>, class: Seq<char>, row: Seq<char>, receiver: Seq<char>) -> Seq<ItemV> {
    let paths = runs(row, true, 0);
    with_fields(
        with_method_row(items, class, row),
        paths,
        receiver,
        true,
        "property "@ + class + "."@,
        paths.len() as int,
    )
}

/// What has been read once a row has been.
pub open spec fn read_row(at: Reading, row: Seq<char>, receiver: Seq<char>, target: Option<Seq<char>>) -> Reading {
    if starts(trim(row), "#"@) {
        at
    } else {
        let opened = class_opened(row);
        let class = match opened {
            Some(name) => name,
            None => at.class,
        };
        let inside = at.inside || opened is Some;
        let from = if opened is Some {
            at.depth
        } else {
            at.from
        };
        let matching = match target {
            Some(target) => class == target,
            None => true,
        };
        let own = if inside && matching {
            with_class_row(at.items, class, row, receiver)
        } else {
            at.items
        };
        let paths = runs(row, true, 0);
        let items = with_fields(own, paths, receiver, false, "property "@, paths.len() as int);
        let (inside, depth) = braces(inside, at.depth, from, row, row.len() as int);
        Reading { inside, class, depth, from, items }
    }
}

/// What has been read once the first `n` rows have been.
pub open spec fn read_rows(
    rs: Seq<Seq<char>>,
    receiver: Seq<char>,
    target: Option<Seq<char>>,
    items: Seq<ItemV>,
    n: int,
) -> Reading
    decreases n,
{
    if 0 < n <= rs.len() {
        read_row(read_rows(rs, receiver, target, items, n - 1), rs[n - 1], receiver, target)
    } else {
        Reading { inside: false, class: Seq::empty(), depth: 0, from: 0, items }
    }
}

fn count_braces(inside: bool, depth: usize, from: usize, row: &Vec<char>) -> (r: (bool, usize))
    ensures
        r == braces(inside, depth, from, row@, row@.len() as int),
{
    let mut is_inside = inside;
    let mut deep: usize = depth;
    let mut k: usize = 0;
    while k < row.len()
        invariant
            k <= row@.len(),
            (is_inside, deep) == braces(inside, depth, from, row@, k as int),
        decreases row@.len() - k,
    {
        if row[k] == '{' {
            if deep < usize::MAX {
                deep += 1;
            }
        } else if row[k] == '}' {
            if deep > 0 {
                deep -= 1;
            }
            if deep <= from {
                is_inside = false;
            }
        }
        k += 1;
    }
    (is_inside, deep)
}

fn offer_class_row(items: &mut Vec<CompletionItem>, class: &Vec<char>, row: &Vec<char>, receiver: &Vec<char>)
    ensures
        items_v(final(items)@) == with_class_row(items_v(old(items)@), class@, row@, receiver@),
{
    let class_name = text(class);
    if let Some(name) = method_opened_by(row) {
        let label = text(&name);
        if name.len() > 0 && !is_keyword(label.as_str()) {
            offer(
                items,
                label.as_str(),
                ItemKind::Method,
                cat5("method ", class_name.as_str(), ".", label.as_str(), "()"),
            );
        }
    }
    assert(items_v(items@) == with_method_row(items_v(old(items)@), class@, row@));
    let paths = runs_of(row, true);
    assert(vecs(paths@).len() == paths@.len());
    offer_fields(items, &paths, receiver, true, cat3("property ", class_name.as_str(), ".").as_str());
}

fn offer_rows(
    items: &mut Vec<CompletionItem>,
    rs: &Vec<Vec<char>>,
    receiver: &Vec<char>,
    target: Option<&str>,
)
    ensures
        items_v(final(items)@) == read_rows(
            vecs(rs@),
            receiver@,
            match target { Some(t) => Some(t@), None => None },
            items_v(old(items)@),
            rs@.len() as int,
        ).items,
{
    let ghost all = vecs(rs@);
    let ghost before = items_v(items@);
    let ghost wanted: Option<Seq<char>> = match target {
        Some(t) => Some(t@),
        None => None,
    };
    let mut inside = false;
    let mut class: Vec<char> = Vec::new();
    let mut depth: usize = 0;
    let mut from: usize = 0;
    let mut i: usize = 0;
    assert(class@ =~= Seq::empty());
    while i < rs.len()
        invariant
            i <= rs@.len(),
            all == vecs(rs@),
            before == items_v(old(items)@),
            wanted == (match target { Some(t) => Some(t@), None => None }),
            (Reading { inside, class: class@, depth, from, items: items_v(items@) }) == read_rows(
                all,
                receiver@,
                wanted,
                before,
                i as int,
            ),
        decreases rs@.len() - i,
    {
        let row = &rs[i];
        assert(all[i as int] == row@);
        let ghost at = read_rows(all, receiver@, wanted, before, i as int);
        let t = trimmed(row);
        if !starts_with(&t, "#") {
            if let Some(name) = class_opened_by(row) {
                class = name;
                inside = true;
                from = depth;
            }
            let matching = match target {
                Some(target) => is_text(&class, target),
                None => true,
            };
            if inside && matching {
                offer_class_row(items, &class, row, receiver);
            }
            let paths = runs_of(row, true);
            assert(vecs(paths@).len() == paths@.len());
            offer_fields(items, &paths, receiver, false, "property ");
            let counted = count_braces(inside, depth, from, row);
            inside = counted.0;
            depth = counted.1;
        }
        assert((Reading { inside, class: class@, depth, from, items: items_v(items@) }) == read_row(
            at,
            row@,
            receiver@,
            wanted,
        ));
        i += 1;
    }
}

/// What may follow the point behind a receiver whose class is known, or not.
pub open spec fn dot_items(
    cs: Seq<char>,
    ast: Option<Seq<Stmt>>,
    receiver: Seq<char>,
    target: Option<Seq<char>>,
) -> Seq<ItemV> {
    let born = match target {
        Some(target) => with_builtins(Seq::empty(), lowercase(target), all_builtins().len() as int),
        None => Seq::empty(),
    };
    let declared = match ast {
        Some(ss) => match target {
            Some(target) => with_class(born, ss, target, ss.len() as int, ss.len()),
            None => with_all_classes(born, ss, ss.len() as int),
        },
        None => born,
    };
    read_rows(rows(cs), receiver, target, declared, rows(cs).len() as int).items
}

/// What may follow the point behind a receiver: the methods its builtin type is born with,
/// those its class and the classes above declare, and what the text shows besides.
pub fn collect_dot_completions_for_class(
    source: &str,
    ast: Option<&Vec<Stmt>>,
    receiver: &str,
    target_class: Option<&str>,
) -> (r: Vec<CompletionItem>)
    ensures
        items_v(r@) == dot_items(
            source@,
            match ast { Some(ss) => Some(ss@), None => None },
            receiver@,
            match target_class { Some(t) => Some(t@), None => None },
        ),
{
    let mut items: Vec<CompletionItem> = Vec::new();
    assert(items_v(items@) =~= Seq::empty());
    if let Some(target) = target_class {
        let lower = to_lowercase(target);
        offer_builtins(&mut items, lower.as_str());
    }
    if let Some(stmts) = ast {
        match target_class {
            Some(target) => {
                collect_ast_dot_completions_for_class(stmts, target, stmts.len(), &mut items);
            },
            None => {
                offer_all_classes(stmts, &mut items);
            },
        }
    }
    let cs = chars_of(source);
    let rs = rows_of(&cs);
    assert(vecs(rs@).len() == rs@.len());
    let name = chars_of(receiver);
    offer_rows(&mut items, &rs, &name, target_class);
    items
}

// -- laws ---------------------------------------------------------------------------------------------------

proof fn lemma_natives(items: Seq<ItemV>, b: Builtin, n: int)
    requires
        unrepeated(items),
    ensures
        unrepeated(with_natives(items, b, n)),
    decreases n,
{
    let natives = native_methods(b);
    if 0 < n <= natives.len() {
        lemma_natives(items, b, n - 1);
        let name = natives[n - 1].spelled();
        law_no_label_is_offered_twice(
            with_natives(items, b, n - 1),
            item(name, ItemKind::Method, "builtin method "@ + b.spelled() + "."@ + name + "()"@),
        );
    }
}

proof fn lemma_builtins(items: Seq<ItemV>, name: Seq<char>, n: int)
    requires
        unrepeated(items),
    ensures
        unrepeated(with_builtins(items, name, n)),
    decreases n,
{
    if 0 < n <= all_builtins().len() {
        lemma_builtins(items, name, n - 1);
        let b = all_builtins()[n - 1];
        lemma_natives(with_builtins(items, name, n - 1), b, native_methods(b).len() as int);
    }
}

proof fn lemma_methods(items: Seq<ItemV>, class: Seq<char>, ms: Seq<Rc<FnDecl>>, n: int)
    requires
        unrepeated(items),
    ensures
        unrepeated(with_methods(items, class, ms, n)),
    decreases n,
{
    if 0 < n <= ms.len() {
        lemma_methods(items, class, ms, n - 1);
        let name = ms[n - 1].name@;
        law_no_label_is_offered_twice(
            with_methods(items, class, ms, n - 1),
            item(name, ItemKind::Method, method_detail(class, name)),
        );
    }
}

proof fn lemma_class(items: Seq<ItemV>, ss: Seq<Stmt>, target: Seq<char>, n: int, depth: nat)
    requires
        unrepeated(items),
    ensures
        unrepeated(with_class(items, ss, target, n, depth)),
    decreases depth, n,
{
    if 0 < n <= ss.len() {
        lemma_class(items, ss, target, n - 1, depth);
        let before = with_class(items, ss, target, n - 1, depth);
        match ss[n - 1].kind {
            StmtKind::Class(decl) => {
                lemma_methods(before, decl.name@, decl.methods@, decl.methods@.len() as int);
                let own = with_methods(before, decl.name@, decl.methods@, decl.methods@.len() as int);
                match decl.parent {
                    Some(parent) => {
                        if depth > 0 {
                            lemma_class(own, ss, parent@, ss.len() as int, (depth - 1) as nat);
                        }
                    },
                    None => {},
                }
            },
            _ => {},
        }
    }
}

proof fn lemma_all_classes(items: Seq<ItemV>, ss: Seq<Stmt>, n: int)
    requires
        unrepeated(items),
    ensures
        unrepeated(with_all_classes(items, ss, n)),
    decreases n,
{
    if 0 < n <= ss.len() {
        lemma_all_classes(items, ss, n - 1);
        match ss[n - 1].kind {
            StmtKind::Class(decl) => {
                lemma_methods(
                    with_all_classes(items, ss, n - 1),
                    decl.name@,
                    decl.methods@,
                    decl.methods@.len() as int,
                );
            },
            _ => {},
        }
    }
}

proof fn lemma_fields(
    items: Seq<ItemV>,
    paths: Seq<Seq<char>>,
    receiver: Seq<char>,
    of_self: bool,
    prefix: Seq<char>,
    n: int,
)
    requires
        unrepeated(items),
    ensures
        unrepeated(with_fields(items, paths, receiver, of_self, prefix, n)),
    decreases n,
{
    if 0 < n <= paths.len() {
        lemma_fields(items, paths, receiver, of_self, prefix, n - 1);
        match field_read(paths[n - 1], receiver, of_self) {
            Some(field) => {
                law_no_label_is_offered_twice(
                    with_fields(items, paths, receiver, of_self, prefix, n - 1),
                    item(field, ItemKind::Field, prefix + field),
                );
            },
            None => {},
        }
    }
}

proof fn lemma_class_row(items: Seq<ItemV>, class: Seq<char>, row: Seq<char>, receiver: Seq<char>)
    requires
        unrepeated(items),
    ensures
        unrepeated(with_class_row(items, class, row, receiver)),
{
    match method_opened(row) {
        Some(name) => {
            law_no_label_is_offered_twice(items, item(name, ItemKind::Method, method_detail(class, name)));
        },
        None => {},
    }
    let paths = runs(row, true, 0);
    lemma_fields(
        with_method_row(items, class, row),
        paths,
        receiver,
        true,
        "property "@ + class + "."@,
        paths.len() as int,
    );
}

proof fn lemma_rows(rs: Seq<Seq<char>>, receiver: Seq<char>, target: Option<Seq<char>>, items: Seq<ItemV>, n: int)
    requires
        unrepeated(items),
    ensures
        unrepeated(read_rows(rs, receiver, target, items, n).items),
    decreases n,
{
    if 0 < n <= rs.len() {
        lemma_rows(rs, receiver, target, items, n - 1);
        let at = read_rows(rs, receiver, target, items, n - 1);
        let row = rs[n - 1];
        let class = match class_opened(row) {
            Some(name) => name,
            None => at.class,
        };
        let paths = runs(row, true, 0);
        lemma_class_row(at.items, class, row, receiver);
        lemma_fields(at.items, paths, receiver, false, "property "@, paths.len() as int);
        lemma_fields(
            with_class_row(at.items, class, row, receiver),
            paths,
            receiver,
            false,
            "property "@,
            paths.len() as int,
        );
    }
}

/// Nothing is offered twice behind a point.
pub proof fn law_nothing_is_offered_twice_behind_a_point(
    cs: Seq<char>,
    ast: Option<Seq<Stmt>>,
    receiver: Seq<char>,
    target: Option<Seq<char>>,
)
    ensures
        unrepeated(dot_items(cs, ast, receiver, target)),
{
    let none = Seq::<ItemV>::empty();
    let born = match target {
        Some(target) => with_builtins(none, lowercase(target), all_builtins().len() as int),
        None => none,
    };
    match target {
        Some(target) => lemma_builtins(none, lowercase(target), all_builtins().len() as int),
        None => {},
    }
    let declared = match ast {
        Some(ss) => match target {
            Some(target) => with_class(born, ss, target, ss.len() as int, ss.len()),
            None => with_all_classes(born, ss, ss.len() as int),
        },
        None => born,
    };
    match ast {
        Some(ss) => match target {
            Some(target) => lemma_class(born, ss, target, ss.len() as int, ss.len()),
            None => lemma_all_classes(born, ss, ss.len() as int),
        },
        None => {},
    }
    lemma_rows(rows(cs), receiver, target, declared, rows(cs).len() as int);
}

} // verus!
