//! Properties of resolution, stated over the spec functions of `resolve`,
//! `syntax` and `formatter`, and proved.
use vstd::prelude::*;
use crate::formatter::strip_docs;
use crate::resolve::{
    add_def, decl_def, fail, find_def, find_file, merge, resolve_from, resolve_spec, walk, Cause,
    Def, Failure, SourceFile,
};
use crate::syntax::{parse_spec, Decl, DeclKind};

verus! {

/// The name that declaration `d` of `src` defines.
pub open spec fn decl_name(src: Seq<char>, d: Decl) -> Seq<char> {
    src.subrange(d.start as int, d.key_end as int)
}

/// None of `ds[..m]` pulls in a file.
pub open spec fn no_inclusion(ds: Seq<Decl>, m: int) -> bool {
    forall|j: int| 0 <= j < m ==> (#[trigger] ds[j]).kind != DeclKind::Include
}

/// The rules and variables of `ds[..m]` all have different names.
pub open spec fn names_distinct(src: Seq<char>, ds: Seq<Decl>, m: int) -> bool {
    forall|i: int, j: int|
        0 <= i < j < m && ds[i].kind != DeclKind::Doc && ds[j].kind != DeclKind::Doc
            ==> decl_name(src, #[trigger] ds[i]) != decl_name(src, #[trigger] ds[j])
}

/// The definitions that the rules and variables of `ds[..k]` make, in order.
pub open spec fn defs_upto(src: Seq<char>, id: Seq<char>, ds: Seq<Decl>, k: int) -> Seq<Def>
    decreases k,
{
    if k <= 0 {
        Seq::empty()
    } else if ds[k - 1].kind == DeclKind::Doc {
        defs_upto(src, id, ds, k - 1)
    } else {
        defs_upto(src, id, ds, k - 1).push(decl_def(src, id, ds[k - 1]))
    }
}

/// The first definition of `name` in `defs` is `d`.
pub open spec fn found_as(defs: Seq<Def>, name: Seq<char>, d: Def) -> bool {
    match find_def(defs, name, 0) {
        Some(x) => 0 <= x < defs.len() && defs[x] == d,
        None => false,
    }
}

proof fn lemma_find_def_push(a: Seq<Def>, d: Def, name: Seq<char>, i: int)
    requires
        0 <= i <= a.len(),
    ensures
        find_def(a.push(d), name, i) == match find_def(a, name, i) {
            Some(x) => Some(x),
            None => if d.name == name {
                Some(a.len() as int)
            } else {
                None
            },
        },
    decreases a.len() - i,
{
    if i < a.len() {
        lemma_find_def_push(a, d, name, i + 1);
    } else {
        assert(find_def(a.push(d), name, i + 1) is None);
    }
}

/// Where the rules and variables of `ds[..k]` have distinct names, `name` is
/// found among their definitions exactly where one of them defines it.
proof fn lemma_find_in_prefix(src: Seq<char>, id: Seq<char>, ds: Seq<Decl>, k: int, name: Seq<char>)
    requires
        0 <= k <= ds.len(),
        names_distinct(src, ds, k),
    ensures
        (forall|j: int| 0 <= j < k && ds[j].kind != DeclKind::Doc ==> decl_name(src, #[trigger] ds[j]) != name)
            ==> find_def(defs_upto(src, id, ds, k), name, 0) is None,
        forall|j: int|
            0 <= j < k && ds[j].kind != DeclKind::Doc && decl_name(src, #[trigger] ds[j]) == name
                ==> found_as(defs_upto(src, id, ds, k), name, decl_def(src, id, ds[j])),
    decreases k,
{
    if k > 0 {
        lemma_find_in_prefix(src, id, ds, k - 1, name);
        let a = defs_upto(src, id, ds, k - 1);
        if ds[k - 1].kind != DeclKind::Doc {
            let d = decl_def(src, id, ds[k - 1]);
            lemma_find_def_push(a, d, name, 0);
            assert forall|j: int|
                0 <= j < k && ds[j].kind != DeclKind::Doc && decl_name(src, #[trigger] ds[j])
                    == name implies found_as(defs_upto(src, id, ds, k), name, decl_def(src, id, ds[j])) by {
                if j < k - 1 {
                    assert(decl_name(src, ds[j]) != decl_name(src, ds[k - 1]));
                }
            }
        }
    }
}

/// Resolving a prefix without file directives and with distinct names
/// defines exactly those names.
proof fn lemma_walk_prefix(
    files: Seq<SourceFile>,
    stack: Seq<usize>,
    src: Seq<char>,
    id: Seq<char>,
    ds: Seq<Decl>,
    m: int,
)
    requires
        0 <= m <= ds.len(),
        no_inclusion(ds, m),
        names_distinct(src, ds, m),
    ensures
        walk(files, stack, src, id, ds, 0, Seq::empty()) == walk(
            files,
            stack,
            src,
            id,
            ds,
            m,
            defs_upto(src, id, ds, m),
        ),
    decreases m,
{
    if m > 0 {
        lemma_walk_prefix(files, stack, src, id, ds, m - 1);
        let k = m - 1;
        if ds[k].kind != DeclKind::Doc {
            assert(ds[k].kind != DeclKind::Include);
            lemma_find_in_prefix(src, id, ds, k, decl_name(src, ds[k]));
            assert forall|j: int| 0 <= j < k && ds[j].kind != DeclKind::Doc implies decl_name(
                src,
                #[trigger] ds[j],
            ) != decl_name(src, ds[k]) by {}
        }
    }
}

/// A grammar without file directives whose rules and variables all have
/// distinct names resolves, and its namespace holds one definition for each
/// of them, in order: each rule's text as written, each variable's value.
pub proof fn lemma_distinct_names_resolve(files: Seq<SourceFile>, src: Seq<char>, id: Seq<char>)
    requires
        parse_spec(src) is Ok,
        no_inclusion(parse_spec(src)->Ok_0, parse_spec(src)->Ok_0.len() as int),
        names_distinct(src, parse_spec(src)->Ok_0, parse_spec(src)->Ok_0.len() as int),
    ensures
        resolve_spec(files, src, id) == Ok::<Seq<Def>, crate::resolve::Failure>(
            defs_upto(src, id, parse_spec(src)->Ok_0, parse_spec(src)->Ok_0.len() as int),
        ),
{
    let ds = parse_spec(src)->Ok_0;
    lemma_walk_prefix(files, Seq::empty(), src, id, ds, ds.len() as int);
}

/// Where the declaration at `k` is the first to reuse a name, the name of
/// the earlier declaration `j`, resolution fails on that pair: the earlier
/// definition is the existing one, the later one is reported at its own
/// position. Two rules give a rule clash, two variables a variable clash,
/// a rule and a variable (in either order) a rule/variable conflict.
pub proof fn lemma_repeated_name_clashes(
    files: Seq<SourceFile>,
    src: Seq<char>,
    id: Seq<char>,
    j: int,
    k: int,
)
    requires
        parse_spec(src) is Ok,
        0 <= j < k < parse_spec(src)->Ok_0.len(),
        no_inclusion(parse_spec(src)->Ok_0, k + 1),
        names_distinct(src, parse_spec(src)->Ok_0, k),
        parse_spec(src)->Ok_0[j].kind != DeclKind::Doc,
        parse_spec(src)->Ok_0[k].kind != DeclKind::Doc,
        decl_name(src, parse_spec(src)->Ok_0[j]) == decl_name(src, parse_spec(src)->Ok_0[k]),
    ensures
        resolve_spec(files, src, id) == Err::<Seq<Def>, crate::resolve::Failure>(
            fail(
                Cause::Clash {
                    existing: decl_def(src, id, parse_spec(src)->Ok_0[j]),
                    incoming: decl_def(src, id, parse_spec(src)->Ok_0[k]),
                    grammar: id,
                    text: src,
                    start: parse_spec(src)->Ok_0[k].start as int,
                    end: parse_spec(src)->Ok_0[k].end as int,
                },
            ),
        ),
{
    let ds = parse_spec(src)->Ok_0;
    lemma_walk_prefix(files, Seq::empty(), src, id, ds, k);
    assert(ds[k].kind != DeclKind::Include);
    lemma_find_in_prefix(src, id, ds, k, decl_name(src, ds[k]));
    assert(decl_name(src, ds[j]) == decl_name(src, ds[k]));
}

/// A file directive whose path names no known file fails resolution with
/// that path, where everything before it resolves.
pub proof fn lemma_missing_file_fails(files: Seq<SourceFile>, src: Seq<char>, id: Seq<char>, k: int)
    requires
        parse_spec(src) is Ok,
        0 <= k < parse_spec(src)->Ok_0.len(),
        no_inclusion(parse_spec(src)->Ok_0, k),
        names_distinct(src, parse_spec(src)->Ok_0, k),
        parse_spec(src)->Ok_0[k].kind == DeclKind::Include,
        find_file(
            files,
            src.subrange(
                parse_spec(src)->Ok_0[k].lit_start as int,
                parse_spec(src)->Ok_0[k].lit_end as int,
            ),
            0,
        ) is None,
    ensures
        resolve_spec(files, src, id) == Err::<Seq<Def>, crate::resolve::Failure>(
            fail(
                Cause::Missing {
                    path: src.subrange(
                        parse_spec(src)->Ok_0[k].lit_start as int,
                        parse_spec(src)->Ok_0[k].lit_end as int,
                    ),
                    text: src,
                    start: parse_spec(src)->Ok_0[k].start as int,
                    end: parse_spec(src)->Ok_0[k].end as int,
                },
            ),
        ),
{
    let ds = parse_spec(src)->Ok_0;
    lemma_walk_prefix(files, Seq::empty(), src, id, ds, k);
}


/// No two definitions of `defs` share a name.
pub open spec fn names_unique(defs: Seq<Def>) -> bool {
    forall|i: int, j: int| 0 <= i < j < defs.len() ==> (#[trigger] defs[i]).name != (#[trigger] defs[j]).name
}

proof fn lemma_find_def_result(defs: Seq<Def>, name: Seq<char>, i: int)
    requires
        0 <= i,
    ensures
        find_def(defs, name, i) is None ==> forall|j: int| i <= j < defs.len() ==> (#[trigger] defs[j]).name != name,
        find_def(defs, name, i) matches Some(x) ==> i <= x < defs.len() && defs[x].name == name,
    decreases defs.len() - i,
{
    if i < defs.len() {
        lemma_find_def_result(defs, name, i + 1);
    }
}

proof fn lemma_find_file_result(files: Seq<SourceFile>, path: Seq<char>, i: int)
    requires
        0 <= i,
    ensures
        find_file(files, path, i) matches Some(x) ==> i <= x < files.len(),
    decreases files.len() - i,
{
    if i < files.len() {
        lemma_find_file_result(files, path, i + 1);
    }
}

proof fn lemma_add_def_unique(defs: Seq<Def>, d: Def, grammar: Seq<char>, text: Seq<char>, start: int, end: int)
    requires
        names_unique(defs),
    ensures
        add_def(defs, d, grammar, text, start, end) matches Ok(out) ==> names_unique(out),
{
    lemma_find_def_result(defs, d.name, 0);
}

proof fn lemma_merge_unique(defs: Seq<Def>, new: Seq<Def>, grammar: Seq<char>, text: Seq<char>, start: int, end: int)
    requires
        names_unique(defs),
    ensures
        merge(defs, new, grammar, text, start, end) matches Ok(out) ==> names_unique(out),
    decreases new.len(),
{
    if new.len() > 0 {
        lemma_add_def_unique(defs, new[0], grammar, text, start, end);
        if let Ok(next) = add_def(defs, new[0], grammar, text, start, end) {
            lemma_merge_unique(next, new.drop_first(), grammar, text, start, end);
        }
    }
}

proof fn lemma_walk_unique(
    files: Seq<SourceFile>,
    stack: Seq<usize>,
    src: Seq<char>,
    id: Seq<char>,
    ds: Seq<Decl>,
    k: int,
    defs: Seq<Def>,
)
    requires
        names_unique(defs),
    ensures
        walk(files, stack, src, id, ds, k, defs) matches Ok(out) ==> names_unique(out),
    decreases files.len() - stack.len(), ds.len() - k,
{
    if 0 <= k < ds.len() {
        let d = ds[k];
        if d.kind == DeclKind::Doc {
            lemma_walk_unique(files, stack, src, id, ds, k + 1, defs);
        } else if d.kind == DeclKind::Rule || d.kind == DeclKind::Variable {
            let def = decl_def(src, id, d);
            lemma_add_def_unique(defs, def, id, src, d.start as int, d.end as int);
            if let Ok(next) = add_def(defs, def, id, src, d.start as int, d.end as int) {
                lemma_walk_unique(files, stack, src, id, ds, k + 1, next);
            }
        } else {
            let path = src.subrange(d.lit_start as int, d.lit_end as int);
            if let Some(f) = find_file(files, path, 0) {
                if !(stack.contains(f as usize) || stack.len() >= files.len()) {
                    if let Ok(got) = resolve_from(files, stack.push(f as usize), files[f].text@, path) {
                        lemma_merge_unique(defs, got, id, src, d.start as int, d.end as int);
                        if let Ok(next) = merge(defs, got, id, src, d.start as int, d.end as int) {
                            lemma_walk_unique(files, stack, src, id, ds, k + 1, next);
                        }
                    }
                }
            }
        }
    }
}

/// Rules and variables share one namespace: however deep files are pulled
/// in, a resolved namespace never defines a name twice.
pub proof fn lemma_resolved_names_unique(files: Seq<SourceFile>, src: Seq<char>, id: Seq<char>)
    ensures
        resolve_spec(files, src, id) matches Ok(defs) ==> names_unique(defs),
{
    if let Ok(ds) = parse_spec(src) {
        lemma_walk_unique(files, Seq::empty(), src, id, ds, 0, Seq::empty());
    }
}

/// Merging definitions whose names are new and distinct appends them as
/// they are.
proof fn lemma_merge_fresh(defs: Seq<Def>, new: Seq<Def>, grammar: Seq<char>, text: Seq<char>, start: int, end: int)
    requires
        names_unique(new),
        forall|i: int| 0 <= i < new.len() ==> find_def(defs, (#[trigger] new[i]).name, 0) is None,
    ensures
        merge(defs, new, grammar, text, start, end) == Ok::<Seq<Def>, Failure>(defs + new),
    decreases new.len(),
{
    if new.len() > 0 {
        let rest = new.drop_first();
        let next = defs.push(new[0]);
        assert forall|i: int| 0 <= i < rest.len() implies find_def(next, (#[trigger] rest[i]).name, 0) is None by {
            assert(rest[i] == new[i + 1]);
            lemma_find_def_push(defs, new[0], rest[i].name, 0);
        }
        assert forall|i: int, j: int| 0 <= i < j < rest.len() implies (#[trigger] rest[i]).name != (#[trigger] rest[j]).name by {
            assert(rest[i] == new[i + 1] && rest[j] == new[j + 1]);
        }
        lemma_merge_fresh(next, rest, grammar, text, start, end);
        assert(next + rest =~= defs + new);
    }
}

/// Merging stops at the first definition of `new` whose name `defs`
/// already holds, and reports the holder as the existing definition.
proof fn lemma_merge_clash(
    defs: Seq<Def>,
    new: Seq<Def>,
    grammar: Seq<char>,
    text: Seq<char>,
    start: int,
    end: int,
    i: int,
    existing: Def,
)
    requires
        0 <= i < new.len(),
        names_unique(new),
        forall|j: int| 0 <= j < i ==> find_def(defs, (#[trigger] new[j]).name, 0) is None,
        found_as(defs, new[i].name, existing),
    ensures
        merge(defs, new, grammar, text, start, end) == Err::<Seq<Def>, Failure>(
            fail(Cause::Clash { existing, incoming: new[i], grammar, text, start, end }),
        ),
    decreases i,
{
    if i > 0 {
        let rest = new.drop_first();
        let next = defs.push(new[0]);
        assert forall|j: int| 0 <= j < i - 1 implies find_def(next, (#[trigger] rest[j]).name, 0) is None by {
            assert(rest[j] == new[j + 1]);
            lemma_find_def_push(defs, new[0], rest[j].name, 0);
        }
        assert forall|a: int, b: int| 0 <= a < b < rest.len() implies (#[trigger] rest[a]).name != (#[trigger] rest[b]).name by {
            assert(rest[a] == new[a + 1] && rest[b] == new[b + 1]);
        }
        lemma_find_def_push(defs, new[0], new[i].name, 0);
        assert(rest[i - 1] == new[i]);
        lemma_merge_clash(next, rest, grammar, text, start, end, i - 1, existing);
    }
}

/// The index of the file that the directive `d` of `src` names.
pub open spec fn target(files: Seq<SourceFile>, src: Seq<char>, d: Decl) -> int {
    find_file(files, src.subrange(d.lit_start as int, d.lit_end as int), 0)->Some_0
}

/// What the file named by the directive `d` of `src` resolves to, when it
/// is pulled in from a root grammar.
pub open spec fn pulled_in(files: Seq<SourceFile>, src: Seq<char>, d: Decl) -> Result<Seq<Def>, Failure> {
    resolve_from(
        files,
        Seq::<usize>::empty().push(target(files, src, d) as usize),
        files[target(files, src, d)].text@,
        src.subrange(d.lit_start as int, d.lit_end as int),
    )
}

/// A root grammar that defines distinct names and then pulls in a file
/// that resolves to definitions of other names: the result is the root's
/// definitions followed by the file's, each unchanged (a rule keeps its
/// text as written).
pub proof fn lemma_pulled_in_defs_kept(files: Seq<SourceFile>, src: Seq<char>, id: Seq<char>)
    requires
        parse_spec(src) is Ok,
        parse_spec(src)->Ok_0.len() > 0,
        ({
            let ds = parse_spec(src)->Ok_0;
            let k = ds.len() - 1;
            &&& no_inclusion(ds, k)
            &&& names_distinct(src, ds, k)
            &&& ds[k].kind == DeclKind::Include
            &&& find_file(files, src.subrange(ds[k].lit_start as int, ds[k].lit_end as int), 0) is Some
            &&& pulled_in(files, src, ds[k]) is Ok
            &&& forall|i: int, j: int|
                0 <= i < pulled_in(files, src, ds[k])->Ok_0.len() && 0 <= j < k
                    && ds[j].kind != DeclKind::Doc ==> (#[trigger] pulled_in(files, src, ds[k])->Ok_0[i]).name
                    != decl_name(src, #[trigger] ds[j])
        }),
    ensures
        resolve_spec(files, src, id) == Ok::<Seq<Def>, Failure>(
            defs_upto(src, id, parse_spec(src)->Ok_0, parse_spec(src)->Ok_0.len() - 1)
                + pulled_in(files, src, parse_spec(src)->Ok_0[parse_spec(src)->Ok_0.len() - 1])->Ok_0,
        ),
{
    let ds = parse_spec(src)->Ok_0;
    let k = ds.len() - 1;
    let d = ds[k];
    let path = src.subrange(d.lit_start as int, d.lit_end as int);
    let f = target(files, src, d);
    lemma_find_file_result(files, path, 0);
    lemma_walk_prefix(files, Seq::empty(), src, id, ds, k);
    let got = pulled_in(files, src, d)->Ok_0;
    lemma_resolved_names_unique_from(files, f as usize, files[f].text@, path);
    let defs = defs_upto(src, id, ds, k);
    assert forall|i: int| 0 <= i < got.len() implies find_def(defs, (#[trigger] got[i]).name, 0) is None by {
        lemma_find_in_prefix(src, id, ds, k, got[i].name);
        assert forall|j: int| 0 <= j < k && ds[j].kind != DeclKind::Doc implies decl_name(src, #[trigger] ds[j]) != got[i].name by {}
    }
    lemma_merge_fresh(defs, got, id, src, d.start as int, d.end as int);
    assert(walk(files, Seq::empty(), src, id, ds, k + 1, defs + got) == Ok::<Seq<Def>, Failure>(defs + got));
}

proof fn lemma_resolved_names_unique_from(files: Seq<SourceFile>, f: usize, text: Seq<char>, path: Seq<char>)
    ensures
        resolve_from(files, Seq::<usize>::empty().push(f), text, path) matches Ok(defs) ==> names_unique(defs),
{
    if let Ok(ds) = parse_spec(text) {
        lemma_walk_unique(files, Seq::<usize>::empty().push(f), text, path, ds, 0, Seq::empty());
    }
}

/// A root grammar that defines distinct names and then pulls in a file one
/// of whose definitions reuses the name of the root's declaration `j`:
/// resolution fails on the first such definition, with the root's
/// definition (under the root's identity) as the existing one and the
/// file's definition as the incoming one, reported at the directive.
pub proof fn lemma_pulled_in_clash(files: Seq<SourceFile>, src: Seq<char>, id: Seq<char>, k: int, i: int, j: int)
    requires
        parse_spec(src) is Ok,
        0 <= j < k < parse_spec(src)->Ok_0.len(),
        ({
            let ds = parse_spec(src)->Ok_0;
            &&& no_inclusion(ds, k)
            &&& names_distinct(src, ds, k)
            &&& ds[k].kind == DeclKind::Include
            &&& ds[j].kind != DeclKind::Doc
            &&& find_file(files, src.subrange(ds[k].lit_start as int, ds[k].lit_end as int), 0) is Some
            &&& pulled_in(files, src, ds[k]) is Ok
            &&& 0 <= i < pulled_in(files, src, ds[k])->Ok_0.len()
            &&& pulled_in(files, src, ds[k])->Ok_0[i].name == decl_name(src, ds[j])
            &&& forall|a: int, b: int|
                0 <= a < i && 0 <= b < k && ds[b].kind != DeclKind::Doc ==> (#[trigger] pulled_in(files, src, ds[k])->Ok_0[a]).name
                    != decl_name(src, #[trigger] ds[b])
        }),
    ensures
        resolve_spec(files, src, id) == Err::<Seq<Def>, Failure>(
            fail(
                Cause::Clash {
                    existing: decl_def(src, id, parse_spec(src)->Ok_0[j]),
                    incoming: pulled_in(files, src, parse_spec(src)->Ok_0[k])->Ok_0[i],
                    grammar: id,
                    text: src,
                    start: parse_spec(src)->Ok_0[k].start as int,
                    end: parse_spec(src)->Ok_0[k].end as int,
                },
            ),
        ),
{
    let ds = parse_spec(src)->Ok_0;
    let d = ds[k];
    let path = src.subrange(d.lit_start as int, d.lit_end as int);
    let f = target(files, src, d);
    lemma_find_file_result(files, path, 0);
    lemma_walk_prefix(files, Seq::empty(), src, id, ds, k);
    let got = pulled_in(files, src, d)->Ok_0;
    lemma_resolved_names_unique_from(files, f as usize, files[f].text@, path);
    let defs = defs_upto(src, id, ds, k);
    assert forall|a: int| 0 <= a < i implies find_def(defs, (#[trigger] got[a]).name, 0) is None by {
        lemma_find_in_prefix(src, id, ds, k, got[a].name);
        assert forall|b: int| 0 <= b < k && ds[b].kind != DeclKind::Doc implies decl_name(src, #[trigger] ds[b]) != got[a].name by {}
    }
    lemma_find_in_prefix(src, id, ds, k, got[i].name);
    lemma_merge_clash(defs, got, id, src, d.start as int, d.end as int, i, decl_def(src, id, ds[j]));
}

/// Stripping documentation from a text that holds none gives the text back.
proof fn lemma_strip_nothing(s: Seq<char>, ds: Seq<Decl>, pos: int, k: int)
    requires
        0 <= k,
        forall|j: int| k <= j < ds.len() ==> (#[trigger] ds[j]).kind != DeclKind::Doc,
    ensures
        strip_docs(s, ds, pos, k) == s.subrange(pos, s.len() as int),
    decreases ds.len() - k,
{
    if k < ds.len() {
        lemma_strip_nothing(s, ds, pos, k + 1);
    }
}

/// Minifying a text without documentation comments leaves it unchanged.
pub proof fn lemma_minify_doc_free(s: Seq<char>)
    requires
        parse_spec(s) is Ok,
        forall|j: int| 0 <= j < parse_spec(s)->Ok_0.len() ==> (#[trigger] parse_spec(s)->Ok_0[j]).kind != DeclKind::Doc,
    ensures
        strip_docs(s, parse_spec(s)->Ok_0, 0, 0) == s,
{
    lemma_strip_nothing(s, parse_spec(s)->Ok_0, 0, 0);
    assert(s.subrange(0, s.len() as int) =~= s);
}

} // verus!
