//! Merging a grammar and the files it pulls in into one namespace of rules
//! and variables, where no name may be defined twice.
use vstd::prelude::*;
use crate::syntax::{decl_fits, parse, parse_spec, opt_int, Decl, DeclKind};
use crate::text::{chars_of, copy_chars, same_chars, slice_chars};

verus! {

/// A definition of the merged namespace: a rule (its whole text) or a
/// variable (its literal value), and the grammar that defined it.
pub struct Def {
    pub name: Seq<char>,
    pub is_rule: bool,
    pub body: Seq<char>,
    pub origin: Seq<char>,
}

/// Why a resolution failed.
pub enum Cause {
    /// The text `text` of grammar `grammar` is malformed at `pos`.
    Syntax { grammar: Seq<char>, text: Seq<char>, pos: int },
    /// `incoming`, seen while resolving `grammar` (whose text is `text`) at
    /// `start..end`, reuses the name of `existing`.
    Clash { existing: Def, incoming: Def, grammar: Seq<char>, text: Seq<char>, start: int, end: int },
    /// No file is known under `path`, named at `start..end` of `text`.
    Missing { path: Seq<char>, text: Seq<char>, start: int, end: int },
    /// `path`, named at `start..end` of `text`, is already being resolved
    /// further up.
    Cycle { path: Seq<char>, text: Seq<char>, start: int, end: int },
}

/// A failure, with the paths of the files through which it was reached,
/// outermost first.
pub struct Failure {
    pub chain: Seq<Seq<char>>,
    pub cause: Cause,
}

/// A file that a grammar may pull in, under the path that names it.
pub struct SourceFile {
    pub path: String,
    pub text: String,
}

/// A resolved definition.
pub struct Definition {
    pub name: Vec<char>,
    pub is_rule: bool,
    pub body: Vec<char>,
    pub origin: Vec<char>,
}

impl View for Definition {
    type V = Def;

    open spec fn view(&self) -> Def {
        Def { name: self.name@, is_rule: self.is_rule, body: self.body@, origin: self.origin@ }
    }
}

/// Why a resolution failed.
pub enum ErrorCause {
    Syntax { grammar: Vec<char>, text: Vec<char>, pos: usize },
    Clash {
        existing: Definition,
        incoming: Definition,
        grammar: Vec<char>,
        text: Vec<char>,
        start: usize,
        end: usize,
    },
    Missing { path: Vec<char>, text: Vec<char>, start: usize, end: usize },
    Cycle { path: Vec<char>, text: Vec<char>, start: usize, end: usize },
}

impl View for ErrorCause {
    type V = Cause;

    open spec fn view(&self) -> Cause {
        match self {
            ErrorCause::Syntax { grammar, text, pos } => Cause::Syntax {
                grammar: grammar@,
                text: text@,
                pos: *pos as int,
            },
            ErrorCause::Clash { existing, incoming, grammar, text, start, end } => Cause::Clash {
                existing: existing@,
                incoming: incoming@,
                grammar: grammar@,
                text: text@,
                start: *start as int,
                end: *end as int,
            },
            ErrorCause::Missing { path, text, start, end } => Cause::Missing {
                path: path@,
                text: text@,
                start: *start as int,
                end: *end as int,
            },
            ErrorCause::Cycle { path, text, start, end } => Cause::Cycle {
                path: path@,
                text: text@,
                start: *start as int,
                end: *end as int,
            },
        }
    }
}

/// A failed resolution.
pub struct GrammarError {
    pub chain: Vec<Vec<char>>,
    pub cause: ErrorCause,
}

pub open spec fn chain_view(c: Seq<Vec<char>>) -> Seq<Seq<char>> {
    c.map_values(|p: Vec<char>| p@)
}

impl View for GrammarError {
    type V = Failure;

    open spec fn view(&self) -> Failure {
        Failure { chain: chain_view(self.chain@), cause: self.cause@ }
    }
}

pub open spec fn defs_view(v: Seq<Definition>) -> Seq<Def> {
    v.map_values(|d: Definition| d@)
}

pub open spec fn result_view(r: Result<Vec<Definition>, GrammarError>) -> Result<Seq<Def>, Failure> {
    match r {
        Ok(v) => Ok(defs_view(v@)),
        Err(e) => Err(e@),
    }
}

/// Index of the first file known under `path`, from `i` on.
pub open spec fn find_file(files: Seq<SourceFile>, path: Seq<char>, i: int) -> Option<int>
    decreases files.len() - i,
{
    if i < 0 || i >= files.len() {
        None
    } else if files[i].path@ == path {
        Some(i)
    } else {
        find_file(files, path, i + 1)
    }
}

/// Index of the first definition of `name`, from `i` on.
pub open spec fn find_def(defs: Seq<Def>, name: Seq<char>, i: int) -> Option<int>
    decreases defs.len() - i,
{
    if i < 0 || i >= defs.len() {
        None
    } else if defs[i].name == name {
        Some(i)
    } else {
        find_def(defs, name, i + 1)
    }
}

/// The positions of a failure lie within the text they point into.
pub open spec fn cause_fits(c: Cause) -> bool {
    match c {
        Cause::Syntax { grammar, text, pos } => 0 <= pos <= text.len(),
        Cause::Clash { existing, incoming, grammar, text, start, end } => 0 <= start <= end <= text.len(),
        Cause::Missing { path, text, start, end } => 0 <= start <= end <= text.len(),
        Cause::Cycle { path, text, start, end } => 0 <= start <= end <= text.len(),
    }
}

pub open spec fn fail(cause: Cause) -> Failure {
    Failure { chain: Seq::empty(), cause }
}

/// Adds `d` behind `defs`, unless its name is taken.
pub open spec fn add_def(
    defs: Seq<Def>,
    d: Def,
    grammar: Seq<char>,
    text: Seq<char>,
    start: int,
    end: int,
) -> Result<
    Seq<Def>,
    Failure,
> {
    match find_def(defs, d.name, 0) {
        Some(k) => Err(
            fail(Cause::Clash { existing: defs[k], incoming: d, grammar, text, start, end }),
        ),
        None => Ok(defs.push(d)),
    }
}

/// Adds the definitions of `new` one after another, as `add_def` does.
pub open spec fn merge(
    defs: Seq<Def>,
    new: Seq<Def>,
    grammar: Seq<char>,
    text: Seq<char>,
    start: int,
    end: int,
) -> Result<
    Seq<Def>,
    Failure,
>
    decreases new.len(),
{
    if new.len() == 0 {
        Ok(defs)
    } else {
        match add_def(defs, new[0], grammar, text, start, end) {
            Ok(next) => merge(next, new.drop_first(), grammar, text, start, end),
            Err(e) => Err(e),
        }
    }
}

/// The definition that a rule or variable declaration makes.
pub open spec fn decl_def(src: Seq<char>, id: Seq<char>, d: Decl) -> Def {
    if d.kind == DeclKind::Rule {
        Def {
            name: src.subrange(d.start as int, d.key_end as int),
            is_rule: true,
            body: src.subrange(d.start as int, d.end as int),
            origin: id,
        }
    } else {
        Def {
            name: src.subrange(d.start as int, d.key_end as int),
            is_rule: false,
            body: src.subrange(d.lit_start as int, d.lit_end as int),
            origin: id,
        }
    }
}

/// Resolves the declarations `decls[k..]` of grammar `id`, whose text is
/// `src`, after the definitions `defs`. `stack` holds the files being
/// resolved further up; a chain of files longer than the list of files must
/// repeat one, so it counts as a cycle too.
pub open spec fn walk(
    files: Seq<SourceFile>,
    stack: Seq<usize>,
    src: Seq<char>,
    id: Seq<char>,
    decls: Seq<Decl>,
    k: int,
    defs: Seq<Def>,
) -> Result<Seq<Def>, Failure>
    decreases files.len() - stack.len(), decls.len() - k,
{
    if k < 0 || k >= decls.len() {
        Ok(defs)
    } else {
        let d = decls[k];
        if d.kind == DeclKind::Doc {
            walk(files, stack, src, id, decls, k + 1, defs)
        } else if d.kind == DeclKind::Rule || d.kind == DeclKind::Variable {
            match add_def(defs, decl_def(src, id, d), id, src, d.start as int, d.end as int) {
                Ok(next) => walk(files, stack, src, id, decls, k + 1, next),
                Err(e) => Err(e),
            }
        } else {
            let path = src.subrange(d.lit_start as int, d.lit_end as int);
            match find_file(files, path, 0) {
                None => Err(
                    fail(Cause::Missing { path, text: src, start: d.start as int, end: d.end as int }),
                ),
                Some(f) => if stack.contains(f as usize) || stack.len() >= files.len() {
                    Err(fail(Cause::Cycle { path, text: src, start: d.start as int, end: d.end as int }))
                } else {
                    let text = files[f].text@;
                    let sub = match parse_spec(text) {
                        Err(pos) => Err(fail(Cause::Syntax { grammar: path, text, pos })),
                        Ok(ds) => walk(files, stack.push(f as usize), text, path, ds, 0, Seq::empty()),
                    };
                    match sub {
                        Err(e) => Err(Failure { chain: seq![path] + e.chain, cause: e.cause }),
                        Ok(got) => match merge(defs, got, id, src, d.start as int, d.end as int) {
                            Ok(next) => walk(files, stack, src, id, decls, k + 1, next),
                            Err(e) => Err(e),
                        },
                    }
                },
            }
        }
    }
}

/// Resolves grammar `id`, whose text is `src`, while the files `stack` are
/// being resolved further up.
pub open spec fn resolve_from(files: Seq<SourceFile>, stack: Seq<usize>, src: Seq<char>, id: Seq<char>) -> Result<
    Seq<Def>,
    Failure,
> {
    match parse_spec(src) {
        Err(pos) => Err(fail(Cause::Syntax { grammar: id, text: src, pos })),
        Ok(ds) => walk(files, stack, src, id, ds, 0, Seq::empty()),
    }
}

/// Resolves a root grammar.
pub open spec fn resolve_spec(files: Seq<SourceFile>, src: Seq<char>, id: Seq<char>) -> Result<
    Seq<Def>,
    Failure,
> {
    resolve_from(files, Seq::empty(), src, id)
}

fn copy_definition(d: &Definition) -> (r: Definition)
    ensures
        r@ == d@,
{
    Definition {
        name: copy_chars(&d.name),
        is_rule: d.is_rule,
        body: copy_chars(&d.body),
        origin: copy_chars(&d.origin),
    }
}

fn find_definition(defs: &Vec<Definition>, name: &Vec<char>) -> (r: Option<usize>)
    ensures
        opt_int(r) == find_def(defs_view(defs@), name@, 0),
        r matches Some(k) ==> k < defs.len(),
{
    let mut i: usize = 0;
    while i < defs.len()
        invariant
            i <= defs.len(),
            find_def(defs_view(defs@), name@, i as int) == find_def(defs_view(defs@), name@, 0),
        decreases defs.len() - i,
    {
        if same_chars(&defs[i].name, name) {
            return Some(i);
        }
        i = i + 1;
    }
    None
}

fn add_definition(
    defs: &mut Vec<Definition>,
    d: Definition,
    grammar: &Vec<char>,
    text: &Vec<char>,
    start: usize,
    end: usize,
) -> (r: Result<(), GrammarError>)
    requires
        start <= end <= text.len(),
    ensures
        r matches Err(x) ==> cause_fits(x@.cause),
        match add_def(defs_view(old(defs)@), d@, grammar@, text@, start as int, end as int) {
            Ok(next) => r is Ok && defs_view(final(defs)@) == next,
            Err(e) => r matches Err(x) && x@ == e,
        },
{
    match find_definition(defs, &d.name) {
        Some(k) => {
            let existing = copy_definition(&defs[k]);
            let e = GrammarError {
                chain: Vec::new(),
                cause: ErrorCause::Clash {
                    existing,
                    incoming: d,
                    grammar: copy_chars(grammar),
                    text: copy_chars(text),
                    start,
                    end,
                },
            };
            assert(chain_view(e.chain@) =~= Seq::empty());
            Err(e)
        },
        None => {
            let ghost before = defs@;
            defs.push(d);
            assert(defs_view(defs@) =~= defs_view(before).push(d@));
            Ok(())
        },
    }
}

fn merge_into(
    defs: &mut Vec<Definition>,
    new: &Vec<Definition>,
    grammar: &Vec<char>,
    text: &Vec<char>,
    start: usize,
    end: usize,
) -> (r: Result<(), GrammarError>)
    requires
        start <= end <= text.len(),
    ensures
        r matches Err(x) ==> cause_fits(x@.cause),
        match merge(defs_view(old(defs)@), defs_view(new@), grammar@, text@, start as int, end as int) {
            Ok(next) => r is Ok && defs_view(final(defs)@) == next,
            Err(e) => r matches Err(x) && x@ == e,
        },
{
    let ghost whole = defs_view(new@);
    let mut i: usize = 0;
    assert(whole.subrange(0, whole.len() as int) =~= whole);
    while i < new.len()
        invariant
            i <= new.len(),
            start <= end <= text.len(),
            whole == defs_view(new@),
            merge(defs_view(defs@), whole.subrange(i as int, whole.len() as int), grammar@, text@, start as int, end as int)
                == merge(defs_view(old(defs)@), whole, grammar@, text@, start as int, end as int),
        decreases new.len() - i,
    {
        let ghost rest = whole.subrange(i as int, whole.len() as int);
        assert(rest.drop_first() =~= whole.subrange(i + 1, whole.len() as int));
        assert(rest[0] == new@[i as int]@);
        let d = copy_definition(&new[i]);
        match add_definition(defs, d, grammar, text, start, end) {
            Ok(()) => {},
            Err(e) => return Err(e),
        }
        i = i + 1;
    }
    assert(whole.subrange(i as int, whole.len() as int).len() == 0);
    Ok(())
}

fn find_source(files: &Vec<SourceFile>, path: &Vec<char>) -> (r: Option<usize>)
    ensures
        opt_int(r) == find_file(files@, path@, 0),
        r matches Some(k) ==> k < files.len(),
{
    let mut i: usize = 0;
    while i < files.len()
        invariant
            i <= files.len(),
            find_file(files@, path@, i as int) == find_file(files@, path@, 0),
        decreases files.len() - i,
    {
        let p = chars_of(files[i].path.as_str());
        if same_chars(&p, path) {
            return Some(i);
        }
        i = i + 1;
    }
    None
}

fn on_stack(stack: &Vec<usize>, f: usize) -> (r: bool)
    ensures
        r == stack@.contains(f),
{
    let mut i: usize = 0;
    while i < stack.len()
        invariant
            i <= stack.len(),
            forall|j: int| 0 <= j < i ==> stack@[j] != f,
        decreases stack.len() - i,
    {
        if stack[i] == f {
            return true;
        }
        i = i + 1;
    }
    false
}

fn nest_error(path: &Vec<char>, e: GrammarError) -> (r: GrammarError)
    ensures
        r@ == (Failure { chain: seq![path@] + e@.chain, cause: e@.cause }),
{
    let mut chain: Vec<Vec<char>> = Vec::new();
    chain.push(copy_chars(path));
    let GrammarError { chain: inner, cause } = e;
    let mut i: usize = 0;
    while i < inner.len()
        invariant
            i <= inner.len(),
            chain_view(chain@) == seq![path@] + chain_view(inner@).take(i as int),
        decreases inner.len() - i,
    {
        let p = copy_chars(&inner[i]);
        let ghost before = chain@;
        chain.push(p);
        assert(chain_view(chain@) =~= chain_view(before).push(inner@[i as int]@));
        assert(chain_view(inner@).take(i + 1) =~= chain_view(inner@).take(i as int).push(
            inner@[i as int]@,
        ));
        assert(chain_view(chain@) =~= seq![path@] + chain_view(inner@).take(i + 1));
        i = i + 1;
    }
    assert(chain_view(inner@).take(i as int) =~= chain_view(inner@));
    GrammarError { chain, cause }
}

/// Resolves grammar `id`, whose text is `src`, while the files `stack` are
/// being resolved further up.
pub fn resolve_source(
    files: &Vec<SourceFile>,
    stack: &mut Vec<usize>,
    src: &Vec<char>,
    id: &Vec<char>,
) -> (r: Result<Vec<Definition>, GrammarError>)
    requires
        old(stack).len() <= files.len(),
    ensures
        final(stack)@ == old(stack)@,
        result_view(r) == resolve_from(files@, old(stack)@, src@, id@),
        r matches Err(e) ==> cause_fits(e@.cause),
    decreases files.len() - old(stack).len(),
{
    let ds = match parse(src) {
        Ok(ds) => ds,
        Err(pos) => {
            let e = GrammarError {
                chain: Vec::new(),
                cause: ErrorCause::Syntax { grammar: copy_chars(id), text: copy_chars(src), pos },
            };
            assert(chain_view(e.chain@) =~= Seq::empty());
            return Err(e);
        },
    };
    let mut defs: Vec<Definition> = Vec::new();
    let mut k: usize = 0;
    assert(defs_view(defs@) =~= Seq::empty());
    while k < ds.len()
        invariant
            stack@ == old(stack)@,
            stack.len() <= files.len(),
            k <= ds.len(),
            parse_spec(src@) == Ok::<Seq<Decl>, int>(ds@),
            forall|j: int| 0 <= j < ds.len() ==> decl_fits(#[trigger] ds@[j], src.len() as int),
            walk(files@, stack@, src@, id@, ds@, k as int, defs_view(defs@))
                == walk(files@, stack@, src@, id@, ds@, 0, Seq::empty()),
        decreases ds.len() - k,
    {
        let d = ds[k];
        assert(decl_fits(ds@[k as int], src.len() as int));
        if d.kind == DeclKind::Rule || d.kind == DeclKind::Variable {
            let def = if d.kind == DeclKind::Rule {
                Definition {
                    name: slice_chars(src, d.start, d.key_end),
                    is_rule: true,
                    body: slice_chars(src, d.start, d.end),
                    origin: copy_chars(id),
                }
            } else {
                Definition {
                    name: slice_chars(src, d.start, d.key_end),
                    is_rule: false,
                    body: slice_chars(src, d.lit_start, d.lit_end),
                    origin: copy_chars(id),
                }
            };
            assert(def@ == decl_def(src@, id@, d));
            match add_definition(&mut defs, def, id, src, d.start, d.end) {
                Ok(()) => {},
                Err(e) => return Err(e),
            }
        } else if d.kind == DeclKind::Include {
            let path = slice_chars(src, d.lit_start, d.lit_end);
            let f = match find_source(files, &path) {
                Some(f) => f,
                None => {
                    let e = GrammarError {
                        chain: Vec::new(),
                        cause: ErrorCause::Missing { path, text: copy_chars(src), start: d.start, end: d.end },
                    };
                    assert(chain_view(e.chain@) =~= Seq::empty());
                    return Err(e);
                },
            };
            if on_stack(stack, f) || stack.len() >= files.len() {
                let e = GrammarError {
                    chain: Vec::new(),
                    cause: ErrorCause::Cycle { path, text: copy_chars(src), start: d.start, end: d.end },
                };
                assert(chain_view(e.chain@) =~= Seq::empty());
                return Err(e);
            }
            let text = chars_of(files[f].text.as_str());
            let ghost outer = stack@;
            stack.push(f);
            let sub = resolve_source(files, stack, &text, &path);
            stack.pop();
            assert(stack@ =~= outer);
            assert(result_view(sub) == resolve_from(files@, outer.push(f), files@[f as int].text@, path@));
            match sub {
                Err(e) => {
                    return Err(nest_error(&path, e));
                },
                Ok(got) => {
                    assert(resolve_from(files@, outer.push(f), files@[f as int].text@, path@) == Ok::<Seq<Def>, Failure>(defs_view(got@)));
                    match merge_into(&mut defs, &got, id, src, d.start, d.end) {
                        Ok(()) => {},
                        Err(e) => return Err(e),
                    }
                        },
            }
        }
        k = k + 1;
    }
    Ok(defs)
}

} // verus!
