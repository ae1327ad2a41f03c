//! Formatting and documentation stripping of grammar text.
use vstd::prelude::*;
use crate::syntax::{decls_ordered, decl_fits, parse, parse_spec, Decl, DeclKind};
use crate::text::{chars_of, slice_chars, append_chars, string_of};
use pest_fmt::PestError;

verus! {

#[verifier::external_type_specification]
#[verifier::external_body]
pub struct ExPestError(PestError);

/// What `pest_fmt` makes of a grammar text it can format.
pub uninterp spec fn pest_fmt_output(s: Seq<char>) -> Seq<char>;

/// Relies on `pest_fmt::Formatter::format`: the formatted text depends on the
/// input alone.
#[verifier::external_body]
fn run_formatter(src: &str) -> (r: Result<String, PestError>)
    ensures
        r matches Ok(t) ==> t@ == pest_fmt_output(src@),
{
    pest_fmt::Formatter::new(src).format()
}

/// Pretty-prints grammar text.
pub fn format(src: String) -> (r: Result<String, PestError>)
    ensures
        r matches Ok(t) ==> t@ == pest_fmt_output(src@),
{
    run_formatter(src.as_str())
}

/// `s` from `pos` on, without the documentation comments among `ds[k..]`.
pub open spec fn strip_docs(s: Seq<char>, ds: Seq<Decl>, pos: int, k: int) -> Seq<char>
    decreases ds.len() - k,
{
    if k < 0 || k >= ds.len() {
        s.subrange(pos, s.len() as int)
    } else if ds[k].kind == DeclKind::Doc {
        s.subrange(pos, ds[k].start as int) + strip_docs(s, ds, ds[k].end as int, k + 1)
    } else {
        strip_docs(s, ds, pos, k + 1)
    }
}

/// Removes every documentation comment from grammar text and keeps all other
/// characters as they are; gives the position of a syntax error instead
/// where the text does not parse.
pub fn minify(src: String) -> (r: Result<String, usize>)
    ensures
        match parse_spec(src@) {
            Ok(ds) => r matches Ok(t) && t@ == strip_docs(src@, ds, 0, 0),
            Err(p) => r matches Err(e) && e as int == p,
        },
{
    let s = chars_of(src.as_str());
    let ds = match parse(&s) {
        Ok(ds) => ds,
        Err(e) => return Err(e),
    };
    let mut out: Vec<char> = Vec::new();
    let mut pos: usize = 0;
    let mut k: usize = 0;
    while k < ds.len()
        invariant
            k <= ds.len(),
            pos <= s.len(),
            decls_ordered(ds@),
            forall|j: int| 0 <= j < ds.len() ==> decl_fits(#[trigger] ds@[j], s.len() as int),
            k > 0 ==> pos <= ds@[k - 1].end,
            k == 0 ==> pos == 0,
            out@ + strip_docs(s@, ds@, pos as int, k as int) == strip_docs(s@, ds@, 0, 0),
        decreases ds.len() - k,
    {
        let d = ds[k];
        assert(decl_fits(ds@[k as int], s.len() as int));
        if k > 0 {
            assert(ds@[k - 1].end <= ds@[k as int].start);
        }
        if d.kind == DeclKind::Doc {
            let piece = slice_chars(&s, pos, d.start);
            let ghost before = out@;
            append_chars(&mut out, &piece);
            assert(before + strip_docs(s@, ds@, pos as int, k as int) =~= out@ + strip_docs(
                s@,
                ds@,
                d.end as int,
                k + 1,
            ));
            pos = d.end;
        } else {
            assert(k > 0 ==> ds@[k - 1].end <= d.end);
        }
        k = k + 1;
    }
    let rest = slice_chars(&s, pos, s.len());
    append_chars(&mut out, &rest);
    Ok(string_of(&out))
}

} // verus!
