//! Scanner for the extended grammar syntax: rule definitions, string
//! variables, file inclusion directives and documentation comments.
use vstd::prelude::*;

verus! {

/// The parser of the extended grammar syntax.
pub struct PestParser;

impl PestParser {
    /// The top-level declarations of `src`, or the position of its first
    /// syntax error.
    pub fn parse_source(src: &str) -> (r: Result<Vec<Decl>, usize>)
        ensures
            match r {
                Ok(v) => parse_spec(src@) == Ok::<Seq<Decl>, int>(v@),
                Err(e) => parse_spec(src@) == Err::<Seq<Decl>, int>(e as int),
            },
    {
        let s = crate::text::chars_of(src);
        parse(&s)
    }
}

/// What a top-level declaration is.
#[derive(Clone, Copy, PartialEq, Eq, Structural, Debug)]
pub enum DeclKind {
    /// `name = modifier? { body }`
    Rule,
    /// `name = "value"`
    Variable,
    /// `#include "path"`
    Include,
    /// `/// text` or `//! text`
    Doc,
}

/// One top-level declaration, as positions (in characters) into the source.
///
/// `start..end` is the whole declaration. For a rule and a variable
/// `start..key_end` is its name. For a variable `lit_start..lit_end` is the
/// text between the quotes of its value, for a file directive that of its path.
#[derive(Clone, Copy, PartialEq, Eq, Structural, Debug)]
pub struct Decl {
    pub kind: DeclKind,
    pub start: usize,
    pub end: usize,
    pub key_end: usize,
    pub lit_start: usize,
    pub lit_end: usize,
}

pub open spec fn is_space(c: char) -> bool {
    c == ' ' || c == '\t' || c == '\n' || c == '\r'
}

pub open spec fn is_ident_start(c: char) -> bool {
    ('a' <= c && c <= 'z') || ('A' <= c && c <= 'Z') || c == '_'
}

pub open spec fn is_ident_char(c: char) -> bool {
    is_ident_start(c) || ('0' <= c && c <= '9')
}

pub open spec fn is_modifier(c: char) -> bool {
    c == '_' || c == '@' || c == '$' || c == '!'
}

/// `///` or `//!` starts at `i`.
pub open spec fn doc_at(s: Seq<char>, i: int) -> bool {
    0 <= i && i + 2 < s.len() && s[i] == '/' && s[i + 1] == '/' && (s[i + 2] == '/' || s[i
        + 2] == '!')
}

/// `#include` starts at `i`.
pub open spec fn directive_at(s: Seq<char>, i: int) -> bool {
    0 <= i && i + 8 <= s.len() && s[i] == '#' && s[i + 1] == 'i' && s[i + 2] == 'n' && s[i + 3]
        == 'c' && s[i + 4] == 'l' && s[i + 5] == 'u' && s[i + 6] == 'd' && s[i + 7] == 'e'
}

/// Where the run of blanks and ordinary comments from `i` ends; `None` where a
/// block comment is left open. Mode 0: between tokens; 1: in a line comment;
/// 2: in a block comment.
pub open spec fn trivia(s: Seq<char>, i: int, mode: int) -> Option<int>
    decreases s.len() - i,
{
    if i < 0 || i >= s.len() {
        if mode == 2 {
            None
        } else {
            Some(i)
        }
    } else if mode == 1 {
        if s[i] == '\n' {
            trivia(s, i + 1, 0)
        } else {
            trivia(s, i + 1, 1)
        }
    } else if mode == 2 {
        if s[i] == '*' && i + 1 < s.len() && s[i + 1] == '/' {
            trivia(s, i + 2, 0)
        } else {
            trivia(s, i + 1, 2)
        }
    } else if is_space(s[i]) {
        trivia(s, i + 1, 0)
    } else if i + 1 < s.len() && s[i] == '/' && s[i + 1] == '/' && !doc_at(s, i) {
        trivia(s, i + 2, 1)
    } else if i + 1 < s.len() && s[i] == '/' && s[i + 1] == '*' {
        trivia(s, i + 2, 2)
    } else {
        Some(i)
    }
}

pub open spec fn skip_trivia_spec(s: Seq<char>, i: int) -> Option<int> {
    trivia(s, i, 0)
}

/// End of the identifier that starts at `i`.
pub open spec fn ident_end(s: Seq<char>, i: int) -> int
    decreases s.len() - i,
{
    if 0 <= i < s.len() && is_ident_char(s[i]) {
        ident_end(s, i + 1)
    } else {
        i
    }
}

/// End of the line that holds `i` (the newline itself is not part of it).
pub open spec fn line_end(s: Seq<char>, i: int) -> int
    decreases s.len() - i,
{
    if 0 <= i < s.len() && s[i] != '\n' {
        line_end(s, i + 1)
    } else {
        i
    }
}

/// Position of the quote that closes a string literal whose text starts at
/// `i`; a backslash escapes the character after it.
pub open spec fn quote_end(s: Seq<char>, i: int) -> Option<int>
    decreases s.len() - i,
{
    if i < 0 || i >= s.len() {
        None
    } else if s[i] == '"' {
        Some(i)
    } else if s[i] == '\\' {
        if i + 1 < s.len() {
            quote_end(s, i + 2)
        } else {
            None
        }
    } else {
        quote_end(s, i + 1)
    }
}

/// Position of the brace that closes a rule body, scanning from `i` at
/// nesting `depth`. Braces inside string and character literals and inside
/// comments do not count. Mode 0: code; 1: in `"..."`; 2: in `'...'`;
/// 3: in a line comment; 4: in a block comment.
pub open spec fn body_end(s: Seq<char>, i: int, depth: nat, mode: int) -> Option<int>
    decreases s.len() - i,
{
    if i < 0 || i >= s.len() {
        None
    } else if mode == 1 || mode == 2 {
        let q = if mode == 1 {
            '"'
        } else {
            '\''
        };
        if s[i] == '\\' {
            if i + 1 < s.len() {
                body_end(s, i + 2, depth, mode)
            } else {
                None
            }
        } else if s[i] == q {
            body_end(s, i + 1, depth, 0)
        } else {
            body_end(s, i + 1, depth, mode)
        }
    } else if mode == 3 {
        if s[i] == '\n' {
            body_end(s, i + 1, depth, 0)
        } else {
            body_end(s, i + 1, depth, 3)
        }
    } else if mode == 4 {
        if s[i] == '*' && i + 1 < s.len() && s[i + 1] == '/' {
            body_end(s, i + 2, depth, 0)
        } else {
            body_end(s, i + 1, depth, 4)
        }
    } else if s[i] == '}' {
        if depth == 0 {
            Some(i)
        } else {
            body_end(s, i + 1, (depth - 1) as nat, 0)
        }
    } else if s[i] == '{' {
        body_end(s, i + 1, depth + 1, 0)
    } else if s[i] == '"' {
        body_end(s, i + 1, depth, 1)
    } else if s[i] == '\'' {
        body_end(s, i + 1, depth, 2)
    } else if i + 1 < s.len() && s[i] == '/' && s[i + 1] == '/' {
        body_end(s, i + 2, depth, 3)
    } else if i + 1 < s.len() && s[i] == '/' && s[i + 1] == '*' {
        body_end(s, i + 2, depth, 4)
    } else {
        body_end(s, i + 1, depth, 0)
    }
}


/// The declaration that starts at `j`, where no blank or comment stands;
/// `None` where none does.
pub open spec fn decl_at(s: Seq<char>, j: int) -> Option<Decl> {
    if doc_at(s, j) {
        Some(
            Decl {
                kind: DeclKind::Doc,
                start: j as usize,
                end: line_end(s, j + 3) as usize,
                key_end: j as usize,
                lit_start: j as usize,
                lit_end: j as usize,
            },
        )
    } else if directive_at(s, j) {
        match trivia(s, j + 8, 0) {
            Some(k) => if k < s.len() && s[k] == '"' {
                match quote_end(s, k + 1) {
                    Some(q) => Some(
                        Decl {
                            kind: DeclKind::Include,
                            start: j as usize,
                            end: (q + 1) as usize,
                            key_end: j as usize,
                            lit_start: (k + 1) as usize,
                            lit_end: q as usize,
                        },
                    ),
                    None => None,
                }
            } else {
                None
            },
            None => None,
        }
    } else if 0 <= j < s.len() && is_ident_start(s[j]) {
        let n = ident_end(s, j);
        match trivia(s, n, 0) {
            Some(k) => if k < s.len() && s[k] == '=' {
                match trivia(s, k + 1, 0) {
                    Some(m) => if m < s.len() && s[m] == '"' {
                        match quote_end(s, m + 1) {
                            Some(q) => Some(
                                Decl {
                                    kind: DeclKind::Variable,
                                    start: j as usize,
                                    end: (q + 1) as usize,
                                    key_end: n as usize,
                                    lit_start: (m + 1) as usize,
                                    lit_end: q as usize,
                                },
                            ),
                            None => None,
                        }
                    } else if m < s.len() {
                        let b = if is_modifier(s[m]) {
                            trivia(s, m + 1, 0)
                        } else {
                            Some(m)
                        };
                        match b {
                            Some(o) => if o < s.len() && s[o] == '{' {
                                match body_end(s, o + 1, 0, 0) {
                                    Some(c) => Some(
                                        Decl {
                                            kind: DeclKind::Rule,
                                            start: j as usize,
                                            end: (c + 1) as usize,
                                            key_end: n as usize,
                                            lit_start: j as usize,
                                            lit_end: j as usize,
                                        },
                                    ),
                                    None => None,
                                }
                            } else {
                                None
                            },
                            None => None,
                        }
                    } else {
                        None
                    },
                    None => None,
                }
            } else {
                None
            },
            None => None,
        }
    } else {
        None
    }
}

/// The declarations of `s` from `i` on, or the position of the first
/// character where none can start.
pub open spec fn parse_from(s: Seq<char>, i: int) -> Result<Seq<Decl>, int>
    decreases s.len() - i,
{
    match trivia(s, i, 0) {
        None => Err(i),
        Some(j) => if j < 0 || j >= s.len() {
            Ok(Seq::empty())
        } else {
            match decl_at(s, j) {
                None => Err(j),
                Some(d) => if i < d.end && d.end <= s.len() {
                    match parse_from(s, d.end as int) {
                        Ok(r) => Ok(seq![d] + r),
                        Err(e) => Err(e),
                    }
                } else {
                    Err(j)
                },
            }
        },
    }
}

/// The declarations of a whole source text.
pub open spec fn parse_spec(s: Seq<char>) -> Result<Seq<Decl>, int> {
    parse_from(s, 0)
}

/// The positions of `d` lie in order within a text of length `n`.
pub open spec fn decl_fits(d: Decl, n: int) -> bool {
    d.start <= d.key_end <= d.end <= n && d.start <= d.lit_start <= d.lit_end <= d.end
}

/// Each declaration ends before the next one starts.
pub open spec fn decls_ordered(ds: Seq<Decl>) -> bool {
    forall|j: int, k: int| 0 <= j < k < ds.len() ==> ds[j].end <= ds[k].start
}

pub open spec fn opt_int(r: Option<usize>) -> Option<int> {
    match r {
        Some(k) => Some(k as int),
        None => None,
    }
}

fn space_char(c: char) -> (r: bool)
    ensures
        r == is_space(c),
{
    c == ' ' || c == '\t' || c == '\n' || c == '\r'
}

fn ident_start_char(c: char) -> (r: bool)
    ensures
        r == is_ident_start(c),
{
    ('a' <= c && c <= 'z') || ('A' <= c && c <= 'Z') || c == '_'
}

fn ident_char(c: char) -> (r: bool)
    ensures
        r == is_ident_char(c),
{
    ident_start_char(c) || ('0' <= c && c <= '9')
}

fn modifier_char(c: char) -> (r: bool)
    ensures
        r == is_modifier(c),
{
    c == '_' || c == '@' || c == '$' || c == '!'
}

fn doc_starts(s: &Vec<char>, i: usize) -> (r: bool)
    ensures
        r == doc_at(s@, i as int),
{
    i < s.len() && s.len() - i > 2 && s[i] == '/' && s[i + 1] == '/' && (s[i + 2] == '/' || s[i
        + 2] == '!')
}

fn directive_starts(s: &Vec<char>, i: usize) -> (r: bool)
    ensures
        r == directive_at(s@, i as int),
{
    i < s.len() && s.len() - i >= 8 && s[i] == '#' && s[i + 1] == 'i' && s[i + 2] == 'n' && s[i
        + 3] == 'c' && s[i + 4] == 'l' && s[i + 5] == 'u' && s[i + 6] == 'd' && s[i + 7] == 'e'
}

/// Skips blanks and ordinary comments from `i`.
pub fn skip_trivia(s: &Vec<char>, i: usize) -> (r: Option<usize>)
    requires
        i <= s.len(),
    ensures
        opt_int(r) == trivia(s@, i as int, 0),
        r matches Some(k) ==> i <= k <= s.len(),
{
    let mut k: usize = i;
    let mut mode: u8 = 0;
    while k < s.len()
        invariant
            i <= k <= s.len(),
            mode <= 2,
            trivia(s@, k as int, mode as int) == trivia(s@, i as int, 0),
        decreases s.len() - k,
    {
        if mode == 1 {
            if s[k] == '\n' {
                mode = 0;
            }
            k = k + 1;
        } else if mode == 2 {
            if s[k] == '*' && k + 1 < s.len() && s[k + 1] == '/' {
                k = k + 2;
                mode = 0;
            } else {
                k = k + 1;
            }
        } else if space_char(s[k]) {
            k = k + 1;
        } else if k + 1 < s.len() && s[k] == '/' && s[k + 1] == '/' && !doc_starts(s, k) {
            k = k + 2;
            mode = 1;
        } else if k + 1 < s.len() && s[k] == '/' && s[k + 1] == '*' {
            k = k + 2;
            mode = 2;
        } else {
            return Some(k);
        }
    }
    if mode == 2 {
        None
    } else {
        Some(k)
    }
}

fn scan_ident(s: &Vec<char>, i: usize) -> (r: usize)
    requires
        i <= s.len(),
    ensures
        r as int == ident_end(s@, i as int),
        i <= r <= s.len(),
{
    let mut k: usize = i;
    while k < s.len() && ident_char(s[k])
        invariant
            i <= k <= s.len(),
            ident_end(s@, k as int) == ident_end(s@, i as int),
        decreases s.len() - k,
    {
        k = k + 1;
    }
    k
}

fn scan_line(s: &Vec<char>, i: usize) -> (r: usize)
    requires
        i <= s.len(),
    ensures
        r as int == line_end(s@, i as int),
        i <= r <= s.len(),
{
    let mut k: usize = i;
    while k < s.len() && s[k] != '\n'
        invariant
            i <= k <= s.len(),
            line_end(s@, k as int) == line_end(s@, i as int),
        decreases s.len() - k,
    {
        k = k + 1;
    }
    k
}

fn scan_quote(s: &Vec<char>, i: usize) -> (r: Option<usize>)
    requires
        i <= s.len(),
    ensures
        opt_int(r) == quote_end(s@, i as int),
        r matches Some(k) ==> i <= k < s.len(),
{
    let mut k: usize = i;
    while k < s.len()
        invariant
            i <= k <= s.len(),
            quote_end(s@, k as int) == quote_end(s@, i as int),
        decreases s.len() - k,
    {
        if s[k] == '"' {
            return Some(k);
        } else if s[k] == '\\' {
            if k + 1 < s.len() {
                k = k + 2;
            } else {
                return None;
            }
        } else {
            k = k + 1;
        }
    }
    None
}

fn scan_body(s: &Vec<char>, i: usize) -> (r: Option<usize>)
    requires
        i <= s.len(),
    ensures
        opt_int(r) == body_end(s@, i as int, 0, 0),
        r matches Some(k) ==> i <= k < s.len(),
{
    let mut k: usize = i;
    let mut depth: usize = 0;
    let mut mode: u8 = 0;
    while k < s.len()
        invariant
            i <= k <= s.len(),
            depth <= k,
            mode <= 4,
            body_end(s@, k as int, depth as nat, mode as int) == body_end(s@, i as int, 0, 0),
        decreases s.len() - k,
    {
        let c = s[k];
        if mode == 1 || mode == 2 {
            let q = if mode == 1 {
                '"'
            } else {
                '\''
            };
            if c == '\\' {
                if k + 1 < s.len() {
                    k = k + 2;
                } else {
                    return None;
                }
            } else if c == q {
                k = k + 1;
                mode = 0;
            } else {
                k = k + 1;
            }
        } else if mode == 3 {
            if c == '\n' {
                mode = 0;
            }
            k = k + 1;
        } else if mode == 4 {
            if c == '*' && k + 1 < s.len() && s[k + 1] == '/' {
                k = k + 2;
                mode = 0;
            } else {
                k = k + 1;
            }
        } else if c == '}' {
            if depth == 0 {
                return Some(k);
            }
            depth = depth - 1;
            k = k + 1;
        } else if c == '{' {
            depth = depth + 1;
            k = k + 1;
        } else if c == '"' {
            mode = 1;
            k = k + 1;
        } else if c == '\'' {
            mode = 2;
            k = k + 1;
        } else if k + 1 < s.len() && c == '/' && s[k + 1] == '/' {
            mode = 3;
            k = k + 2;
        } else if k + 1 < s.len() && c == '/' && s[k + 1] == '*' {
            mode = 4;
            k = k + 2;
        } else {
            k = k + 1;
        }
    }
    None
}


fn scan_decl(s: &Vec<char>, j: usize) -> (r: Option<Decl>)
    requires
        j < s.len(),
    ensures
        r == decl_at(s@, j as int),
        r matches Some(d) ==> j <= d.start < d.end <= s.len() && decl_fits(d, s.len() as int),
{
    if doc_starts(s, j) {
        let e = scan_line(s, j + 3);
        return Some(
            Decl { kind: DeclKind::Doc, start: j, end: e, key_end: j, lit_start: j, lit_end: j },
        );
    }
    if directive_starts(s, j) {
        let k = match skip_trivia(s, j + 8) {
            Some(k) => k,
            None => return None,
        };
        if !(k < s.len() && s[k] == '"') {
            return None;
        }
        return match scan_quote(s, k + 1) {
            Some(q) => Some(
                Decl {
                    kind: DeclKind::Include,
                    start: j,
                    end: q + 1,
                    key_end: j,
                    lit_start: k + 1,
                    lit_end: q,
                },
            ),
            None => None,
        };
    }
    if !ident_start_char(s[j]) {
        return None;
    }
    let n = scan_ident(s, j);
    let k = match skip_trivia(s, n) {
        Some(k) => k,
        None => return None,
    };
    if !(k < s.len() && s[k] == '=') {
        return None;
    }
    let m = match skip_trivia(s, k + 1) {
        Some(m) => m,
        None => return None,
    };
    if m >= s.len() {
        return None;
    }
    if s[m] == '"' {
        return match scan_quote(s, m + 1) {
            Some(q) => Some(
                Decl {
                    kind: DeclKind::Variable,
                    start: j,
                    end: q + 1,
                    key_end: n,
                    lit_start: m + 1,
                    lit_end: q,
                },
            ),
            None => None,
        };
    }
    let o = if modifier_char(s[m]) {
        match skip_trivia(s, m + 1) {
            Some(o) => o,
            None => return None,
        }
    } else {
        m
    };
    if !(o < s.len() && s[o] == '{') {
        return None;
    }
    match scan_body(s, o + 1) {
        Some(c) => Some(
            Decl { kind: DeclKind::Rule, start: j, end: c + 1, key_end: n, lit_start: j, lit_end: j },
        ),
        None => None,
    }
}

/// Splits a source text into its top-level declarations, in source order,
/// or gives the position of the first character where no declaration can
/// start.
pub fn parse(s: &Vec<char>) -> (r: Result<Vec<Decl>, usize>)
    ensures
        match r {
            Ok(v) => parse_spec(s@) == Ok::<Seq<Decl>, int>(v@),
            Err(e) => parse_spec(s@) == Err::<Seq<Decl>, int>(e as int),
        },
        r matches Ok(v) ==> forall|k: int| 0 <= k < v.len() ==> decl_fits(#[trigger] v@[k], s.len() as int),
        r matches Ok(v) ==> decls_ordered(v@),
        r matches Err(e) ==> e <= s.len(),
{
    let mut out: Vec<Decl> = Vec::new();
    let mut i: usize = 0;
    loop
        invariant
            i <= s.len(),
            forall|k: int| 0 <= k < out.len() ==> decl_fits(#[trigger] out@[k], s.len() as int),
            forall|k: int| 0 <= k < out.len() ==> (#[trigger] out@[k]).end <= i,
            decls_ordered(out@),
            parse_from(s@, 0) == match parse_from(s@, i as int) {
                Ok(rest) => Ok(out@ + rest),
                Err(e) => Err::<Seq<Decl>, int>(e),
            },
        decreases s.len() - i,
    {
        let j = match skip_trivia(s, i) {
            Some(j) => j,
            None => return Err(i),
        };
        if j >= s.len() {
            assert(out@ + Seq::<Decl>::empty() =~= out@);
            return Ok(out);
        }
        let d = match scan_decl(s, j) {
            Some(d) => d,
            None => return Err(j),
        };
        proof {
            let ghost rest = parse_from(s@, d.end as int);
            if let Ok(r) = rest {
                assert(out@ + (seq![d] + r) =~= out@.push(d) + r);
            }
        }
        out.push(d);
        i = d.end;
    }
}

} // verus!
