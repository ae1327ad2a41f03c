//! Rendering a resolved namespace as grammar text, and a failure as a message.
use vstd::prelude::*;
use crate::resolve::{
    cause_fits, chain_view, defs_view, Cause, Def, Definition, ErrorCause, Failure, GrammarError,
};
use crate::text::{append_chars, append_str, string_of};

verus! {

/// The text emitted for one definition: a rule as written, a variable as a
/// rule that matches its value.
pub open spec fn emission(d: Def) -> Seq<char> {
    if d.is_rule {
        d.body + "\n"@
    } else {
        d.name + " = { \""@ + d.body + "\" }\n"@
    }
}

/// The emissions of `defs`, in order.
pub open spec fn render(defs: Seq<Def>) -> Seq<char>
    decreases defs.len(),
{
    if defs.len() == 0 {
        Seq::empty()
    } else {
        render(defs.drop_last()) + emission(defs.last())
    }
}

fn append_emission(out: &mut Vec<char>, d: &Definition)
    ensures
        final(out)@ == old(out)@ + emission(d@),
{
    if d.is_rule {
        append_chars(out, &d.body);
        append_str(out, "\n");
        assert(final(out)@ =~= old(out)@ + emission(d@));
    } else {
        append_chars(out, &d.name);
        append_str(out, " = { \"");
        append_chars(out, &d.body);
        append_str(out, "\" }\n");
        assert(final(out)@ =~= old(out)@ + emission(d@));
    }
}

/// Renders resolved definitions as grammar text.
pub fn build_grammar(defs: &Vec<Definition>) -> (r: Vec<char>)
    ensures
        r@ == render(defs_view(defs@)),
{
    let mut out: Vec<char> = Vec::new();
    let mut i: usize = 0;
    while i < defs.len()
        invariant
            i <= defs.len(),
            out@ == render(defs_view(defs@).take(i as int)),
        decreases defs.len() - i,
    {
        append_emission(&mut out, &defs[i]);
        let ghost t = defs_view(defs@).take(i + 1);
        assert(t.drop_last() =~= defs_view(defs@).take(i as int));
        i = i + 1;
    }
    assert(defs_view(defs@).take(i as int) =~= defs_view(defs@));
    out
}

/// Who defined `existing`, as seen from grammar `grammar`.
pub open spec fn owner(existing: Def, grammar: Seq<char>) -> Seq<char> {
    if existing.origin == grammar {
        existing.origin
    } else {
        existing.origin + " -> "@ + grammar
    }
}

pub open spec fn kind_word(is_rule: bool) -> Seq<char> {
    if is_rule {
        "Rule"@
    } else {
        "Variable"@
    }
}

pub open spec fn lower_kind_word(is_rule: bool) -> Seq<char> {
    if is_rule {
        "rule"@
    } else {
        "variable"@
    }
}

/// First line of a clash message.
pub open spec fn clash_head(existing: Def, incoming: Def) -> Seq<char> {
    kind_word(incoming.is_rule) + " \""@ + incoming.name + "\" from grammar \""@ + incoming.origin
        + if existing.is_rule == incoming.is_rule {
        "\" already exists here:"@
    } else {
        "\" conflicts with "@ + lower_kind_word(existing.is_rule) + " \""@ + existing.name + "\":"@
    }
}

/// The message of a failure, before it is placed in its text.
pub open spec fn cause_body(c: Cause) -> Seq<char> {
    match c {
        Cause::Syntax { grammar, text, pos } => "Grammar \""@ + grammar
            + "\" holds no valid declaration here"@,
        Cause::Missing { path, text, start, end } => "Path doesn't exists: "@ + path,
        Cause::Cycle { path, text, start, end } => "Grammar \""@ + path + "\" is already being read"@,
        Cause::Clash { existing, incoming, grammar, text, start, end } => clash_head(existing, incoming)
            + "\n["@ + owner(existing, grammar) + "]: "@ + existing.body + "\n["@ + incoming.origin
            + "]: you want to set \""@ + incoming.body + "\""@,
    }
}

/// How pest renders an error with message `message` over the characters
/// `start..end` of `text`.
pub uninterp spec fn pest_custom_error(text: Seq<char>, start: int, end: int, message: Seq<char>) -> Seq<char>;

/// Relies on `pest::error::Error::new_from_span` with a custom message, and
/// on its `Display`: the rendered text (location, quoted line, message)
/// depends on the arguments alone. The character positions are turned into
/// the byte offsets that `pest::Span::new` takes; they fall on character
/// boundaries, so it always gives a span.
#[verifier::external_body]
fn render_pest_error(text: &str, start: usize, end: usize, message: String) -> (r: String)
    requires
        start <= end <= text@.len(),
    ensures
        r@ == pest_custom_error(text@, start as int, end as int, message@),
{
    let start_byte = text.char_indices().nth(start).map_or(text.len(), |(b, _)| b);
    let end_byte = text.char_indices().nth(end).map_or(text.len(), |(b, _)| b);
    let span = pest::Span::new(text, start_byte, end_byte).unwrap();
    let variant = pest::error::ErrorVariant::<()>::CustomError { message };
    pest::error::Error::new_from_span(variant, span).to_string()
}

/// A failure's message, placed in the text it points into.
pub open spec fn cause_text(c: Cause) -> Seq<char> {
    match c {
        Cause::Syntax { grammar, text, pos } => pest_custom_error(text, pos, pos, cause_body(c)),
        Cause::Missing { path, text, start, end } => pest_custom_error(text, start, end, cause_body(c)),
        Cause::Cycle { path, text, start, end } => pest_custom_error(text, start, end, cause_body(c)),
        Cause::Clash { existing, incoming, grammar, text, start, end } => pest_custom_error(
            text,
            start,
            end,
            cause_body(c),
        ),
    }
}

pub open spec fn chain_text(chain: Seq<Seq<char>>) -> Seq<char>
    decreases chain.len(),
{
    if chain.len() == 0 {
        Seq::empty()
    } else {
        chain_text(chain.drop_last()) + "An error occurred while parsing included grammar \""@
            + chain.last() + "\":\n"@
    }
}

/// The message that describes a failure.
pub open spec fn message_text(f: Failure) -> Seq<char> {
    chain_text(f.chain) + cause_text(f.cause)
}

fn append_kind(out: &mut Vec<char>, is_rule: bool)
    ensures
        final(out)@ == old(out)@ + kind_word(is_rule),
{
    if is_rule {
        append_str(out, "Rule");
    } else {
        append_str(out, "Variable");
    }
}

fn append_clash(out: &mut Vec<char>, existing: &Definition, incoming: &Definition, grammar: &Vec<char>)
    ensures
        final(out)@ == old(out)@ + clash_head(existing@, incoming@) + "\n["@ + owner(existing@, grammar@)
            + "]: "@ + existing@.body + "\n["@ + incoming@.origin + "]: you want to set \""@
            + incoming@.body + "\""@,
{
    let ghost o = old(out)@;
    append_kind(out, incoming.is_rule);
    append_str(out, " \"");
    append_chars(out, &incoming.name);
    append_str(out, "\" from grammar \"");
    append_chars(out, &incoming.origin);
    if existing.is_rule == incoming.is_rule {
        append_str(out, "\" already exists here:");
    } else {
        append_str(out, "\" conflicts with ");
        if existing.is_rule {
            append_str(out, "rule");
        } else {
            append_str(out, "variable");
        }
        append_str(out, " \"");
        append_chars(out, &existing.name);
        append_str(out, "\":");
    }
    assert(out@ =~= o + clash_head(existing@, incoming@));
    append_str(out, "\n[");
    let ghost h2 = out@;
    append_chars(out, &existing.origin);
    if !crate::text::same_chars(&existing.origin, grammar) {
        append_str(out, " -> ");
        append_chars(out, grammar);
    }
    assert(out@ =~= h2 + owner(existing@, grammar@));
    append_str(out, "]: ");
    append_chars(out, &existing.body);
    append_str(out, "\n[");
    append_chars(out, &incoming.origin);
    append_str(out, "]: you want to set \"");
    append_chars(out, &incoming.body);
    append_str(out, "\"");
}

fn append_cause(out: &mut Vec<char>, c: &ErrorCause)
    requires
        cause_fits(c@),
    ensures
        final(out)@ == old(out)@ + cause_text(c@),
{
    let mut body: Vec<char> = Vec::new();
    let (text, start, end) = match c {
        ErrorCause::Syntax { grammar, text, pos } => {
            append_str(&mut body, "Grammar \"");
            append_chars(&mut body, grammar);
            append_str(&mut body, "\" holds no valid declaration here");
            (text, *pos, *pos)
        },
        ErrorCause::Missing { path, text, start, end } => {
            append_str(&mut body, "Path doesn't exists: ");
            append_chars(&mut body, path);
            (text, *start, *end)
        },
        ErrorCause::Cycle { path, text, start, end } => {
            append_str(&mut body, "Grammar \"");
            append_chars(&mut body, path);
            append_str(&mut body, "\" is already being read");
            (text, *start, *end)
        },
        ErrorCause::Clash { existing, incoming, grammar, text, start, end } => {
            append_clash(&mut body, existing, incoming, grammar);
            (text, *start, *end)
        },
    };
    assert(body@ =~= cause_body(c@));
    let t = string_of(text);
    let m = string_of(&body);
    let rendered = render_pest_error(t.as_str(), start, end, m);
    append_str(out, rendered.as_str());
}

impl GrammarError {
    /// A readable description of the failure.
    pub fn message(&self) -> (r: Vec<char>)
        requires
            cause_fits(self@.cause),
        ensures
            r@ == message_text(self@),
    {
        let mut out: Vec<char> = Vec::new();
        let mut i: usize = 0;
        while i < self.chain.len()
            invariant
                i <= self.chain.len(),
                out@ == chain_text(chain_view(self.chain@).take(i as int)),
            decreases self.chain.len() - i,
        {
            let ghost before = out@;
            append_str(&mut out, "An error occurred while parsing included grammar \"");
            append_chars(&mut out, &self.chain[i]);
            append_str(&mut out, "\":\n");
            let ghost t = chain_view(self.chain@).take(i + 1);
            assert(t.drop_last() =~= chain_view(self.chain@).take(i as int));
            assert(out@ =~= chain_text(t));
            i = i + 1;
        }
        assert(chain_view(self.chain@).take(i as int) =~= chain_view(self.chain@));
        append_cause(&mut out, &self.cause);
        out
    }
}

} // verus!
