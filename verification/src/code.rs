//! Scripts that are put together from parts, and what becomes of a default
//! export among them.
//!
//! The parts are described by what they are made of, whatever way a script is
//! searched: plain code, strings, comments, templates, regular expressions and
//! code in brackets.

use vstd::prelude::*;

use crate::scan;
use crate::scan::{Before, Inside, Place};
use crate::script;
use crate::text;

verus! {

/// A part of a script.
pub enum Part {
    /// Names, whitespace and signs.
    Plain { text: Seq<char> },
    /// A string between two quotes of the same kind.
    Quoted { quote: char, text: Seq<char> },
    /// A comment up to the end of the line.
    LineComment { text: Seq<char> },
    /// A comment with an end of its own.
    BlockComment { text: Seq<char> },
    /// A template without expressions in it.
    Template { text: Seq<char> },
    /// A template with an expression between its first and its last characters.
    Filled { head: Seq<char>, parts: Seq<Part>, tail: Seq<char> },
    /// A regular expression that is assigned to something.
    Regex { text: Seq<char> },
    /// A number that is divided by what follows, where both are assigned to
    /// something.
    Quotient { number: Seq<char> },
    /// Code in brackets.
    Group { open: char, parts: Seq<Part> },
}

/// Whether a character is whitespace, which a byte order mark counts as.
pub open spec fn is_space(c: char) -> bool {
    text::is_white(c) || c == '\u{feff}'
}

/// Whether a character can stand in a name: an ASCII letter or digit, an
/// underscore, a dollar sign, or a character beyond ASCII that is no whitespace.
pub open spec fn is_word_char(c: char) -> bool {
    ||| 'a' <= c <= 'z' || 'A' <= c <= 'Z' || '0' <= c <= '9' || c == '_' || c == '$'
    ||| c as u32 >= 0x80 && !is_space(c)
}

/// Whether a character can stand in plain code.
pub open spec fn is_plain_char(c: char) -> bool {
    ||| is_word_char(c) || is_space(c)
    ||| c == ';' || c == ',' || c == '=' || c == ':' || c == '?' || c == '!' || c == '&'
    ||| c == '|' || c == '*' || c == '%' || c == '>' || c == '<' || c == '^'
    ||| c == '~' || c == '@' || c == '#' || c == '+' || c == '-' || c == '.'
}

/// Whether a text is plain code: nothing else stands in it, a name follows every
/// dot, and no exclamation mark follows what may be the start of a comment.
pub open spec fn is_plain(s: Seq<char>) -> bool {
    &&& forall|i: int| 0 <= i < s.len() ==> is_plain_char(#[trigger] s[i])
    &&& forall|i: int|
        0 <= i < s.len() && (#[trigger] s[i]) == '.' ==> i + 1 < s.len() && is_word_char(s[i + 1])
    &&& forall|i: int|
        0 <= i < s.len() && (#[trigger] s[i]) == '<' ==> i + 1 < s.len() && s[i + 1] != '!'
}

/// Whether the word `export` stands nowhere in a text.
pub open spec fn exports_nothing(s: Seq<char>) -> bool {
    forall|i: int| 0 <= i <= s.len() - 6 ==> #[trigger] s.subrange(i, i + 6) != "export"@
}

/// Whether a text can stand between quotes: a quote in it, like any other
/// character, may be escaped.
pub open spec fn is_string_text(text: Seq<char>, quote: char) -> bool
    decreases text.len(),
{
    if text.len() == 0 {
        true
    } else if text[0] == '\\' {
        text.len() >= 2 && text[1] != '\r' && is_string_text(text.skip(2), quote)
    } else {
        text[0] != quote && text[0] != '\n' && text[0] != '\r' && is_string_text(text.skip(1), quote)
    }
}

/// Whether a text does not go beyond a line.
pub open spec fn is_one_line(text: Seq<char>) -> bool {
    &&& !text.contains('\n') && !text.contains('\r')
    &&& !text.contains('\u{2028}') && !text.contains('\u{2029}')
}

/// Whether a text does not hold the end of a comment.
pub open spec fn ends_no_comment(text: Seq<char>) -> bool {
    forall|i: int| 0 <= i < text.len() - 1 && (#[trigger] text[i]) == '*' ==> text[i + 1] != '/'
}

/// Whether a text can stand in a template outside expressions: a character that
/// would end it may be escaped.
pub open spec fn is_template_text(text: Seq<char>) -> bool
    decreases text.len(),
{
    if text.len() == 0 {
        true
    } else if text[0] == '\\' {
        text.len() >= 2 && is_template_text(text.skip(2))
    } else {
        text[0] != '`' && text[0] != '$' && is_template_text(text.skip(1))
    }
}

/// Whether a text can stand in a regular expression, from a place in a class of
/// characters or outside one: a slash ends it, unless it stands in a class or is
/// escaped.
pub open spec fn is_regex_text(text: Seq<char>, class: bool) -> bool
    decreases text.len(),
{
    if text.len() == 0 {
        !class
    } else if !is_one_line(seq![text[0]]) {
        false
    } else if text[0] == '\\' {
        text.len() >= 2 && is_one_line(seq![text[1]]) && is_regex_text(text.skip(2), class)
    } else if text[0] == '[' {
        is_regex_text(text.skip(1), true)
    } else if text[0] == ']' {
        is_regex_text(text.skip(1), false)
    } else {
        (class || text[0] != '/') && is_regex_text(text.skip(1), class)
    }
}

/// Whether a text consists of digits.
pub open spec fn is_number(text: Seq<char>) -> bool {
    text.len() > 0 && forall|i: int| 0 <= i < text.len() ==> '0' <= #[trigger] text[i] <= '9'
}

/// The bracket that closes what another opens.
pub open spec fn closing(open: char) -> char {
    if open == '(' {
        ')'
    } else if open == '[' {
        ']'
    } else {
        '}'
    }
}

/// Whether a part is what its kind says.
pub open spec fn is_part(p: Part) -> bool
    decreases p,
{
    match p {
        Part::Plain { text } => text.len() > 0 && is_plain(text),
        Part::Quoted { quote, text } => (quote == '"' || quote == '\'') && is_string_text(text, quote),
        Part::LineComment { text } => is_one_line(text),
        Part::BlockComment { text } => ends_no_comment(text),
        Part::Template { text } => is_template_text(text),
        Part::Filled { head, parts, tail } => is_template_text(head) && is_template_text(tail)
            && is_code(parts),
        Part::Regex { text } => {
            text.len() > 0 && text[0] != '*' && text[0] != '/' && is_regex_text(text, false)
        },
        Part::Quotient { number } => is_number(number),
        Part::Group { open, parts } => (open == '(' || open == '[' || open == '{') && is_code(parts),
    }
}

/// Whether parts make code: each is what its kind says, and plain code does not
/// follow plain code.
pub open spec fn is_code(parts: Seq<Part>) -> bool
    decreases parts,
{
    forall|i: int|
        0 <= i < parts.len() ==> {
            &&& is_part(#[trigger] parts[i])
            &&& parts[i] is Plain && i + 1 < parts.len() ==> !(parts[i + 1] is Plain)
        }
}

/// The text of a part.
pub open spec fn part_text(p: Part) -> Seq<char>
    decreases p,
{
    match p {
        Part::Plain { text } => text,
        Part::Quoted { quote, text } => seq![quote] + text + seq![quote],
        Part::LineComment { text } => seq!['/', '/'] + text + seq!['\n'],
        Part::BlockComment { text } => seq!['/', '*'] + text + seq!['*', '/'],
        Part::Template { text } => seq!['`'] + text + seq!['`'],
        Part::Filled { head, parts, tail } => seq!['`'] + head + seq!['$', '{'] + code_text(parts)
            + seq!['}'] + tail + seq!['`'],
        Part::Regex { text } => seq!['=', '/'] + text + seq!['/'],
        Part::Quotient { number } => seq!['='] + number + seq!['/', ' '],
        Part::Group { open, parts } => seq![open] + code_text(parts) + seq![closing(open)],
    }
}

/// The text of parts, one after the other.
pub open spec fn code_text(parts: Seq<Part>) -> Seq<char>
    decreases parts,
{
    if parts.len() == 0 {
        Seq::empty()
    } else {
        part_text(parts[0]) + code_text(parts.drop_first())
    }
}

/// Whether nothing is exported by the plain code among parts, outside brackets.
pub open spec fn all_quiet(parts: Seq<Part>) -> bool {
    forall|i: int|
        0 <= i < parts.len() && (#[trigger] parts[i]) is Plain ==> exports_nothing(parts[i]->Plain_text)
}

// ---- laws ----

/// A default export behind any code at the top level of a module becomes an
/// assignment, with any whitespace between its words, and nothing else changes:
/// not the code before it, whatever stands in its strings, comments, templates,
/// regular expressions and brackets, nor what follows.
pub proof fn law_exports_behind_any_code_are_assigned(
    parts: Seq<Part>,
    gap: Seq<char>,
    rest: Seq<char>,
)
    requires
        is_code(parts),
        all_quiet(parts),
        parts.len() > 0 && parts.last() is Plain ==> !is_word_char(parts.last()->Plain_text.last()),
        gap.len() > 0,
        forall|i: int| 0 <= i < gap.len() ==> is_space(#[trigger] gap[i]),
        rest.len() > 0 ==> !scan::is_name_char(rest[0]),
    ensures
        script::module_body(code_text(parts) + ("export"@ + gap + "default"@ + rest)) == code_text(parts)
            + "__exports.default ="@ + rest,
{
    let found = "export"@ + gap + "default"@ + rest;
    let whole = code_text(parts) + found;
    reveal_strlit("export");
    scan::law_any_whitespace_parts_the_words(gap, rest);
    let b = lemma_parts_are_passed(parts, found, scan::start());
    assert(whole.take(whole.len() - found.len()) =~= code_text(parts));
}

/// Whether parts are whitespace and comments.
pub open spec fn is_gap(parts: Seq<Part>) -> bool {
    forall|i: int|
        0 <= i < parts.len() ==> is_part(#[trigger] parts[i]) && match parts[i] {
            Part::LineComment { .. } | Part::BlockComment { .. } => true,
            Part::Plain { text } => forall|k: int| 0 <= k < text.len() ==> is_space(#[trigger] text[k]),
            _ => false,
        }
}

/// Comments may stand between the two words of a default export as whitespace
/// may.
pub proof fn law_comments_may_part_the_words(parts: Seq<Part>, gap: Seq<Part>, rest: Seq<char>)
    requires
        is_code(parts),
        all_quiet(parts),
        parts.len() > 0 && parts.last() is Plain ==> !is_word_char(parts.last()->Plain_text.last()),
        gap.len() > 0,
        is_gap(gap),
        rest.len() > 0 ==> !scan::is_name_char(rest[0]),
    ensures
        script::module_body(
            code_text(parts) + ("export"@ + code_text(gap) + "default"@ + rest),
        ) == code_text(parts) + "__exports.default ="@ + rest,
{
    let between = code_text(gap);
    let found = "export"@ + between + "default"@ + rest;
    let whole = code_text(parts) + found;
    reveal_strlit("export");
    reveal_strlit("default");
    let behind = "default"@ + rest;
    assert(found =~= "export"@ + (between + behind));
    assert(is_part(gap[0]));
    lemma_part_starts(gap[0]);
    assert(between[0] == part_text(gap[0])[0]);
    if gap[0] is Plain {
        assert(is_space(gap[0]->Plain_text[0]));
    }
    scan::lemma_name_ends("export"@, between + behind);
    lemma_gap_is_passed(gap, behind);
    scan::lemma_name_ends("default"@, rest);
    let b = lemma_parts_are_passed(parts, found, scan::start());
    assert(whole.take(whole.len() - found.len()) =~= code_text(parts));
}

/// Whitespace and comments are passed over on the way to code.
proof fn lemma_gap_is_passed(gap: Seq<Part>, t: Seq<char>)
    requires
        is_gap(gap),
        t.len() > 0,
        scan::is_name_char(t[0]),
    ensures
        scan::from_code(code_text(gap) + t) == t,
    decreases gap.len(),
{
    if gap.len() == 0 {
        assert(code_text(gap) + t =~= t);
    } else {
        let others = gap.drop_first();
        let u = code_text(others) + t;
        let s = code_text(gap) + t;
        assert(forall|i: int| 0 <= i < others.len() ==> #[trigger] others[i] == gap[i + 1]);
        lemma_gap_is_passed(others, t);
        assert(is_part(gap[0]));
        assert(s =~= part_text(gap[0]) + u);
        match gap[0] {
            Part::LineComment { text } => {
                assert(s.skip(2) =~= text + seq!['\n'] + u);
                lemma_line_ends(text, u);
                let v = seq!['\n'] + u;
                assert(scan::from_code(s) == scan::from_code(v));
                assert(v.skip(1) =~= u);
            },
            Part::BlockComment { text } => {
                assert(s.skip(2) =~= text + seq!['*', '/'] + u);
                lemma_block_ends(text, u);
            },
            Part::Plain { text } => {
                lemma_spaces_are_passed(text, u);
            },
            _ => {},
        }
    }
}

proof fn lemma_spaces_are_passed(spaces: Seq<char>, t: Seq<char>)
    requires
        forall|i: int| 0 <= i < spaces.len() ==> is_space(#[trigger] spaces[i]),
    ensures
        scan::from_code(spaces + t) == scan::from_code(t),
    decreases spaces.len(),
{
    let s = spaces + t;
    if spaces.len() == 0 {
        assert(s =~= t);
    } else {
        let r = spaces.skip(1);
        assert(forall|i: int| 0 <= i < r.len() ==> #[trigger] r[i] == spaces[i + 1]);
        assert(s[0] == spaces[0]);
        assert(s.skip(1) =~= r + t);
        lemma_spaces_are_passed(r, t);
    }
}

/// A module without a default export at its top level is compiled as it is,
/// whatever stands in its strings, comments, templates, regular expressions and
/// brackets.
pub proof fn law_code_without_exports_stays(parts: Seq<Part>)
    requires
        is_code(parts),
        all_quiet(parts),
    ensures
        script::module_body(code_text(parts)) == code_text(parts),
{
    let none = Seq::<char>::empty();
    let b = lemma_parts_are_passed(parts, none, scan::start());
    assert(code_text(parts) + none =~= code_text(parts));
}

/// Code is passed over: the search goes on behind it, in the same brackets.
proof fn lemma_parts_are_passed(parts: Seq<Part>, t: Seq<char>, at: Place) -> (b: Before)
    requires
        is_code(parts),
        at.inside.len() == 0 ==> all_quiet(parts),
        !(at.before is Dot),
        t.len() > 0 ==> t[0] != '+' && t[0] != '-',
        parts.len() > 0 && parts.last() is Plain && is_word_char(parts.last()->Plain_text.last())
            && t.len() > 0 ==> !scan::is_name_char(t[0]),
    ensures
        !(b is Dot),
        scan::export_from(code_text(parts) + t, at) == scan::export_from(
            t,
            Place { before: b, inside: at.inside },
        ),
    decreases parts,
{
    if parts.len() == 0 {
        assert(code_text(parts) + t =~= t);
        at.before
    } else {
        let first = parts[0];
        let others = parts.drop_first();
        let behind = code_text(others) + t;
        assert(forall|i: int| 0 <= i < others.len() ==> #[trigger] others[i] == parts[i + 1]);
        assert(is_part(first));
        assert(is_code(others)) by {
            assert forall|i: int| 0 <= i < others.len() implies is_part(#[trigger] others[i]) && (
            others[i] is Plain && i + 1 < others.len() ==> !(others[i + 1] is Plain)) by {
                assert(is_part(parts[i + 1]));
            }
        }
        if others.len() > 0 {
            lemma_part_starts(others[0]);
            assert(code_text(others) == part_text(others[0]) + code_text(others.drop_first()));
            assert(behind[0] == part_text(others[0])[0]);
            assert(others.last() == parts.last());
        } else {
            assert(behind =~= t);
            assert(parts.last() == first);
        }
        assert(code_text(parts) + t =~= part_text(first) + behind);
        let b = lemma_part_is_passed(first, behind, at);
        lemma_parts_are_passed(others, t, Place { before: b, inside: at.inside })
    }
}

/// How a part starts.
proof fn lemma_part_starts(p: Part)
    requires
        is_part(p),
    ensures
        part_text(p).len() > 0,
        !(p is Plain) ==> !scan::is_name_char(part_text(p)[0]) && part_text(p)[0] != '+' && part_text(
            p,
        )[0] != '-',
{
}

/// The search goes on behind a piece that is no default export.
proof fn lemma_piece_is_passed(s: Seq<char>, at: Place, rest: Seq<char>, next: Place)
    requires
        s.len() > 0,
        !scan::starts_export(s),
        scan::behind_piece(s, at) == Some((rest, next)),
        rest.len() < s.len(),
    ensures
        scan::export_from(s, at) == scan::export_from(rest, next),
{
}

/// A part is passed over.
proof fn lemma_part_is_passed(p: Part, t: Seq<char>, at: Place) -> (b: Before)
    requires
        is_part(p),
        at.inside.len() == 0 && p is Plain ==> exports_nothing(p->Plain_text),
        !(at.before is Dot),
        p is Plain && t.len() > 0 ==> t[0] != '+' && t[0] != '-',
        p is Plain && is_word_char(p->Plain_text.last()) && t.len() > 0 ==> !scan::is_name_char(t[0]),
    ensures
        !(b is Dot),
        scan::export_from(part_text(p) + t, at) == scan::export_from(
            t,
            Place { before: b, inside: at.inside },
        ),
    decreases p,
{
    match p {
        Part::Plain { text } => lemma_plain_is_passed(text, t, at),
        Part::Quoted { quote, text } => {
            lemma_quoted_is_passed(quote, text, t, at);
            Before::Operand
        },
        Part::LineComment { text } => {
            lemma_line_comment_is_passed(text, t, at);
            at.before
        },
        Part::BlockComment { text } => {
            lemma_block_comment_is_passed(text, t, at);
            at.before
        },
        Part::Template { text } => {
            lemma_template_is_passed(text, t, at);
            Before::Operand
        },
        Part::Filled { head, parts, tail } => {
            let inner = Place {
                before: Before::Operator,
                inside: at.inside.push(Inside::Template),
            };
            let end = seq!['}'] + tail + seq!['`'] + t;
            lemma_template_opens(head, code_text(parts) + end, at);
            assert(part_text(p) + t =~= seq!['`'] + head + seq!['$', '{'] + (code_text(parts) + end));
            let b = lemma_parts_are_passed(parts, end, inner);
            lemma_template_closes(tail, t, b, at);
            Before::Operand
        },
        Part::Regex { text } => {
            lemma_regex_is_passed(text, t, at);
            Before::Operand
        },
        Part::Quotient { number } => {
            lemma_quotient_is_passed(number, t, at);
            Before::Operator
        },
        Part::Group { open, parts } => {
            let bracket = bracket_of(open, at.before);
            let inner = Place { before: Before::Operator, inside: at.inside.push(bracket) };
            let u = seq![closing(open)] + t;
            let whole = part_text(p) + t;
            lemma_group_opens(open, code_text(parts), t, at);
            assert(seq![open] + code_text(parts) + seq![closing(open)] + t =~= whole);
            let b = lemma_parts_are_passed(parts, u, inner);
            lemma_group_closes(open, t, b, at)
        },
    }
}

/// What an opening bracket leads into.
spec fn bracket_of(open: char, before: Before) -> Inside {
    if open == '[' {
        Inside::Square
    } else if open == '{' {
        Inside::Curly
    } else if before is Header {
        Inside::Condition
    } else {
        Inside::Round
    }
}

proof fn lemma_group_opens(open: char, inner: Seq<char>, t: Seq<char>, at: Place)
    requires
        open == '(' || open == '[' || open == '{',
    ensures
        scan::export_from(seq![open] + inner + seq![closing(open)] + t, at) == scan::export_from(
            inner + (seq![closing(open)] + t),
            Place {
                before: Before::Operator,
                inside: at.inside.push(bracket_of(open, at.before)),
            },
        ),
{
    let s = seq![open] + inner + seq![closing(open)] + t;
    let rest = inner + (seq![closing(open)] + t);
    let next = Place {
        before: Before::Operator,
        inside: at.inside.push(bracket_of(open, at.before)),
    };
    scan::lemma_no_name(s);
    assert(s.skip(1) =~= rest);
    assert(scan::behind_piece(s, at) == Some((rest, next)));
    lemma_piece_is_passed(s, at, rest, next);
}

proof fn lemma_group_closes(open: char, t: Seq<char>, before: Before, at: Place) -> (b: Before)
    requires
        open == '(' || open == '[' || open == '{',
    ensures
        !(b is Dot),
        scan::export_from(
            seq![closing(open)] + t,
            Place { before, inside: at.inside.push(bracket_of(open, at.before)) },
        ) == scan::export_from(t, Place { before: b, inside: at.inside }),
{
    let bracket = bracket_of(open, at.before);
    let s = seq![closing(open)] + t;
    let here = Place { before, inside: at.inside.push(bracket) };
    let b = match bracket {
        Inside::Condition => Before::Operator,
        Inside::Curly => Before::Unclear,
        _ => Before::Operand,
    };
    let next = Place { before: b, inside: at.inside };
    scan::lemma_no_name(s);
    assert(s.skip(1) =~= t);
    assert(here.inside.drop_last() =~= at.inside);
    assert(scan::behind_closing(s, here.inside) == Some((t, next)));
    assert(scan::behind_piece(s, here) == Some((t, next)));
    lemma_piece_is_passed(s, here, t, next);
    b
}

proof fn lemma_quoted_is_passed(quote: char, text: Seq<char>, t: Seq<char>, at: Place)
    requires
        quote == '"' || quote == '\'',
        is_string_text(text, quote),
    ensures
        scan::export_from(seq![quote] + text + seq![quote] + t, at) == scan::export_from(
            t,
            Place { before: Before::Operand, inside: at.inside },
        ),
{
    let s = seq![quote] + text + seq![quote] + t;
    let next = Place { before: Before::Operand, inside: at.inside };
    scan::lemma_no_name(s);
    assert(s.skip(1) =~= text + seq![quote] + t);
    lemma_string_ends(text, t, quote);
    assert(scan::behind_piece(s, at) == Some((t, next)));
    lemma_piece_is_passed(s, at, t, next);
}

proof fn lemma_line_comment_is_passed(text: Seq<char>, t: Seq<char>, at: Place)
    requires
        is_one_line(text),
    ensures
        scan::export_from(seq!['/', '/'] + text + seq!['\n'] + t, at) == scan::export_from(t, at),
{
    let s = seq!['/', '/'] + text + seq!['\n'] + t;
    let u = seq!['\n'] + t;
    scan::lemma_no_name(s);
    assert(s.skip(2) =~= text + seq!['\n'] + t);
    lemma_line_ends(text, t);
    assert(scan::behind_piece(s, at) == Some((u, at)));
    lemma_piece_is_passed(s, at, u, at);
    scan::lemma_no_name(u);
    assert(u.skip(1) =~= t);
    assert(scan::behind_piece(u, at) == Some((t, at)));
    lemma_piece_is_passed(u, at, t, at);
}

proof fn lemma_block_comment_is_passed(text: Seq<char>, t: Seq<char>, at: Place)
    requires
        ends_no_comment(text),
    ensures
        scan::export_from(seq!['/', '*'] + text + seq!['*', '/'] + t, at) == scan::export_from(t, at),
{
    let s = seq!['/', '*'] + text + seq!['*', '/'] + t;
    scan::lemma_no_name(s);
    assert(s.skip(2) =~= text + seq!['*', '/'] + t);
    lemma_block_ends(text, t);
    assert(scan::behind_piece(s, at) == Some((t, at)));
    lemma_piece_is_passed(s, at, t, at);
}

proof fn lemma_template_is_passed(text: Seq<char>, t: Seq<char>, at: Place)
    requires
        is_template_text(text),
    ensures
        scan::export_from(seq!['`'] + text + seq!['`'] + t, at) == scan::export_from(
            t,
            Place { before: Before::Operand, inside: at.inside },
        ),
{
    let s = seq!['`'] + text + seq!['`'] + t;
    let next = Place { before: Before::Operand, inside: at.inside };
    scan::lemma_no_name(s);
    assert(s.skip(1) =~= text + seq!['`'] + t);
    lemma_template_ends(text, t);
    assert(scan::behind_piece(s, at) == Some((t, next)));
    lemma_piece_is_passed(s, at, t, next);
}

proof fn lemma_regex_is_passed(text: Seq<char>, t: Seq<char>, at: Place)
    requires
        text.len() > 0,
        text[0] != '*' && text[0] != '/',
        is_regex_text(text, false),
    ensures
        scan::export_from(seq!['=', '/'] + text + seq!['/'] + t, at) == scan::export_from(
            t,
            Place { before: Before::Operand, inside: at.inside },
        ),
{
    let s = seq!['=', '/'] + text + seq!['/'] + t;
    let u = seq!['/'] + text + seq!['/'] + t;
    let equal = Place { before: Before::Operator, inside: at.inside };
    let next = Place { before: Before::Operand, inside: at.inside };
    scan::lemma_no_name(s);
    assert(s.skip(1) =~= u);
    assert(scan::behind_piece(s, at) == Some((u, equal)));
    lemma_piece_is_passed(s, at, u, equal);
    scan::lemma_no_name(u);
    assert(u[1] == text[0]);
    assert(u.skip(1) =~= text + seq!['/'] + t);
    lemma_regex_ends(text, t, false);
    assert(scan::behind_piece(u, equal) == Some((t, next)));
    lemma_piece_is_passed(u, equal, t, next);
}

/// Plain code is passed over.
proof fn lemma_plain_is_passed(s: Seq<char>, t: Seq<char>, at: Place) -> (b: Before)
    requires
        is_plain(s),
        at.inside.len() == 0 ==> exports_nothing(s),
        at.before is Dot ==> s.len() > 0 && is_word_char(s[0]),
        t.len() > 0 ==> t[0] != '+' && t[0] != '-',
        s.len() > 0 && is_word_char(s.last()) && t.len() > 0 ==> !scan::is_name_char(t[0]),
    ensures
        !(b is Dot),
        scan::export_from(s + t, at) == scan::export_from(
            t,
            Place { before: b, inside: at.inside },
        ),
    decreases s.len(),
{
    if s.len() == 0 {
        assert(s + t =~= t);
        at.before
    } else {
        let (n, before) = lemma_plain_piece(s, t, at);
        lemma_rest_is_plain(s, n);
        lemma_plain_is_passed(s.skip(n), t, Place { before, inside: at.inside })
    }
}

/// A piece of plain code is passed over.
proof fn lemma_plain_piece(s: Seq<char>, t: Seq<char>, at: Place) -> (r: (int, Before))
    requires
        is_plain(s),
        s.len() > 0,
        at.inside.len() == 0 ==> exports_nothing(s),
        at.before is Dot ==> is_word_char(s[0]),
        t.len() > 0 ==> t[0] != '+' && t[0] != '-',
        is_word_char(s.last()) && t.len() > 0 ==> !scan::is_name_char(t[0]),
    ensures
        0 < r.0 <= s.len(),
        r.1 is Dot ==> r.0 < s.len() && is_word_char(s[r.0]),
        scan::export_from(s + t, at) == scan::export_from(
            s.skip(r.0) + t,
            Place { before: r.1, inside: at.inside },
        ),
{
    let u = s + t;
    assert(is_plain_char(s[0]));
    assert(u[0] == s[0]);
    assert(u.skip(1) =~= s.skip(1) + t);
    if s[0] == '<' {
        assert(u[1] == s[1]);
    }
    if scan::is_name_char(s[0]) {
        lemma_name_is_cut(s, t);
        let n = s.len() - scan::after_name(s).len();
        let before = scan::behind_word(scan::name_of(u), at.before);
        let next = Place { before, inside: at.inside };
        assert(scan::behind_piece(u, at) == Some((s.skip(n) + t, next)));
        if at.inside.len() == 0 && scan::starts_export(u) {
            reveal_strlit("export");
            assert(scan::name_of(u).len() == n);
            assert(s.subrange(0, 6) =~= s.take(6));
            assert(false);
        }
        (n, before)
    } else {
        scan::lemma_no_name(u);
        if (s[0] == '+' || s[0] == '-') && u.len() > 1 && u[1] == s[0] {
            assert(s.len() > 1 && s[1] == s[0]);
            assert(u.skip(2) =~= s.skip(2) + t);
            assert(scan::behind_piece(u, at) == Some((s.skip(2) + t, at)));
            (2, at.before)
        } else if scan::is_blank(s[0]) {
            (1, at.before)
        } else if s[0] == '.' {
            (1, Before::Dot)
        } else {
            (1, Before::Operator)
        }
    }
}

proof fn lemma_rest_is_plain(s: Seq<char>, n: int)
    requires
        is_plain(s),
        0 <= n <= s.len(),
    ensures
        is_plain(s.skip(n)),
        exports_nothing(s) ==> exports_nothing(s.skip(n)),
        n < s.len() ==> s.skip(n).last() == s.last(),
{
    let r = s.skip(n);
    assert(forall|i: int| 0 <= i < r.len() ==> #[trigger] r[i] == s[i + n]);
    assert forall|i: int| 0 <= i < r.len() && (#[trigger] r[i]) == '.' implies i + 1 < r.len()
        && is_word_char(r[i + 1]) by {
        assert(s[i + n] == '.');
    }
    assert forall|i: int| 0 <= i < r.len() && (#[trigger] r[i]) == '<' implies i + 1 < r.len() && r[i
        + 1] != '!' by {
        assert(s[i + n] == '<');
    }
    if exports_nothing(s) {
        assert forall|i: int| 0 <= i <= r.len() - 6 implies #[trigger] r.subrange(i, i + 6)
            != "export"@ by {
            assert(r.subrange(i, i + 6) =~= s.subrange(i + n, i + n + 6));
        }
    }
}

/// A name in plain code ends in it, or where the code ends.
proof fn lemma_name_is_cut(s: Seq<char>, t: Seq<char>)
    requires
        forall|i: int| 0 <= i < s.len() ==> is_plain_char(#[trigger] s[i]),
        s.len() > 0 && is_word_char(s.last()) && t.len() > 0 ==> !scan::is_name_char(t[0]),
        s.len() == 0 && t.len() > 0 ==> !scan::is_name_char(t[0]),
    ensures
        scan::after_name(s).len() <= s.len(),
        s.len() > 0 && scan::is_name_char(s[0]) ==> scan::after_name(s).len() < s.len(),
        scan::after_name(s) == s.skip(s.len() - scan::after_name(s).len()),
        scan::after_name(s + t) == scan::after_name(s) + t,
        scan::name_of(s + t) == s.take(s.len() - scan::after_name(s).len()),
    decreases s.len(),
{
    let u = s + t;
    if s.len() == 0 {
        assert(u =~= t);
        assert(scan::after_name(s) =~= s.skip(0));
        assert(scan::after_name(s) + t =~= t);
        assert(u.take(0) =~= s.take(0));
    } else if scan::is_name_char(s[0]) {
        assert(is_plain_char(s[0]));
        let r = s.skip(1);
        assert(forall|i: int| 0 <= i < r.len() ==> #[trigger] r[i] == s[i + 1]);
        assert(u.skip(1) =~= r + t);
        assert(u[0] == s[0]);
        lemma_name_is_cut(r, t);
        let k = r.len() - scan::after_name(r).len();
        assert(r.skip(k) =~= s.skip(k + 1));
        assert(u.take(k + 1) =~= s.take(k + 1));
    } else {
        assert(u[0] == s[0]);
        assert(s.skip(0) =~= s);
        assert(u.take(0) =~= s.take(0));
    }
}

proof fn lemma_string_ends(text: Seq<char>, t: Seq<char>, quote: char)
    requires
        quote == '"' || quote == '\'',
        is_string_text(text, quote),
    ensures
        scan::after_string(text + seq![quote] + t, quote) == Some(t),
    decreases text.len(),
{
    let s = text + seq![quote] + t;
    if text.len() == 0 {
        assert(s.skip(1) =~= t);
    } else {
        assert(s[0] == text[0]);
        if text[0] == '\\' {
            assert(s[1] == text[1]);
            assert(s.skip(2) =~= text.skip(2) + seq![quote] + t);
            lemma_string_ends(text.skip(2), t, quote);
        } else {
            assert(s.skip(1) =~= text.skip(1) + seq![quote] + t);
            lemma_string_ends(text.skip(1), t, quote);
        }
    }
}

proof fn lemma_line_ends(text: Seq<char>, t: Seq<char>)
    requires
        is_one_line(text),
    ensures
        scan::after_line(text + seq!['\n'] + t) == seq!['\n'] + t,
    decreases text.len(),
{
    let s = text + seq!['\n'] + t;
    if text.len() == 0 {
        assert(s =~= seq!['\n'] + t);
    } else {
        let r = text.skip(1);
        assert(s[0] == text[0]);
        assert(text.contains(text[0]));
        assert forall|c: char| #[trigger] r.contains(c) implies text.contains(c) by {
            let i = choose|i: int| 0 <= i < r.len() && r[i] == c;
            assert(text[i + 1] == c);
        }
        assert(s.skip(1) =~= r + seq!['\n'] + t);
        lemma_line_ends(r, t);
    }
}

proof fn lemma_block_ends(text: Seq<char>, t: Seq<char>)
    requires
        ends_no_comment(text),
    ensures
        scan::after_block(text + seq!['*', '/'] + t) == Some(t),
    decreases text.len(),
{
    let s = text + seq!['*', '/'] + t;
    if text.len() == 0 {
        assert(s.skip(2) =~= t);
    } else {
        let r = text.skip(1);
        assert(s[0] == text[0]);
        assert(forall|i: int| 0 <= i < r.len() ==> #[trigger] r[i] == text[i + 1]);
        if text.len() > 1 {
            assert(s[1] == text[1]);
        } else {
            assert(s[1] == '*');
        }
        assert(s.skip(1) =~= r + seq!['*', '/'] + t);
        lemma_block_ends(r, t);
    }
}

/// The characters of a template go on up to what ends them.
proof fn lemma_template_text(text: Seq<char>, u: Seq<char>)
    requires
        is_template_text(text),
    ensures
        scan::after_template(text + u) == scan::after_template(u),
    decreases text.len(),
{
    let s = text + u;
    if text.len() == 0 {
        assert(s =~= u);
    } else {
        assert(s[0] == text[0]);
        if text[0] == '\\' {
            assert(s.skip(2) =~= text.skip(2) + u);
            lemma_template_text(text.skip(2), u);
        } else {
            assert(s.skip(1) =~= text.skip(1) + u);
            lemma_template_text(text.skip(1), u);
        }
    }
}

proof fn lemma_template_ends(text: Seq<char>, t: Seq<char>)
    requires
        is_template_text(text),
    ensures
        scan::after_template(text + seq!['`'] + t) == Some((t, true)),
{
    let u = seq!['`'] + t;
    lemma_template_text(text, u);
    assert(text + seq!['`'] + t =~= text + u);
    assert(u.skip(1) =~= t);
}

proof fn lemma_template_opens(head: Seq<char>, rest: Seq<char>, at: Place)
    requires
        is_template_text(head),
    ensures
        scan::export_from(seq!['`'] + head + seq!['$', '{'] + rest, at) == scan::export_from(
            rest,
            Place { before: Before::Operator, inside: at.inside.push(Inside::Template) },
        ),
{
    let s = seq!['`'] + head + seq!['$', '{'] + rest;
    let u = seq!['$', '{'] + rest;
    let next = Place { before: Before::Operator, inside: at.inside.push(Inside::Template) };
    scan::lemma_no_name(s);
    lemma_template_text(head, u);
    assert(s.skip(1) =~= head + u);
    assert(u.skip(2) =~= rest);
    assert(scan::behind_template(s.skip(1), at.inside) == Some((rest, next)));
    assert(scan::behind_piece(s, at) == Some((rest, next)));
    lemma_piece_is_passed(s, at, rest, next);
}

proof fn lemma_template_closes(tail: Seq<char>, t: Seq<char>, before: Before, at: Place)
    requires
        is_template_text(tail),
    ensures
        scan::export_from(
            seq!['}'] + tail + seq!['`'] + t,
            Place { before, inside: at.inside.push(Inside::Template) },
        ) == scan::export_from(t, Place { before: Before::Operand, inside: at.inside }),
{
    let s = seq!['}'] + tail + seq!['`'] + t;
    let here = Place { before, inside: at.inside.push(Inside::Template) };
    let next = Place { before: Before::Operand, inside: at.inside };
    scan::lemma_no_name(s);
    assert(s.skip(1) =~= tail + seq!['`'] + t);
    lemma_template_ends(tail, t);
    assert(here.inside.drop_last() =~= at.inside);
    assert(scan::behind_closing(s, here.inside) == Some((t, next)));
    assert(scan::behind_piece(s, here) == Some((t, next)));
    lemma_piece_is_passed(s, here, t, next);
}

proof fn lemma_regex_ends(text: Seq<char>, t: Seq<char>, class: bool)
    requires
        is_regex_text(text, class),
    ensures
        scan::after_regex(text + seq!['/'] + t, class) == Some(t),
    decreases text.len(),
{
    let s = text + seq!['/'] + t;
    if text.len() == 0 {
        assert(s.skip(1) =~= t);
    } else {
        assert(s[0] == text[0]);
        assert(seq![text[0]][0] == text[0]);
        assert(!scan::is_line_end(text[0])) by {
            assert(seq![text[0]].contains(text[0]));
        }
        if text[0] == '\\' {
            assert(s[1] == text[1]);
            assert(!scan::is_line_end(text[1])) by {
                assert(seq![text[1]][0] == text[1]);
                assert(seq![text[1]].contains(text[1]));
            }
            assert(s.skip(2) =~= text.skip(2) + seq!['/'] + t);
            lemma_regex_ends(text.skip(2), t, class);
        } else {
            assert(s.skip(1) =~= text.skip(1) + seq!['/'] + t);
            lemma_regex_ends(
                text.skip(1),
                t,
                text[0] == '[' || (class && text[0] != ']'),
            );
        }
    }
}

proof fn lemma_quotient_is_passed(number: Seq<char>, t: Seq<char>, at: Place)
    requires
        is_number(number),
    ensures
        scan::export_from(seq!['='] + number + seq!['/', ' '] + t, at) == scan::export_from(
            t,
            Place { before: Before::Operator, inside: at.inside },
        ),
{
    let s = seq!['='] + number + seq!['/', ' '] + t;
    let u = number + seq!['/', ' '] + t;
    let v = seq!['/', ' '] + t;
    let w = seq![' '] + t;
    let equal = Place { before: Before::Operator, inside: at.inside };
    let counted = Place { before: Before::Operand, inside: at.inside };
    scan::lemma_no_name(s);
    assert(s.skip(1) =~= u);
    assert(scan::behind_piece(s, at) == Some((u, equal)));
    lemma_piece_is_passed(s, at, u, equal);
    assert(number + v =~= u);
    scan::lemma_name_ends(number, v);
    lemma_numbers_are_no_words(number);
    assert(u[0] == number[0]);
    assert(scan::behind_piece(u, equal) == Some((v, counted)));
    lemma_piece_is_passed(u, equal, v, counted);
    scan::lemma_no_name(v);
    assert(v.skip(1) =~= w);
    assert(v[1] == ' ');
    assert(scan::behind_piece(v, counted) == Some((w, equal)));
    lemma_piece_is_passed(v, counted, w, equal);
    scan::lemma_no_name(w);
    assert(w.skip(1) =~= t);
    assert(scan::behind_piece(w, equal) == Some((t, equal)));
    lemma_piece_is_passed(w, equal, t, equal);
}

/// A number is none of the words that mean something else.
proof fn lemma_numbers_are_no_words(number: Seq<char>)
    requires
        is_number(number),
    ensures
        scan::behind_word(number, Before::Operator) is Operand,
        number != "export"@,
{
    reveal_strlit("export");
    reveal_strlit("if");
    reveal_strlit("while");
    reveal_strlit("for");
    reveal_strlit("with");
    reveal_strlit("return");
    reveal_strlit("typeof");
    reveal_strlit("instanceof");
    reveal_strlit("in");
    reveal_strlit("new");
    reveal_strlit("delete");
    reveal_strlit("void");
    reveal_strlit("throw");
    reveal_strlit("case");
    reveal_strlit("do");
    reveal_strlit("else");
    reveal_strlit("await");
    reveal_strlit("yield");
    reveal_strlit("of");
    let c = number[0];
    assert('0' <= c <= '9');
    assert("export"@[0] == 'e' && "if"@[0] == 'i' && "while"@[0] == 'w' && "for"@[0] == 'f'
        && "with"@[0] == 'w' && "return"@[0] == 'r' && "typeof"@[0] == 't' && "instanceof"@[0] == 'i'
        && "in"@[0] == 'i' && "new"@[0] == 'n' && "delete"@[0] == 'd' && "void"@[0] == 'v'
        && "throw"@[0] == 't' && "case"@[0] == 'c' && "do"@[0] == 'd' && "else"@[0] == 'e'
        && "await"@[0] == 'a' && "yield"@[0] == 'y' && "of"@[0] == 'o');
}

} // verus!
