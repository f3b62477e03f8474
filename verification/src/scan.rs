//! The default export of a script: where it stands among the comments, strings,
//! templates, regular expressions and brackets of the text.

use vstd::prelude::*;

use crate::text;
use crate::text::{is_whitespace, same_text, string_of};

verus! {

// ---- blanks, comments and names ----

/// Whether a character is whitespace, which a byte order mark counts as.
pub open spec fn is_blank(c: char) -> bool {
    text::is_white(c) || c == '\u{feff}'
}

fn blank(c: char) -> (b: bool)
    ensures
        b == is_blank(c),
{
    is_whitespace(c) || c == '\u{feff}'
}

/// Whether a character can be part of a name in a script.
pub open spec fn is_name_char(c: char) -> bool {
    ||| 'a' <= c <= 'z'
    ||| 'A' <= c <= 'Z'
    ||| '0' <= c <= '9'
    ||| c == '_'
    ||| c == '$'
    ||| c == '\\'
    ||| c as u32 >= 0x80 && !is_blank(c)
}

fn name_char(c: char) -> (b: bool)
    ensures
        b == is_name_char(c),
{
    ('a' <= c && c <= 'z') || ('A' <= c && c <= 'Z') || ('0' <= c && c <= '9') || c == '_' || c
        == '$' || c == '\\' || (c as u32 >= 0x80 && !blank(c))
}

/// Whether a character ends a line.
pub open spec fn is_line_end(c: char) -> bool {
    c == '\n' || c == '\r' || c == '\u{2028}' || c == '\u{2029}'
}

fn line_end(c: char) -> (b: bool)
    ensures
        b == is_line_end(c),
{
    c == '\n' || c == '\r' || c == '\u{2028}' || c == '\u{2029}'
}

/// `s` from the end of the line on.
pub open spec fn after_line(s: Seq<char>) -> Seq<char>
    decreases s.len(),
{
    if s.len() == 0 || is_line_end(s[0]) {
        s
    } else {
        after_line(s.skip(1))
    }
}

/// `s` behind the first end of a block comment, if there is one.
pub open spec fn after_block(s: Seq<char>) -> Option<Seq<char>>
    decreases s.len(),
{
    if s.len() < 2 {
        None
    } else if s[0] == '*' && s[1] == '/' {
        Some(s.skip(2))
    } else {
        after_block(s.skip(1))
    }
}

/// `s` behind the name that it starts with.
pub open spec fn after_name(s: Seq<char>) -> Seq<char>
    decreases s.len(),
{
    if s.len() == 0 || !is_name_char(s[0]) {
        s
    } else {
        after_name(s.skip(1))
    }
}

/// The name that `s` starts with, empty where it starts with none.
pub open spec fn name_of(s: Seq<char>) -> Seq<char> {
    s.take(s.len() - after_name(s).len())
}

/// Whether `s` starts with these two characters.
pub open spec fn starts_with(s: Seq<char>, a: char, b: char) -> bool {
    s.len() >= 2 && s[0] == a && s[1] == b
}

/// `s` from its first code on: without the whitespace and the comments before
/// it. A block comment without an end is left as it is.
pub open spec fn from_code(s: Seq<char>) -> Seq<char>
    decreases s.len(),
{
    proof {
        lemma_after_line(s.skip(2));
        lemma_after_block(s.skip(2));
    }
    if s.len() > 0 && is_blank(s[0]) {
        from_code(s.skip(1))
    } else if starts_with(s, '/', '/') {
        from_code(after_line(s.skip(2)))
    } else if starts_with(s, '/', '*') && after_block(s.skip(2)) is Some {
        from_code(after_block(s.skip(2))->0)
    } else {
        s
    }
}

/// The rest of a text behind a line is not longer than the text.
pub proof fn lemma_after_line(s: Seq<char>)
    ensures
        after_line(s).len() <= s.len(),
    decreases s.len(),
{
    if s.len() > 0 && !is_line_end(s[0]) {
        lemma_after_line(s.skip(1));
    }
}

/// The rest of a text behind a comment is shorter than the text.
pub proof fn lemma_after_block(s: Seq<char>)
    ensures
        after_block(s) matches Some(r) ==> r.len() < s.len(),
    decreases s.len(),
{
    if s.len() >= 2 && !(s[0] == '*' && s[1] == '/') {
        lemma_after_block(s.skip(1));
    }
}

// ---- strings, templates and regular expressions ----

/// `s` behind the end of the string that goes on in it. A string does not go
/// beyond its line, unless the line end is escaped.
pub open spec fn after_string(s: Seq<char>, quote: char) -> Option<Seq<char>>
    decreases s.len(),
{
    if s.len() == 0 || s[0] == '\n' || s[0] == '\r' {
        None
    } else if s[0] == quote {
        Some(s.skip(1))
    } else if s.len() >= 3 && s[0] == '\\' && s[1] == '\r' && s[2] == '\n' {
        after_string(s.skip(3), quote)
    } else if s.len() >= 2 && s[0] == '\\' {
        after_string(s.skip(2), quote)
    } else {
        after_string(s.skip(1), quote)
    }
}

/// `s` behind the characters of the template that goes on in it, and whether
/// they end with the template. They end with an expression otherwise.
pub open spec fn after_template(s: Seq<char>) -> Option<(Seq<char>, bool)>
    decreases s.len(),
{
    if s.len() == 0 {
        None
    } else if s[0] == '`' {
        Some((s.skip(1), true))
    } else if starts_with(s, '$', '{') {
        Some((s.skip(2), false))
    } else if s.len() >= 2 && s[0] == '\\' {
        after_template(s.skip(2))
    } else {
        after_template(s.skip(1))
    }
}

/// `s` behind the end of the regular expression that goes on in it, where a
/// slash in a class of characters is no end.
pub open spec fn after_regex(s: Seq<char>, class: bool) -> Option<Seq<char>>
    decreases s.len(),
{
    if s.len() == 0 || is_line_end(s[0]) {
        None
    } else if s[0] == '/' && !class {
        Some(s.skip(1))
    } else if s.len() >= 2 && s[0] == '\\' && !is_line_end(s[1]) {
        after_regex(s.skip(2), class)
    } else {
        after_regex(s.skip(1), s[0] == '[' || (class && s[0] != ']'))
    }
}

// ---- places in a script ----

/// What stands before a place in a script.
#[derive(Clone, Copy)]
pub enum Before {
    /// Something that an expression may follow, or nothing.
    Operator,
    /// An expression.
    Operand,
    /// A dot: a name behind it is that of a member.
    Dot,
    /// A word whose condition follows in brackets.
    Header,
    /// Something that may end an expression or come before one.
    Unclear,
}

/// What a place in a script stands in.
#[derive(Clone, Copy)]
pub enum Inside {
    /// The condition of a statement.
    Condition,
    /// Other round brackets.
    Round,
    Square,
    Curly,
    /// An expression in a template.
    Template,
}

/// A place in a script: what stands before it, and what it stands in, from the
/// outside to the inside.
pub struct Place {
    pub before: Before,
    pub inside: Seq<Inside>,
}

/// Whether a word is an operator, or comes before an expression as one does.
pub open spec fn is_operator_word(word: Seq<char>) -> bool {
    ||| word == "return"@
    ||| word == "typeof"@
    ||| word == "instanceof"@
    ||| word == "in"@
    ||| word == "new"@
    ||| word == "delete"@
    ||| word == "void"@
    ||| word == "throw"@
    ||| word == "case"@
    ||| word == "do"@
    ||| word == "else"@
}

/// Whether a condition in brackets follows a word.
pub open spec fn is_header_word(word: Seq<char>) -> bool {
    word == "if"@ || word == "while"@ || word == "for"@ || word == "with"@
}

/// Whether it takes more than a word to tell if it is an operator or a name.
pub open spec fn is_unclear_word(word: Seq<char>) -> bool {
    word == "await"@ || word == "yield"@ || word == "of"@
}

/// What stands before the place behind a word.
pub open spec fn behind_word(word: Seq<char>, before: Before) -> Before {
    if before is Dot {
        Before::Operand
    } else if is_header_word(word) || (before is Header && word == "await"@) {
        Before::Header
    } else if is_operator_word(word) {
        Before::Operator
    } else if is_unclear_word(word) {
        Before::Unclear
    } else {
        Before::Operand
    }
}

/// The text and the place behind the characters of a template, where the
/// template stands in `inside`.
pub open spec fn behind_template(s: Seq<char>, inside: Seq<Inside>) -> Option<(Seq<char>, Place)> {
    match after_template(s) {
        Some((rest, true)) => Some((rest, Place { before: Before::Operand, inside })),
        Some((rest, false)) => Some(
            (rest, Place { before: Before::Operator, inside: inside.push(Inside::Template) }),
        ),
        None => None,
    }
}

/// The text and the place behind a closing bracket.
pub open spec fn behind_closing(s: Seq<char>, inside: Seq<Inside>) -> Option<(Seq<char>, Place)> {
    if inside.len() == 0 {
        None
    } else {
        let outer = inside.drop_last();
        match inside.last() {
            Inside::Condition if s[0] == ')' => Some(
                (s.skip(1), Place { before: Before::Operator, inside: outer }),
            ),
            Inside::Round if s[0] == ')' => Some(
                (s.skip(1), Place { before: Before::Operand, inside: outer }),
            ),
            Inside::Square if s[0] == ']' => Some(
                (s.skip(1), Place { before: Before::Operand, inside: outer }),
            ),
            Inside::Curly if s[0] == '}' => Some(
                (s.skip(1), Place { before: Before::Unclear, inside: outer }),
            ),
            Inside::Template if s[0] == '}' => behind_template(s.skip(1), outer),
            _ => None,
        }
    }
}

/// The text and the place behind the first piece of `s`: a blank, a comment, a
/// name, a string, a part of a template, a regular expression or a sign. There
/// is none where the piece does not end, where brackets do not match, or where
/// it is unclear whether a slash divides.
pub open spec fn behind_piece(s: Seq<char>, at: Place) -> Option<(Seq<char>, Place)> {
    let rest = s.skip(1);
    if is_blank(s[0]) {
        Some((rest, at))
    } else if starts_with(s, '/', '/') || (starts_with(s, '<', '!') && starts_with(
        s.skip(2),
        '-',
        '-',
    )) {
        Some((after_line(s.skip(2)), at))
    } else if starts_with(s, '/', '*') {
        match after_block(s.skip(2)) {
            Some(behind) => Some((behind, at)),
            None => None,
        }
    } else if is_name_char(s[0]) {
        Some((after_name(s), Place { before: behind_word(name_of(s), at.before), ..at }))
    } else if s[0] == '"' || s[0] == '\'' {
        match after_string(rest, s[0]) {
            Some(behind) => Some((behind, Place { before: Before::Operand, ..at })),
            None => None,
        }
    } else if s[0] == '`' {
        behind_template(rest, at.inside)
    } else if s[0] == '/' {
        match at.before {
            Before::Operand => Some((rest, Place { before: Before::Operator, ..at })),
            Before::Operator => match after_regex(rest, false) {
                Some(behind) => Some((behind, Place { before: Before::Operand, ..at })),
                None => None,
            },
            _ => None,
        }
    } else if s[0] == '(' {
        let bracket = if at.before is Header {
            Inside::Condition
        } else {
            Inside::Round
        };
        Some((rest, Place { before: Before::Operator, inside: at.inside.push(bracket) }))
    } else if s[0] == '[' {
        Some((rest, Place { before: Before::Operator, inside: at.inside.push(Inside::Square) }))
    } else if s[0] == '{' {
        Some((rest, Place { before: Before::Operator, inside: at.inside.push(Inside::Curly) }))
    } else if s[0] == ')' || s[0] == ']' || s[0] == '}' {
        behind_closing(s, at.inside)
    } else if starts_with(s, '+', '+') || starts_with(s, '-', '-') {
        Some((s.skip(2), at))
    } else if s[0] == '.' {
        Some((rest, Place { before: Before::Dot, ..at }))
    } else {
        Some((rest, Place { before: Before::Operator, ..at }))
    }
}

// ---- the default export ----

/// Whether `s` starts with a default export. Between the two words may stand
/// any whitespace and comments.
pub open spec fn starts_export(s: Seq<char>) -> bool {
    name_of(s) == "export"@ && name_of(from_code(after_name(s))) == "default"@
}

/// What follows the two words of the default export that `s` starts with.
pub open spec fn exported(s: Seq<char>) -> Seq<char> {
    after_name(from_code(after_name(s)))
}

/// Whether a default export can stand at a place: at the top level, and not as
/// the name of a member.
pub open spec fn at_top(at: Place) -> bool {
    at.inside.len() == 0 && !(at.before is Dot)
}

/// `s` from the first default export at the top level on, where `s` is what
/// follows a place.
pub open spec fn export_from(s: Seq<char>, at: Place) -> Option<Seq<char>>
    decreases s.len(),
{
    if s.len() == 0 {
        None
    } else if at_top(at) && starts_export(s) {
        Some(s)
    } else {
        match behind_piece(s, at) {
            Some((rest, next)) => if rest.len() < s.len() {
                export_from(rest, next)
            } else {
                None
            },
            None => None,
        }
    }
}

/// The place at the start of a script.
pub open spec fn start() -> Place {
    Place { before: Before::Operator, inside: Seq::empty() }
}

/// A script from its default export on.
pub open spec fn default_export(script: Seq<char>) -> Option<Seq<char>> {
    export_from(script, start())
}

// ---- laws ----

/// Any whitespace may stand between the two words of a default export, and any
/// text behind them that does not go on with the second word.
pub proof fn law_any_whitespace_parts_the_words(gap: Seq<char>, rest: Seq<char>)
    requires
        gap.len() > 0,
        forall|i: int| 0 <= i < gap.len() ==> is_blank(#[trigger] gap[i]),
        rest.len() > 0 ==> !is_name_char(rest[0]),
    ensures
        starts_export("export"@ + gap + "default"@ + rest),
        exported("export"@ + gap + "default"@ + rest) == rest,
{
    reveal_strlit("export");
    reveal_strlit("default");
    let behind = "default"@ + rest;
    assert("export"@ + gap + "default"@ + rest =~= "export"@ + (gap + behind));
    lemma_name_ends("export"@, gap + behind);
    lemma_blanks_pass(gap, behind);
    lemma_name_ends("default"@, rest);
}

/// A default export with nothing but whitespace and comments before it is
/// found, whatever follows it.
pub proof fn law_first_export_is_found(script: Seq<char>)
    requires
        starts_export(from_code(script)),
    ensures
        default_export(script) == Some(from_code(script)),
{
    lemma_blanks_are_passed(script, start());
    if from_code(script).len() == 0 {
        lemma_no_name(from_code(script));
    }
}

/// Whether a character parts the code before it from the code behind it.
pub open spec fn is_parting(c: char) -> bool {
    c == ';' || is_blank(c)
}

/// Whether `s`, which follows a place, is read without a default export up to a
/// semicolon or whitespace at the top level, with which it ends.
pub open spec fn ends_at_top(s: Seq<char>, at: Place) -> bool
    decreases s.len(),
{
    if s.len() == 0 {
        false
    } else if s.len() == 1 && is_parting(s[0]) {
        at.inside.len() == 0 && (s[0] == ';' || at_top(at))
    } else if at_top(at) && starts_export(s) {
        false
    } else {
        match behind_piece(s, at) {
            Some((rest, next)) => rest.len() < s.len() && ends_at_top(rest, next),
            None => false,
        }
    }
}

/// A default export behind other code at the top level of a script is found,
/// whatever follows it.
pub proof fn law_later_export_is_found(front: Seq<char>, rest: Seq<char>)
    requires
        ends_at_top(front, start()),
        starts_export(rest),
    ensures
        default_export(front + rest) == Some(rest),
{
    lemma_export_behind(front, rest, start());
}

/// Where no name starts there is no default export.
pub proof fn lemma_no_name(s: Seq<char>)
    requires
        s.len() == 0 || !is_name_char(s[0]),
    ensures
        !starts_export(s),
{
    reveal_strlit("export");
    assert(name_of(s).len() == 0);
}

/// A name ends where something else follows.
pub proof fn lemma_name_ends(name: Seq<char>, rest: Seq<char>)
    requires
        forall|i: int| 0 <= i < name.len() ==> is_name_char(#[trigger] name[i]),
        rest.len() > 0 ==> !is_name_char(rest[0]),
    ensures
        after_name(name + rest) == rest,
        name_of(name + rest) == name,
    decreases name.len(),
{
    let s = name + rest;
    if name.len() > 0 {
        let tail = name.skip(1);
        assert(s[0] == name[0]);
        assert(s.skip(1) =~= tail + rest);
        assert forall|i: int| 0 <= i < tail.len() implies is_name_char(#[trigger] tail[i]) by {
            assert(tail[i] == name[i + 1]);
        }
        lemma_name_ends(tail, rest);
    } else {
        assert(s =~= rest);
    }
    assert(s.take(name.len() as int) =~= name);
}

proof fn lemma_blanks_pass(blanks: Seq<char>, rest: Seq<char>)
    requires
        forall|i: int| 0 <= i < blanks.len() ==> is_blank(#[trigger] blanks[i]),
        rest.len() > 0,
        is_name_char(rest[0]),
    ensures
        from_code(blanks + rest) == rest,
    decreases blanks.len(),
{
    let s = blanks + rest;
    if blanks.len() > 0 {
        let tail = blanks.skip(1);
        assert(s[0] == blanks[0]);
        assert(s.skip(1) =~= tail + rest);
        assert forall|i: int| 0 <= i < tail.len() implies is_blank(#[trigger] tail[i]) by {
            assert(tail[i] == blanks[i + 1]);
        }
        lemma_blanks_pass(tail, rest);
    } else {
        assert(s =~= rest);
    }
}

proof fn lemma_blanks_are_passed(s: Seq<char>, at: Place)
    requires
        at_top(at),
    ensures
        export_from(s, at) == export_from(from_code(s), at),
    decreases s.len(),
{
    if s.len() > 0 && !is_name_char(s[0]) {
        lemma_no_name(s);
        lemma_after_line(s.skip(2));
        lemma_after_block(s.skip(2));
        if is_blank(s[0]) {
            lemma_blanks_are_passed(s.skip(1), at);
        } else if starts_with(s, '/', '/') {
            lemma_blanks_are_passed(after_line(s.skip(2)), at);
        } else if starts_with(s, '/', '*') && after_block(s.skip(2)) is Some {
            lemma_blanks_are_passed(after_block(s.skip(2))->0, at);
        }
    }
}

/// Whether `r` is the end of `s`.
pub open spec fn is_end(r: Seq<char>, s: Seq<char>) -> bool {
    r.len() <= s.len() && r == s.skip(s.len() - r.len())
}

/// What is found of a script is its end, from the two words on.
pub proof fn law_an_export_is_part_of_the_script(script: Seq<char>)
    ensures
        default_export(script) matches Some(found) ==> {
            &&& found.len() <= script.len()
            &&& found == script.skip(script.len() - found.len())
            &&& found.take(6) == "export"@
            &&& exported(found).len() + 13 < found.len()
            &&& exported(found) == script.skip(script.len() - exported(found).len())
            &&& script.subrange(
                script.len() - exported(found).len() - 7,
                script.len() - exported(found).len(),
            ) == "default"@
        },
{
    lemma_export_is_end(script, start());
    if let Some(found) = default_export(script) {
        reveal_strlit("export");
        reveal_strlit("default");
        let x = after_name(found);
        let y = from_code(x);
        let z = after_name(y);
        lemma_name_end(found);
        lemma_code_end(x);
        lemma_name_end(y);
        assert(found.take(6) =~= name_of(found));
        lemma_end_of_end(x, found, script);
        lemma_end_of_end(y, x, script);
        lemma_end_of_end(z, y, script);
        assert(y.take(7) == "default"@);
        assert(script.subrange(script.len() - z.len() - 7, script.len() - z.len()) =~= y.take(7));
        if x.len() == y.len() {
            assert(x =~= y);
            lemma_name_stops(found);
            assert(x[0] == "default"@[0]) by {
                assert(y.take(7)[0] == y[0]);
            }
        }
    }
}

/// No name goes on behind a name.
proof fn lemma_name_stops(s: Seq<char>)
    ensures
        after_name(s).len() > 0 ==> !is_name_char(after_name(s)[0]),
    decreases s.len(),
{
    if s.len() > 0 && is_name_char(s[0]) {
        lemma_name_stops(s.skip(1));
    }
}

proof fn lemma_end_of_end(a: Seq<char>, b: Seq<char>, c: Seq<char>)
    requires
        is_end(a, b),
        is_end(b, c),
    ensures
        is_end(a, c),
{
    assert(a =~= c.skip(c.len() - a.len()));
}

proof fn lemma_export_is_end(s: Seq<char>, at: Place)
    ensures
        export_from(s, at) matches Some(found) ==> is_end(found, s) && starts_export(found),
    decreases s.len(),
{
    if s.len() > 0 {
        if at_top(at) && starts_export(s) {
            assert(s.skip(0) =~= s);
        } else if let Some((rest, next)) = behind_piece(s, at) {
            if rest.len() < s.len() {
                lemma_export_is_end(rest, next);
                lemma_piece_end(s, at);
                if let Some(found) = export_from(rest, next) {
                    lemma_end_of_end(found, rest, s);
                }
            }
        }
    }
}

proof fn lemma_skip_end(r: Seq<char>, s: Seq<char>, n: int)
    requires
        0 <= n <= s.len(),
        is_end(r, s.skip(n)),
    ensures
        is_end(r, s),
{
    assert(r =~= s.skip(s.len() - r.len()));
}

proof fn lemma_piece_end(s: Seq<char>, at: Place)
    requires
        s.len() > 0,
    ensures
        behind_piece(s, at) matches Some((rest, _)) ==> is_end(rest, s),
{
    let t = s.skip(1);
    assert(t == s.skip(s.len() - t.len()));
    if s.len() >= 2 {
        let u = s.skip(2);
        assert(u == s.skip(s.len() - u.len()));
        lemma_line_end(u);
        lemma_skip_end(after_line(u), s, 2);
        lemma_block_end(u);
        if let Some(r) = after_block(u) {
            lemma_skip_end(r, s, 2);
        }
    }
    lemma_name_end(s);
    lemma_string_end(t, s[0]);
    if let Some(r) = after_string(t, s[0]) {
        lemma_skip_end(r, s, 1);
    }
    lemma_template_end(t);
    if let Some((r, _)) = after_template(t) {
        lemma_skip_end(r, s, 1);
    }
    lemma_regex_end(t, false);
    if let Some(r) = after_regex(t, false) {
        lemma_skip_end(r, s, 1);
    }
}

proof fn lemma_line_end(s: Seq<char>)
    ensures
        is_end(after_line(s), s),
    decreases s.len(),
{
    if s.len() == 0 || is_line_end(s[0]) {
        assert(s.skip(0) =~= s);
    } else {
        lemma_line_end(s.skip(1));
        lemma_skip_end(after_line(s), s, 1);
    }
}

proof fn lemma_block_end(s: Seq<char>)
    ensures
        after_block(s) matches Some(r) ==> is_end(r, s),
    decreases s.len(),
{
    if s.len() >= 2 {
        if starts_with(s, '*', '/') {
            assert(s.skip(2) == s.skip(s.len() - s.skip(2).len()));
        } else {
            lemma_block_end(s.skip(1));
            if let Some(r) = after_block(s) {
                lemma_skip_end(r, s, 1);
            }
        }
    }
}

proof fn lemma_name_end(s: Seq<char>)
    ensures
        is_end(after_name(s), s),
    decreases s.len(),
{
    if s.len() == 0 || !is_name_char(s[0]) {
        assert(s.skip(0) =~= s);
    } else {
        lemma_name_end(s.skip(1));
        lemma_skip_end(after_name(s), s, 1);
    }
}

proof fn lemma_code_end(s: Seq<char>)
    ensures
        is_end(from_code(s), s),
    decreases s.len(),
{
    lemma_after_line(s.skip(2));
    lemma_after_block(s.skip(2));
    if s.len() > 0 && is_blank(s[0]) {
        lemma_code_end(s.skip(1));
        lemma_skip_end(from_code(s), s, 1);
    } else if starts_with(s, '/', '/') {
        let r = after_line(s.skip(2));
        lemma_line_end(s.skip(2));
        lemma_skip_end(r, s, 2);
        lemma_code_end(r);
        lemma_end_of_end(from_code(s), r, s);
    } else if starts_with(s, '/', '*') && after_block(s.skip(2)) is Some {
        let r = after_block(s.skip(2))->0;
        lemma_block_end(s.skip(2));
        lemma_skip_end(r, s, 2);
        lemma_code_end(r);
        lemma_end_of_end(from_code(s), r, s);
    } else {
        assert(s.skip(0) =~= s);
    }
}

proof fn lemma_string_end(s: Seq<char>, quote: char)
    ensures
        after_string(s, quote) matches Some(r) ==> is_end(r, s),
    decreases s.len(),
{
    if s.len() > 0 && s[0] != '\n' && s[0] != '\r' {
        let n = if s[0] == quote {
            0int
        } else if s.len() >= 3 && s[0] == '\\' && s[1] == '\r' && s[2] == '\n' {
            3
        } else if s.len() >= 2 && s[0] == '\\' {
            2
        } else {
            1
        };
        if n == 0 {
            assert(s.skip(1) == s.skip(s.len() - s.skip(1).len()));
        } else {
            lemma_string_end(s.skip(n), quote);
            if let Some(r) = after_string(s, quote) {
                lemma_skip_end(r, s, n);
            }
        }
    }
}

proof fn lemma_template_end(s: Seq<char>)
    ensures
        after_template(s) matches Some((r, _)) ==> is_end(r, s),
    decreases s.len(),
{
    if s.len() > 0 {
        if s[0] == '`' {
            assert(s.skip(1) == s.skip(s.len() - s.skip(1).len()));
        } else if starts_with(s, '$', '{') {
            assert(s.skip(2) == s.skip(s.len() - s.skip(2).len()));
        } else {
            let n = if s.len() >= 2 && s[0] == '\\' {
                2int
            } else {
                1
            };
            lemma_template_end(s.skip(n));
            if let Some((r, _)) = after_template(s) {
                lemma_skip_end(r, s, n);
            }
        }
    }
}

proof fn lemma_regex_end(s: Seq<char>, class: bool)
    ensures
        after_regex(s, class) matches Some(r) ==> is_end(r, s),
    decreases s.len(),
{
    if s.len() > 0 && !is_line_end(s[0]) {
        if s[0] == '/' && !class {
            assert(s.skip(1) == s.skip(s.len() - s.skip(1).len()));
        } else if s.len() >= 2 && s[0] == '\\' && !is_line_end(s[1]) {
            lemma_regex_end(s.skip(2), class);
            if let Some(r) = after_regex(s, class) {
                lemma_skip_end(r, s, 2);
            }
        } else {
            lemma_regex_end(s.skip(1), s[0] == '[' || (class && s[0] != ']'));
            if let Some(r) = after_regex(s, class) {
                lemma_skip_end(r, s, 1);
            }
        }
    }
}

/// What follows a text does not change how its line ends.
proof fn lemma_line_goes_on(s: Seq<char>, t: Seq<char>)
    requires
        after_line(s).len() > 0,
    ensures
        after_line(s + t) == after_line(s) + t,
        after_line(s).last() == s.last(),
    decreases s.len(),
{
    assert((s + t)[0] == s[0]);
    if !is_line_end(s[0]) {
        assert((s + t).skip(1) =~= s.skip(1) + t);
        lemma_line_goes_on(s.skip(1), t);
    }
}

proof fn lemma_block_goes_on(s: Seq<char>, t: Seq<char>)
    requires
        after_block(s) is Some,
    ensures
        after_block(s + t) == Some(after_block(s)->0 + t),
        after_block(s)->0.len() > 0 ==> after_block(s)->0.last() == s.last(),
    decreases s.len(),
{
    assert((s + t)[0] == s[0] && (s + t)[1] == s[1]);
    if starts_with(s, '*', '/') {
        assert((s + t).skip(2) =~= s.skip(2) + t);
    } else {
        assert((s + t).skip(1) =~= s.skip(1) + t);
        lemma_block_goes_on(s.skip(1), t);
    }
}

proof fn lemma_name_goes_on(s: Seq<char>, t: Seq<char>)
    requires
        s.len() > 0,
        !is_name_char(s.last()),
    ensures
        after_name(s).len() > 0,
        after_name(s).last() == s.last(),
        after_name(s + t) == after_name(s) + t,
        name_of(s + t) == name_of(s),
    decreases s.len(),
{
    assert((s + t)[0] == s[0]);
    if is_name_char(s[0]) {
        assert((s + t).skip(1) =~= s.skip(1) + t);
        lemma_name_goes_on(s.skip(1), t);
    }
    let n = s.len() - after_name(s).len();
    lemma_after_name(s);
    assert((s + t).take(n) =~= s.take(n));
}

proof fn lemma_after_name(s: Seq<char>)
    ensures
        after_name(s).len() <= s.len(),
    decreases s.len(),
{
    if s.len() > 0 && is_name_char(s[0]) {
        lemma_after_name(s.skip(1));
    }
}

proof fn lemma_string_goes_on(s: Seq<char>, t: Seq<char>, quote: char)
    requires
        after_string(s, quote) is Some,
    ensures
        after_string(s + t, quote) == Some(after_string(s, quote)->0 + t),
        after_string(s, quote)->0.len() > 0 ==> after_string(s, quote)->0.last() == s.last(),
    decreases s.len(),
{
    let u = s + t;
    assert(u[0] == s[0]);
    assert(u.skip(1) =~= s.skip(1) + t);
    if s[0] != quote {
        assert(after_string(Seq::empty(), quote) is None);
        assert(s.len() == 1 ==> s.skip(1) =~= Seq::empty());
        assert(s.len() == 2 ==> s.skip(2) =~= Seq::empty());
        assert(u[1] == s[1]);
        assert(u.skip(2) =~= s.skip(2) + t);
        if s.len() >= 3 && s[0] == '\\' && s[1] == '\r' && s[2] == '\n' {
            assert(u.skip(3) =~= s.skip(3) + t);
            lemma_string_goes_on(s.skip(3), t, quote);
        } else if s[0] == '\\' {
            assert(s.len() >= 3);
            assert(u[2] == s[2]);
            lemma_string_goes_on(s.skip(2), t, quote);
        } else {
            lemma_string_goes_on(s.skip(1), t, quote);
        }
    }
}

proof fn lemma_template_goes_on(s: Seq<char>, t: Seq<char>)
    requires
        after_template(s) is Some,
    ensures
        after_template(s + t) == Some(((after_template(s)->0).0 + t, (after_template(s)->0).1)),
        (after_template(s)->0).0.len() > 0 ==> (after_template(s)->0).0.last() == s.last(),
    decreases s.len(),
{
    let u = s + t;
    assert(u[0] == s[0]);
    assert(u.skip(1) =~= s.skip(1) + t);
    if s[0] != '`' {
        assert(after_template(Seq::empty()) is None);
        assert(s.len() == 1 ==> s.skip(1) =~= Seq::empty());
        assert(s.len() >= 2);
        assert(u[1] == s[1]);
        assert(u.skip(2) =~= s.skip(2) + t);
        if starts_with(s, '$', '{') {
        } else if s[0] == '\\' {
            lemma_template_goes_on(s.skip(2), t);
        } else {
            lemma_template_goes_on(s.skip(1), t);
        }
    }
}

proof fn lemma_regex_goes_on(s: Seq<char>, t: Seq<char>, class: bool)
    requires
        after_regex(s, class) is Some,
    ensures
        after_regex(s + t, class) == Some(after_regex(s, class)->0 + t),
        after_regex(s, class)->0.len() > 0 ==> after_regex(s, class)->0.last() == s.last(),
    decreases s.len(),
{
    let u = s + t;
    assert(u[0] == s[0]);
    assert(u.skip(1) =~= s.skip(1) + t);
    if !(s[0] == '/' && !class) {
        assert(after_regex(Seq::empty(), false) is None && after_regex(Seq::empty(), true) is None);
        assert(s.len() == 1 ==> s.skip(1) =~= Seq::empty());
        assert(s.len() >= 2);
        assert(u[1] == s[1]);
        assert(u.skip(2) =~= s.skip(2) + t);
        if s[0] == '\\' && !is_line_end(s[1]) {
            lemma_regex_goes_on(s.skip(2), t, class);
        } else {
            lemma_regex_goes_on(s.skip(1), t, s[0] == '[' || (class && s[0] != ']'));
        }
    }
}

/// What follows a text that goes on behind its first piece does not change the
/// piece, where something parts it from the text.
proof fn lemma_piece_goes_on(s: Seq<char>, t: Seq<char>, at: Place)
    requires
        s.len() > 0,
        is_parting(s.last()),
        behind_piece(s, at) matches Some((rest, _)) && 0 < rest.len() < s.len(),
    ensures
        behind_piece(s + t, at) == Some(
            ((behind_piece(s, at)->0).0 + t, (behind_piece(s, at)->0).1),
        ),
        (behind_piece(s, at)->0).0.last() == s.last(),
{
    let u = s + t;
    assert(s.len() >= 2);
    assert(u[0] == s[0] && u[1] == s[1]);
    assert(u.skip(1) =~= s.skip(1) + t);
    assert(u.skip(2) =~= s.skip(2) + t);
    assert(starts_with(s, '<', '!') ==> (starts_with(s.skip(2), '-', '-') <==> starts_with(
        u.skip(2),
        '-',
        '-',
    ))) by {
        if starts_with(s, '<', '!') {
            assert(s.len() >= 3);
            assert(u.skip(2)[0] == s[2] && s.skip(2)[0] == s[2]);
            if s.len() >= 4 {
                assert(u.skip(2)[1] == s[3] && s.skip(2)[1] == s[3]);
            }
        }
    }
    if is_blank(s[0]) {
    } else if starts_with(s, '/', '/') || (starts_with(s, '<', '!') && starts_with(
        s.skip(2),
        '-',
        '-',
    )) {
        lemma_line_goes_on(s.skip(2), t);
    } else if starts_with(s, '/', '*') {
        lemma_block_goes_on(s.skip(2), t);
    } else if is_name_char(s[0]) {
        lemma_name_goes_on(s, t);
    } else if s[0] == '"' || s[0] == '\'' {
        lemma_string_goes_on(s.skip(1), t, s[0]);
    } else if s[0] == '`' {
        lemma_template_goes_on(s.skip(1), t);
    } else if s[0] == '/' {
        if at.before is Operator {
            lemma_regex_goes_on(s.skip(1), t, false);
        }
    } else if s[0] == '}' && at.inside.last() is Template {
        lemma_template_goes_on(s.skip(1), t);
    }
}

/// A text that is read up to what parts it from the rest ends with that.
proof fn lemma_last_parts(s: Seq<char>, at: Place)
    requires
        ends_at_top(s, at),
    ensures
        s.len() > 0,
        is_parting(s.last()),
    decreases s.len(),
{
    if !(s.len() == 1 && is_parting(s[0])) {
        let (rest, next) = behind_piece(s, at)->0;
        lemma_last_parts(rest, next);
        lemma_piece_is_front(s, at);
    }
}

/// What is left behind a piece is the end of the text.
proof fn lemma_piece_is_front(s: Seq<char>, at: Place)
    requires
        s.len() > 0,
        behind_piece(s, at) matches Some((rest, _)) && rest.len() > 0,
    ensures
        (behind_piece(s, at)->0).0.last() == s.last(),
{
    let t = Seq::empty();
    if starts_with(s, '/', '/') || starts_with(s, '<', '!') {
        if after_line(s.skip(2)).len() > 0 {
            lemma_line_goes_on(s.skip(2), t);
        }
    } else if starts_with(s, '/', '*') {
        lemma_block_goes_on(s.skip(2), t);
    } else if is_name_char(s[0]) {
        lemma_name_is_front(s);
    } else if s[0] == '"' || s[0] == '\'' {
        lemma_string_goes_on(s.skip(1), t, s[0]);
    } else if s[0] == '`' {
        lemma_template_goes_on(s.skip(1), t);
    } else if s[0] == '/' {
        if at.before is Operator {
            lemma_regex_goes_on(s.skip(1), t, false);
        }
    } else if s[0] == '}' && at.inside.len() > 0 && at.inside.last() is Template {
        lemma_template_goes_on(s.skip(1), t);
    }
}

proof fn lemma_name_is_front(s: Seq<char>)
    ensures
        after_name(s).len() > 0 ==> after_name(s).last() == s.last(),
    decreases s.len(),
{
    if s.len() > 0 && is_name_char(s[0]) {
        lemma_name_is_front(s.skip(1));
    }
}

/// The whitespace and the comments before the code of a text do not depend on an
/// export behind the text.
proof fn lemma_code_goes_on(s: Seq<char>, t: Seq<char>, at: Place)
    requires
        ends_at_top(s, at),
        starts_export(t),
    ensures
        from_code(s + t) == from_code(s) + t,
        from_code(s).len() > 0 ==> ends_at_top(from_code(s), at),
    decreases s.len(),
{
    let u = s + t;
    lemma_last_parts(s, at);
    assert(u[0] == s[0]);
    assert(u.skip(1) =~= s.skip(1) + t);
    if s.len() == 1 {
        lemma_export_is_code(t);
        assert(s.skip(1) + t =~= t);
        assert(from_code(s.skip(1)).len() == 0);
    } else {
        assert(u[1] == s[1]);
        assert(u.skip(1) =~= s.skip(1) + t);
        assert(u.skip(2) =~= s.skip(2) + t);
        lemma_after_line(s.skip(2));
        lemma_after_block(s.skip(2));
        if is_blank(s[0]) {
            lemma_no_name(s);
            lemma_code_goes_on(s.skip(1), t, at);
        } else if starts_with(s, '/', '/') {
            lemma_no_name(s);
            lemma_last_parts(after_line(s.skip(2)), at);
            lemma_line_goes_on(s.skip(2), t);
            lemma_code_goes_on(after_line(s.skip(2)), t, at);
        } else if starts_with(s, '/', '*') {
            lemma_no_name(s);
            lemma_block_goes_on(s.skip(2), t);
            lemma_code_goes_on(after_block(s.skip(2))->0, t, at);
        }
    }
}

proof fn lemma_export_is_code(s: Seq<char>)
    requires
        starts_export(s),
    ensures
        s.len() > 0,
        is_name_char(s[0]),
        from_code(s) == s,
{
    if s.len() == 0 || !is_name_char(s[0]) {
        lemma_no_name(s);
    }
}

proof fn lemma_export_behind(s: Seq<char>, t: Seq<char>, at: Place)
    requires
        ends_at_top(s, at),
        starts_export(t),
    ensures
        export_from(s + t, at) == Some(t),
    decreases s.len(),
{
    let u = s + t;
    lemma_last_parts(s, at);
    assert(u[0] == s[0]);
    if s.len() == 1 {
        lemma_no_name(u);
        lemma_export_is_code(t);
        assert(u.skip(1) =~= t);
        let (rest, next) = behind_piece(u, at)->0;
        assert(rest == t && at_top(next));
        assert(export_from(rest, next) == Some(t));
    } else {
        let (rest, next) = behind_piece(s, at)->0;
        lemma_last_parts(rest, next);
        lemma_piece_goes_on(s, t, at);
        lemma_export_behind(rest, t, next);
        if at_top(at) && starts_export(u) {
            lemma_name_goes_on(s, t);
            if is_name_char(s[0]) {
                let x = after_name(s);
                lemma_code_goes_on(x, t, next);
                if from_code(x).len() > 0 {
                    lemma_last_parts(from_code(x), next);
                    lemma_name_goes_on(from_code(x), t);
                } else {
                    reveal_strlit("export");
                    reveal_strlit("default");
                    assert(from_code(x) + t =~= t);
                    assert(name_of(t).len() != "default"@.len());
                }
            } else {
                lemma_no_name(u);
            }
        }
    }
}

// ---- finding it ----

/// Where the line that goes on at `from` ends.
fn find_line_end(v: &Vec<char>, from: usize) -> (n: usize)
    requires
        from <= v@.len(),
    ensures
        from <= n <= v@.len(),
        v@.skip(n as int) == after_line(v@.skip(from as int)),
{
    let mut n: usize = from;
    while n < v.len() && !line_end(v[n])
        invariant
            from <= n <= v@.len(),
            after_line(v@.skip(from as int)) == after_line(v@.skip(n as int)),
        decreases v@.len() - n,
    {
        assert(v@.skip(n as int).skip(1) =~= v@.skip(n + 1));
        n = n + 1;
    }
    n
}

/// Where the block comment that goes on at `from` ends, if it does.
fn find_block_end(v: &Vec<char>, from: usize) -> (r: Option<usize>)
    requires
        from <= v@.len(),
    ensures
        match r {
            Some(n) => from < n <= v@.len() && after_block(v@.skip(from as int)) == Some(
                v@.skip(n as int),
            ),
            None => after_block(v@.skip(from as int)) is None,
        },
{
    let mut n: usize = from;
    while v.len() - n >= 2
        invariant
            from <= n <= v@.len(),
            after_block(v@.skip(from as int)) == after_block(v@.skip(n as int)),
        decreases v@.len() - n,
    {
        if v[n] == '*' && v[n + 1] == '/' {
            assert(v@.skip(n as int).skip(2) =~= v@.skip(n + 2));
            return Some(n + 2);
        }
        assert(v@.skip(n as int).skip(1) =~= v@.skip(n + 1));
        n = n + 1;
    }
    None
}

/// Where the name at `from` ends.
fn find_name_end(v: &Vec<char>, from: usize) -> (n: usize)
    requires
        from <= v@.len(),
    ensures
        from <= n <= v@.len(),
        v@.skip(n as int) == after_name(v@.skip(from as int)),
        v@.subrange(from as int, n as int) == name_of(v@.skip(from as int)),
        from < v@.len() && is_name_char(v@[from as int]) ==> from < n,
{
    let mut n: usize = from;
    while n < v.len() && name_char(v[n])
        invariant
            from <= n <= v@.len(),
            after_name(v@.skip(from as int)) == after_name(v@.skip(n as int)),
            n == from || is_name_char(v@[from as int]),
        decreases v@.len() - n,
    {
        assert(v@.skip(n as int).skip(1) =~= v@.skip(n + 1));
        n = n + 1;
    }
    assert(v@.subrange(from as int, n as int) =~= name_of(v@.skip(from as int)));
    n
}

/// Where the first code from `from` on stands.
fn find_code(v: &Vec<char>, from: usize) -> (n: usize)
    requires
        from <= v@.len(),
    ensures
        from <= n <= v@.len(),
        v@.skip(n as int) == from_code(v@.skip(from as int)),
{
    let mut n: usize = from;
    while n < v.len()
        invariant
            from <= n <= v@.len(),
            from_code(v@.skip(from as int)) == from_code(v@.skip(n as int)),
        ensures
            from <= n <= v@.len(),
            v@.skip(n as int) == from_code(v@.skip(from as int)),
        decreases v@.len() - n,
    {
        let ghost here = v@.skip(n as int);
        if blank(v[n]) {
            assert(here.skip(1) =~= v@.skip(n + 1));
            n = n + 1;
        } else if v.len() - n >= 2 && v[n] == '/' && v[n + 1] == '/' {
            assert(here.skip(2) =~= v@.skip(n + 2));
            n = find_line_end(v, n + 2);
        } else if v.len() - n >= 2 && v[n] == '/' && v[n + 1] == '*' {
            assert(here.skip(2) =~= v@.skip(n + 2));
            match find_block_end(v, n + 2) {
                Some(end) => {
                    n = end;
                },
                None => {
                    break ;
                },
            }
        } else {
            break ;
        }
    }
    n
}

/// Where the string that goes on at `from` ends, if it does.
fn find_string_end(v: &Vec<char>, from: usize, quote: char) -> (r: Option<usize>)
    requires
        from <= v@.len(),
    ensures
        match r {
            Some(n) => from < n <= v@.len() && after_string(v@.skip(from as int), quote) == Some(
                v@.skip(n as int),
            ),
            None => after_string(v@.skip(from as int), quote) is None,
        },
{
    let mut n: usize = from;
    while n < v.len() && v[n] != '\n' && v[n] != '\r'
        invariant
            from <= n <= v@.len(),
            after_string(v@.skip(from as int), quote) == after_string(v@.skip(n as int), quote),
        decreases v@.len() - n,
    {
        let ghost here = v@.skip(n as int);
        if v[n] == quote {
            assert(here.skip(1) =~= v@.skip(n + 1));
            return Some(n + 1);
        }
        if v.len() - n >= 3 && v[n] == '\\' && v[n + 1] == '\r' && v[n + 2] == '\n' {
            assert(here.skip(3) =~= v@.skip(n + 3));
            n = n + 3;
        } else if v.len() - n >= 2 && v[n] == '\\' {
            assert(here.skip(2) =~= v@.skip(n + 2));
            n = n + 2;
        } else {
            assert(here.skip(1) =~= v@.skip(n + 1));
            n = n + 1;
        }
    }
    None
}

/// Where the characters of the template that go on at `from` end, if they do,
/// and whether they end with the template.
fn find_template_end(v: &Vec<char>, from: usize) -> (r: Option<(usize, bool)>)
    requires
        from <= v@.len(),
    ensures
        match r {
            Some((n, ends)) => from < n <= v@.len() && after_template(v@.skip(from as int)) == Some(
                (v@.skip(n as int), ends),
            ),
            None => after_template(v@.skip(from as int)) is None,
        },
{
    let mut n: usize = from;
    while n < v.len()
        invariant
            from <= n <= v@.len(),
            after_template(v@.skip(from as int)) == after_template(v@.skip(n as int)),
        decreases v@.len() - n,
    {
        let ghost here = v@.skip(n as int);
        if v[n] == '`' {
            assert(here.skip(1) =~= v@.skip(n + 1));
            return Some((n + 1, true));
        }
        if v.len() - n >= 2 && v[n] == '$' && v[n + 1] == '{' {
            assert(here.skip(2) =~= v@.skip(n + 2));
            return Some((n + 2, false));
        }
        if v.len() - n >= 2 && v[n] == '\\' {
            assert(here.skip(2) =~= v@.skip(n + 2));
            n = n + 2;
        } else {
            assert(here.skip(1) =~= v@.skip(n + 1));
            n = n + 1;
        }
    }
    None
}

/// Where the regular expression that goes on at `from` ends, if it does.
fn find_regex_end(v: &Vec<char>, from: usize) -> (r: Option<usize>)
    requires
        from <= v@.len(),
    ensures
        match r {
            Some(n) => from < n <= v@.len() && after_regex(v@.skip(from as int), false) == Some(
                v@.skip(n as int),
            ),
            None => after_regex(v@.skip(from as int), false) is None,
        },
{
    let mut n: usize = from;
    let mut class = false;
    while n < v.len() && !line_end(v[n])
        invariant
            from <= n <= v@.len(),
            after_regex(v@.skip(from as int), false) == after_regex(v@.skip(n as int), class),
        decreases v@.len() - n,
    {
        let ghost here = v@.skip(n as int);
        if v[n] == '/' && !class {
            assert(here.skip(1) =~= v@.skip(n + 1));
            return Some(n + 1);
        }
        if v.len() - n >= 2 && v[n] == '\\' && !line_end(v[n + 1]) {
            assert(here.skip(2) =~= v@.skip(n + 2));
            n = n + 2;
        } else {
            assert(here.skip(1) =~= v@.skip(n + 1));
            class = v[n] == '[' || (class && v[n] != ']');
            n = n + 1;
        }
    }
    None
}

/// What stands before the place behind a word.
fn word_kind(word: &str, before: Before) -> (r: Before)
    ensures
        r == behind_word(word@, before),
{
    let header = same_text(word, "if") || same_text(word, "while") || same_text(word, "for")
        || same_text(word, "with");
    match before {
        Before::Dot => Before::Operand,
        Before::Header if header || same_text(word, "await") => Before::Header,
        _ => if header {
            Before::Header
        } else if same_text(word, "return") || same_text(word, "typeof") || same_text(
            word,
            "instanceof",
        ) || same_text(word, "in") || same_text(word, "new") || same_text(word, "delete")
            || same_text(word, "void") || same_text(word, "throw") || same_text(word, "case")
            || same_text(word, "do") || same_text(word, "else") {
            Before::Operator
        } else if same_text(word, "await") || same_text(word, "yield") || same_text(word, "of") {
            Before::Unclear
        } else {
            Before::Operand
        },
    }
}

/// Passes over the characters of a template.
fn pass_template(v: &Vec<char>, from: usize, inside: &mut Vec<Inside>) -> (r: Option<
    (usize, Before),
>)
    requires
        from <= v@.len(),
    ensures
        passes(
            v@,
            from as int,
            r,
            final(inside)@,
            behind_template(v@.skip(from as int), old(inside)@),
        ),
{
    match find_template_end(v, from) {
        Some((n, true)) => Some((n, Before::Operand)),
        Some((n, false)) => {
            inside.push(Inside::Template);
            Some((n, Before::Operator))
        },
        None => None,
    }
}

/// Whether `r` and `inside` are what was found behind a piece of `s` at `from`.
spec fn passes(
    s: Seq<char>,
    from: int,
    r: Option<(usize, Before)>,
    inside: Seq<Inside>,
    found: Option<(Seq<char>, Place)>,
) -> bool {
    match r {
        Some((n, before)) => from < n <= s.len() && found == Some(
            (s.skip(n as int), Place { before, inside }),
        ),
        None => found is None,
    }
}

/// Passes over a closing bracket.
fn pass_closing(v: &Vec<char>, from: usize, inside: &mut Vec<Inside>) -> (r: Option<
    (usize, Before),
>)
    requires
        from < v.len(),
    ensures
        passes(
            v@,
            from as int,
            r,
            final(inside)@,
            behind_closing(v@.skip(from as int), old(inside)@),
        ),
{
    assert(v@.skip(from as int).skip(1) =~= v@.skip(from + 1));
    let c = v[from];
    match inside.pop() {
        Some(Inside::Condition) if c == ')' => Some((from + 1, Before::Operator)),
        Some(Inside::Round) if c == ')' => Some((from + 1, Before::Operand)),
        Some(Inside::Square) if c == ']' => Some((from + 1, Before::Operand)),
        Some(Inside::Curly) if c == '}' => Some((from + 1, Before::Unclear)),
        Some(Inside::Template) if c == '}' => pass_template(v, from + 1, inside),
        _ => None,
    }
}

/// Passes over the piece at `from`.
fn pass_piece(v: &Vec<char>, from: usize, before: Before, inside: &mut Vec<Inside>) -> (r: Option<
    (usize, Before),
>)
    requires
        from < v.len(),
    ensures
        passes(
            v@,
            from as int,
            r,
            final(inside)@,
            behind_piece(v@.skip(from as int), Place { before, inside: old(inside)@ }),
        ),
{
    let ghost s = v@.skip(from as int);
    assert(s.skip(1) =~= v@.skip(from + 1));
    let c = v[from];
    let n: usize = from + 1;
    let pair = v.len() - from >= 2;
    if pair {
        assert(s.skip(2) =~= v@.skip(from + 2));
    }
    if blank(c) {
        Some((n, before))
    } else if pair && c == '/' && v[n] == '/' {
        Some((find_line_end(v, from + 2), before))
    } else if v.len() - from >= 4 && c == '<' && v[n] == '!' && v[from + 2] == '-' && v[from + 3]
        == '-' {
        Some((find_line_end(v, from + 2), before))
    } else if pair && c == '/' && v[n] == '*' {
        match find_block_end(v, from + 2) {
            Some(end) => Some((end, before)),
            None => None,
        }
    } else if name_char(c) {
        let end = find_name_end(v, from);
        let word = string_of(v, from, end);
        Some((end, word_kind(word.as_str(), before)))
    } else if c == '"' || c == '\'' {
        match find_string_end(v, n, c) {
            Some(end) => Some((end, Before::Operand)),
            None => None,
        }
    } else if c == '`' {
        pass_template(v, n, inside)
    } else if c == '/' {
        match before {
            Before::Operand => Some((n, Before::Operator)),
            Before::Operator => match find_regex_end(v, n) {
                Some(end) => Some((end, Before::Operand)),
                None => None,
            },
            _ => None,
        }
    } else if c == '(' {
        match before {
            Before::Header => inside.push(Inside::Condition),
            _ => inside.push(Inside::Round),
        }
        Some((n, Before::Operator))
    } else if c == '[' {
        inside.push(Inside::Square);
        Some((n, Before::Operator))
    } else if c == '{' {
        inside.push(Inside::Curly);
        Some((n, Before::Operator))
    } else if c == ')' || c == ']' || c == '}' {
        pass_closing(v, from, inside)
    } else if pair && ((c == '+' && v[n] == '+') || (c == '-' && v[n] == '-')) {
        Some((from + 2, before))
    } else if c == '.' {
        Some((n, Before::Dot))
    } else {
        Some((n, Before::Operator))
    }
}

/// Where the default export at `from` ends, if one stands there.
fn find_export_end(v: &Vec<char>, from: usize) -> (r: Option<usize>)
    requires
        from <= v@.len(),
    ensures
        match r {
            Some(n) => from <= n <= v@.len() && starts_export(v@.skip(from as int)) && v@.skip(
                n as int,
            ) == exported(v@.skip(from as int)),
            None => !starts_export(v@.skip(from as int)),
        },
{
    let end = find_name_end(v, from);
    let first = string_of(v, from, end);
    if !same_text(first.as_str(), "export") {
        return None;
    }
    let code = find_code(v, end);
    let n = find_name_end(v, code);
    let second = string_of(v, code, n);
    if same_text(second.as_str(), "default") {
        Some(n)
    } else {
        None
    }
}

/// Where the default export of a script starts and ends.
pub fn find_default_export(v: &Vec<char>) -> (r: Option<(usize, usize)>)
    ensures
        match r {
            Some((from, to)) => {
                &&& from <= to <= v@.len()
                &&& default_export(v@) == Some(v@.skip(from as int))
                &&& v@.skip(to as int) == exported(v@.skip(from as int))
            },
            None => default_export(v@) is None,
        },
{
    let mut n: usize = 0;
    let mut before = Before::Operator;
    let mut inside: Vec<Inside> = Vec::new();
    assert(v@.skip(0) =~= v@);
    assert(inside@ =~= Seq::empty());
    while n < v.len()
        invariant
            n <= v@.len(),
            default_export(v@) == export_from(v@.skip(n as int), Place { before, inside: inside@ }),
        decreases v@.len() - n,
    {
        let dot = match before {
            Before::Dot => true,
            _ => false,
        };
        if inside.len() == 0 && !dot {
            match find_export_end(v, n) {
                Some(to) => {
                    return Some((n, to));
                },
                None => {},
            }
        }
        match pass_piece(v, n, before, &mut inside) {
            Some((next, now)) => {
                n = next;
                before = now;
            },
            None => {
                return None;
            },
        }
    }
    None
}

} // verus!
