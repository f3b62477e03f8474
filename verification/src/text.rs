//! Text handling shared by the other modules.

use vstd::prelude::*;

verus! {

/// `String::push`: appends the given character to the end of the string.
pub assume_specification[ String::push ](s: &mut String, c: char)
    ensures
        final(s)@ == old(s)@.push(c),
;

/// The code points with the Unicode property `White_Space`.
pub open spec fn is_white(c: char) -> bool {
    let u = c as u32;
    ||| 0x9 <= u <= 0xd
    ||| u == 0x20
    ||| u == 0x85
    ||| u == 0xa0
    ||| u == 0x1680
    ||| 0x2000 <= u <= 0x200a
    ||| u == 0x2028
    ||| u == 0x2029
    ||| u == 0x202f
    ||| u == 0x205f
    ||| u == 0x3000
}

/// Whether a character counts as whitespace.
pub fn is_whitespace(c: char) -> (b: bool)
    ensures
        b == is_white(c),
{
    let u: u32 = c as u32;
    (0x9 <= u && u <= 0xd) || u == 0x20 || u == 0x85 || u == 0xa0 || u == 0x1680 || (0x2000 <= u && u
        <= 0x200a) || u == 0x2028 || u == 0x2029 || u == 0x202f || u == 0x205f || u == 0x3000
}

/// The characters of a string, in order.
pub fn chars_of(s: &str) -> (v: Vec<char>)
    ensures
        v@ == s@,
{
    let mut v: Vec<char> = Vec::new();
    for c in it: s.chars()
        invariant
            v@ == s@.take(it.index() as int),
            it.seq() == s@,
    {
        assert(s@.take(it.index() + 1) =~= s@.take(it.index() as int).push(c));
        v.push(c);
    }
    assert(s@.take(s@.len() as int) =~= s@);
    v
}

/// The string made of the characters at `from..to`.
pub fn string_of(v: &Vec<char>, from: usize, to: usize) -> (s: String)
    requires
        from <= to <= v@.len(),
    ensures
        s@ == v@.subrange(from as int, to as int),
{
    let mut s = String::new();
    for i in from..to
        invariant
            from <= to <= v@.len(),
            s@ == v@.subrange(from as int, i as int),
    {
        s.push(v[i]);
        assert(v@.subrange(from as int, i as int).push(v@[i as int]) =~= v@.subrange(
            from as int,
            i + 1,
        ));
    }
    s
}

/// `a` followed by `b`.
pub fn join2(a: &str, b: &str) -> (s: String)
    ensures
        s@ == a@ + b@,
{
    let mut s = a.to_string();
    s.append(b);
    s
}

/// `a`, `b` and `c` in a row.
pub fn join3(a: &str, b: &str, c: &str) -> (s: String)
    ensures
        s@ == a@ + b@ + c@,
{
    let mut s = a.to_string();
    s.append(b);
    s.append(c);
    s
}

/// Whether two texts hold the same characters.
pub fn same_text(a: &str, b: &str) -> (r: bool)
    ensures
        r == (a@ == b@),
{
    let x = a.to_string();
    let y = b.to_string();
    x == y
}

// ---- decimal numerals ----

/// The character for a decimal digit.
pub open spec fn digit(d: nat) -> char {
    (48 + d) as char
}

/// The decimal numeral of a number, without leading zeros.
pub open spec fn numeral(n: nat) -> Seq<char>
    decreases n,
{
    if n < 10 {
        seq![digit(n)]
    } else {
        numeral(n / 10).push(digit(n % 10))
    }
}

/// The decimal numeral of `n`.
pub fn decimal(n: u64) -> (s: String)
    ensures
        s@ == numeral(n as nat),
    decreases n,
{
    let d: u8 = (n % 10) as u8;
    let c: char = (48u8 + d) as char;
    assert(c == digit(d as nat));
    if n < 10 {
        let mut s = String::new();
        s.push(c);
        assert(s@ =~= seq![digit(n as nat)]);
        s
    } else {
        let mut s = decimal(n / 10);
        s.push(c);
        s
    }
}

/// The number that a decimal numeral stands for.
pub open spec fn value_of(numeral: Seq<char>) -> int
    decreases numeral.len(),
{
    if numeral.len() == 0 {
        0
    } else {
        10 * value_of(numeral.drop_last()) + (numeral.last() as int - '0' as int)
    }
}

/// A numeral is made of digits, reads back as its number, and has no leading
/// zero.
pub proof fn law_numerals_read_back(n: nat)
    ensures
        numeral(n).len() > 0,
        forall|i: int| 0 <= i < numeral(n).len() ==> '0' <= #[trigger] numeral(n)[i] <= '9',
        value_of(numeral(n)) == n,
        n >= 10 ==> numeral(n).len() > 1,
        numeral(n).len() > 1 ==> numeral(n)[0] != '0',
    decreases n,
{
    if n < 10 {
        assert(numeral(n).drop_last() =~= Seq::empty());
        assert(value_of(numeral(n).drop_last()) == 0);
    } else {
        law_numerals_read_back(n / 10);
        assert(numeral(n).drop_last() =~= numeral(n / 10));
        assert(numeral(n)[0] == numeral(n / 10)[0]);
    }
}

// ---- words ----

/// What splitting at whitespace has found in `s`: the finished words, and the
/// word that the end of `s` may still continue.
pub open spec fn word_scan(s: Seq<char>) -> (Seq<Seq<char>>, Seq<char>)
    decreases s.len(),
{
    if s.len() == 0 {
        (Seq::empty(), Seq::empty())
    } else {
        let (done, open) = word_scan(s.drop_last());
        if !is_white(s.last()) {
            (done, open.push(s.last()))
        } else if open.len() == 0 {
            (done, open)
        } else {
            (done.push(open), Seq::empty())
        }
    }
}

/// The maximal runs of characters that are not whitespace, in order.
pub open spec fn words(s: Seq<char>) -> Seq<Seq<char>> {
    let (done, open) = word_scan(s);
    if open.len() == 0 {
        done
    } else {
        done.push(open)
    }
}

/// Splits a text at whitespace.
pub fn split_whitespace(s: &str) -> (r: Vec<String>)
    ensures
        r.deep_view() == words(s@),
{
    let v = chars_of(s);
    let mut done: Vec<String> = Vec::new();
    let mut open = String::new();
    for i in 0..v.len()
        invariant
            v@ == s@,
            (done.deep_view(), open@) == word_scan(s@.take(i as int)),
    {
        let c = v[i];
        assert(s@.take(i + 1).drop_last() =~= s@.take(i as int));
        assert(s@.take(i + 1).last() == c);
        let ghost before = done.deep_view();
        if !is_whitespace(c) {
            open.push(c);
        } else if !open.as_str().is_empty() {
            let ghost word = open@;
            done.push(open);
            assert(done.deep_view() =~= before.push(word));
            open = String::new();
        }
    }
    assert(s@.take(s@.len() as int) =~= s@);
    if !open.as_str().is_empty() {
        let ghost before = done.deep_view();
        let ghost word = open@;
        done.push(open);
        assert(done.deep_view() =~= before.push(word));
    }
    done
}

/// Whether the stretch of `s` from `span.0` to `span.1` is a maximal run of
/// characters that are not whitespace: it is not empty, holds none, and whitespace
/// or an end of the text bounds it on both sides.
pub open spec fn is_maximal(s: Seq<char>, span: (int, int)) -> bool {
    let (from, to) = span;
    &&& 0 <= from < to <= s.len()
    &&& forall|k: int| from <= k < to ==> !is_white(#[trigger] s[k])
    &&& from == 0 || is_white(s[from - 1])
    &&& to == s.len() || is_white(s[to])
}

/// Whether `spans` are the places at which `found` stands in `s`, in order.
pub open spec fn stand_at(s: Seq<char>, spans: Seq<(int, int)>, found: Seq<Seq<char>>) -> bool {
    &&& spans.len() == found.len()
    &&& forall|i: int|
        0 <= i < found.len() ==> #[trigger] found[i] == s.subrange(spans[i].0, spans[i].1)
    &&& forall|i: int, j: int|
        0 <= i < j < spans.len() ==> (#[trigger] spans[i]).1 < (#[trigger] spans[j]).0
}

/// Whether a place in a text lies in one of the spans.
pub open spec fn covered(spans: Seq<(int, int)>, k: int) -> bool {
    exists|i: int| 0 <= i < spans.len() && (#[trigger] spans[i]).0 <= k < spans[i].1
}

/// The words of a text are its maximal runs of characters that are not
/// whitespace, in order, and every such character stands in one of them.
pub proof fn law_words_are_maximal_runs(s: Seq<char>) -> (spans: Seq<(int, int)>)
    ensures
        stand_at(s, spans, words(s)),
        forall|i: int| 0 <= i < spans.len() ==> is_maximal(s, #[trigger] spans[i]),
        forall|k: int| 0 <= k < s.len() && !is_white(#[trigger] s[k]) ==> covered(spans, k),
{
    let done = lemma_word_scan(s);
    let open = word_scan(s).1;
    if open.len() == 0 {
        done
    } else {
        let last = (s.len() - open.len(), s.len() as int);
        let spans = done.push(last);
        assert forall|i: int| 0 <= i < spans.len() implies is_maximal(s, #[trigger] spans[i]) by {
            if i < done.len() {
                assert(spans[i] == done[i]);
            }
        }
        assert forall|i: int| 0 <= i < words(s).len() implies #[trigger] words(s)[i] == s.subrange(
            spans[i].0,
            spans[i].1,
        ) by {
            if i < done.len() {
                assert(spans[i] == done[i]);
                assert(words(s)[i] == word_scan(s).0[i]);
            }
        }
        assert forall|i: int, j: int| 0 <= i < j < spans.len() implies (#[trigger] spans[i]).1 < (
        #[trigger] spans[j]).0 by {
            assert(spans[i] == done[i]);
            if j < done.len() {
                assert(spans[j] == done[j]);
            }
        }
        assert forall|k: int| 0 <= k < s.len() && !is_white(#[trigger] s[k]) implies covered(
            spans,
            k,
        ) by {
            if k < s.len() - open.len() {
                let i = choose|i: int|
                    0 <= i < done.len() && (#[trigger] done[i]).0 <= k < done[i].1;
                assert(spans[i] == done[i]);
            } else {
                assert(spans[done.len() as int] == last);
            }
        }
        spans
    }
}

/// The finished words are maximal runs that end before the open one, and the
/// open one ends with the text.
proof fn lemma_word_scan(s: Seq<char>) -> (spans: Seq<(int, int)>)
    ensures
        stand_at(s, spans, word_scan(s).0),
        forall|i: int|
            0 <= i < spans.len() ==> is_maximal(s, #[trigger] spans[i]) && spans[i].1 < s.len()
                - word_scan(s).1.len(),
        word_scan(s).1.len() <= s.len(),
        word_scan(s).1 == s.skip(s.len() - word_scan(s).1.len()),
        word_scan(s).1.len() > 0 ==> is_maximal(
            s,
            (s.len() - word_scan(s).1.len(), s.len() as int),
        ),
        word_scan(s).1.len() == 0 ==> s.len() == 0 || is_white(s.last()),
        forall|k: int|
            0 <= k < s.len() - word_scan(s).1.len() && !is_white(#[trigger] s[k]) ==> covered(
                spans,
                k,
            ),
    decreases s.len(),
{
    if s.len() == 0 {
        assert(word_scan(s).1 =~= s.skip(0));
        Seq::empty()
    } else {
        let t = s.drop_last();
        let before = lemma_word_scan(t);
        let (done, open) = word_scan(t);
        let n = t.len() - open.len();
        assert forall|i: int| 0 <= i < before.len() implies is_maximal(s, #[trigger] before[i])
            && done[i] == s.subrange(before[i].0, before[i].1) by {
            let (from, to) = before[i];
            assert(is_maximal(t, before[i]));
            assert(done[i] == t.subrange(from, to));
            assert(t.subrange(from, to) =~= s.subrange(from, to));
            assert forall|k: int| from <= k < to implies !is_white(#[trigger] s[k]) by {
                assert(s[k] == t[k]);
            }
            assert(s[to] == t[to]);
        }
        assert forall|k: int| 0 <= k < n && !is_white(#[trigger] s[k]) implies covered(before, k) by {
            assert(s[k] == t[k]);
        }
        if !is_white(s.last()) {
            assert(open.push(s.last()) =~= s.skip(n));
            assert forall|k: int| n <= k < s.len() implies !is_white(#[trigger] s[k]) by {
                if k < t.len() {
                    assert(s[k] == t[k]);
                }
            }
            assert(n == 0 || is_white(s[n - 1])) by {
                if n > 0 {
                    assert(s[n - 1] == t[n - 1]);
                }
            }
            before
        } else if open.len() == 0 {
            assert(open =~= s.skip(s.len() as int));
            before
        } else {
            let spans = before.push((n, t.len() as int));
            let all = done.push(open);
            assert(word_scan(s).1 =~= s.skip(s.len() as int));
            assert(open =~= s.subrange(n, t.len() as int));
            assert(is_maximal(s, (n, t.len() as int))) by {
                assert forall|k: int| n <= k < t.len() implies !is_white(#[trigger] s[k]) by {
                    assert(s[k] == t[k]);
                }
                if n > 0 {
                    assert(s[n - 1] == t[n - 1]);
                }
            }
            assert forall|i: int| 0 <= i < spans.len() implies is_maximal(s, #[trigger] spans[i])
                && spans[i].1 < s.len() && all[i] == s.subrange(spans[i].0, spans[i].1) by {
                if i < before.len() {
                    assert(spans[i] == before[i]);
                    assert(all[i] == done[i]);
                }
            }
            assert forall|i: int, j: int| 0 <= i < j < spans.len() implies (#[trigger] spans[i]).1 < (
            #[trigger] spans[j]).0 by {
                assert(spans[i] == before[i]);
                if j < before.len() {
                    assert(spans[j] == before[j]);
                }
            }
            assert forall|k: int| 0 <= k < s.len() && !is_white(#[trigger] s[k]) implies covered(
                spans,
                k,
            ) by {
                if k < n {
                    let i = choose|i: int|
                        0 <= i < before.len() && (#[trigger] before[i]).0 <= k < before[i].1;
                    assert(spans[i] == before[i]);
                } else {
                    assert(spans[before.len() as int] == (n, t.len() as int));
                }
            }
            spans
        }
    }
}

// ---- lines ----

/// A finished line without the carriage return that ends it, if one does.
pub open spec fn without_cr(line: Seq<char>) -> Seq<char> {
    if line.len() > 0 && line.last() == '\r' {
        line.drop_last()
    } else {
        line
    }
}

/// What splitting into lines has found in `s`: the lines that a line feed has
/// ended, and what stands behind the last line feed.
pub open spec fn line_scan(s: Seq<char>) -> (Seq<Seq<char>>, Seq<char>)
    decreases s.len(),
{
    if s.len() == 0 {
        (Seq::empty(), Seq::empty())
    } else {
        let (done, open) = line_scan(s.drop_last());
        if s.last() == '\n' {
            (done.push(without_cr(open)), Seq::empty())
        } else {
            (done, open.push(s.last()))
        }
    }
}

/// The lines of a text. A line ends at a line feed, with or without a carriage
/// return in front of it; the line feed that would end the last line is
/// optional.
pub open spec fn text_lines(s: Seq<char>) -> Seq<Seq<char>> {
    let (done, open) = line_scan(s);
    if open.len() == 0 {
        done
    } else {
        done.push(open)
    }
}

/// Splits a text into its lines, without the line ends.
pub fn lines_of(s: &str) -> (r: Vec<String>)
    ensures
        r.deep_view() == text_lines(s@),
{
    let v = chars_of(s);
    let mut done: Vec<String> = Vec::new();
    let mut from: usize = 0;
    for i in 0..v.len()
        invariant
            v@ == s@,
            from <= i,
            (done.deep_view(), s@.subrange(from as int, i as int)) == line_scan(s@.take(i as int)),
    {
        assert(s@.take(i + 1).drop_last() =~= s@.take(i as int));
        assert(s@.take(i + 1).last() == v@[i as int]);
        let ghost before = done.deep_view();
        let ghost open = s@.subrange(from as int, i as int);
        if v[i] == '\n' {
            let cut: bool = i > from && v[i - 1] == '\r';
            let line = if cut {
                string_of(&v, from, i - 1)
            } else {
                string_of(&v, from, i)
            };
            assert(line@ =~= without_cr(open));
            done.push(line);
            assert(done.deep_view() =~= before.push(without_cr(open)));
            from = i + 1;
            assert(s@.subrange(from as int, i + 1) =~= Seq::<char>::empty());
        } else {
            assert(s@.subrange(from as int, i + 1) =~= open.push(v@[i as int]));
        }
    }
    assert(s@.take(s@.len() as int) =~= s@);
    if from < v.len() {
        let ghost before = done.deep_view();
        let line = string_of(&v, from, v.len());
        done.push(line);
        assert(done.deep_view() =~= before.push(line@));
    }
    done
}

/// A text without a line feed is one line, if it is not empty. Behind a line feed
/// the lines of the rest follow; the line before it ends there, without the
/// carriage return that may stand in front of the line feed.
pub proof fn law_lines_end_at_line_feeds(line: Seq<char>, rest: Seq<char>)
    requires
        !line.contains('\n'),
    ensures
        line.len() > 0 ==> text_lines(line) == seq![line],
        line.len() == 0 ==> text_lines(line).len() == 0,
        line.len() == 0 || line.last() != '\r' ==> text_lines(line + seq!['\n'] + rest) == seq![line]
            + text_lines(rest),
        text_lines(line + seq!['\r', '\n'] + rest) == seq![line] + text_lines(rest),
{
    lemma_line_scan_open(line);
    assert(Seq::<Seq<char>>::empty().push(line) =~= seq![line]);
    let ended = line + seq!['\n'];
    assert(ended.drop_last() =~= line);
    if line.len() == 0 || line.last() != '\r' {
        assert(text_lines(ended) =~= seq![line]);
        lemma_lines_after_newline(ended, rest);
    }
    let cr = line.push('\r');
    assert(!cr.contains('\n')) by {
        assert(forall|i: int| 0 <= i < line.len() ==> #[trigger] line[i] != '\n');
    }
    lemma_line_scan_open(cr);
    let crlf = line + seq!['\r', '\n'];
    assert(crlf.drop_last() =~= cr);
    assert(cr.drop_last() =~= line);
    assert(text_lines(crlf) =~= seq![line]);
    lemma_lines_after_newline(crlf, rest);
}

proof fn lemma_line_scan_open(s: Seq<char>)
    requires
        !s.contains('\n'),
    ensures
        line_scan(s) == (Seq::<Seq<char>>::empty(), s),
    decreases s.len(),
{
    if s.len() > 0 {
        assert(s[s.len() - 1] != '\n');
        assert(forall|i: int| 0 <= i < s.len() ==> #[trigger] s[i] != '\n');
        lemma_line_scan_open(s.drop_last());
        assert(s.drop_last().push(s.last()) =~= s);
    } else {
        assert(line_scan(s).1 =~= s);
    }
}

/// The lines of two texts stay apart if the first ends with a line feed.
pub proof fn lemma_lines_after_newline(a: Seq<char>, b: Seq<char>)
    requires
        a.len() > 0,
        a.last() == '\n',
    ensures
        text_lines(a + b) == text_lines(a) + text_lines(b),
{
    lemma_line_scan_after_newline(a, b);
    let (done, open) = line_scan(b);
    if open.len() > 0 {
        assert((line_scan(a).0 + done).push(open) =~= line_scan(a).0 + done.push(open));
    }
}

proof fn lemma_line_scan_after_newline(a: Seq<char>, b: Seq<char>)
    requires
        a.len() > 0,
        a.last() == '\n',
    ensures
        line_scan(a).1.len() == 0,
        line_scan(a + b) == (line_scan(a).0 + line_scan(b).0, line_scan(b).1),
    decreases b.len(),
{
    if b.len() == 0 {
        assert(a + b =~= a);
        assert(line_scan(a).0 + line_scan(b).0 =~= line_scan(a).0);
        assert(line_scan(a).1 =~= line_scan(b).1);
    } else {
        lemma_line_scan_after_newline(a, b.drop_last());
        assert((a + b).drop_last() =~= a + b.drop_last());
        let (done, open) = line_scan(b.drop_last());
        assert((line_scan(a).0 + done).push(without_cr(open)) =~= line_scan(a).0 + done.push(
            without_cr(open),
        ));
    }
}

// ---- trimming ----

/// `s` from its first character that `drop` does not name.
pub open spec fn trim_front(s: Seq<char>, drop: spec_fn(char) -> bool) -> Seq<char>
    decreases s.len(),
{
    if s.len() > 0 && drop(s[0]) {
        trim_front(s.skip(1), drop)
    } else {
        s
    }
}

/// `s` up to its last character that `drop` does not name.
pub open spec fn trim_back(s: Seq<char>, drop: spec_fn(char) -> bool) -> Seq<char>
    decreases s.len(),
{
    if s.len() > 0 && drop(s.last()) {
        trim_back(s.drop_last(), drop)
    } else {
        s
    }
}

/// `s` without the characters at both ends that `drop` names.
pub open spec fn trim_both(s: Seq<char>, drop: spec_fn(char) -> bool) -> Seq<char> {
    trim_back(trim_front(s, drop), drop)
}

/// Names whitespace.
pub open spec fn white() -> spec_fn(char) -> bool {
    |c: char| is_white(c)
}

/// Names one character.
pub open spec fn only(x: char) -> spec_fn(char) -> bool {
    |c: char| c == x
}

/// What is to be trimmed.
#[derive(Clone, Copy)]
enum Trimmed {
    White,
    Only(char),
}

impl Trimmed {
    spec fn names(self) -> spec_fn(char) -> bool {
        match self {
            Trimmed::White => white(),
            Trimmed::Only(x) => only(x),
        }
    }

    fn holds(self, c: char) -> (b: bool)
        ensures
            b == self.names()(c),
    {
        match self {
            Trimmed::White => is_whitespace(c),
            Trimmed::Only(x) => c == x,
        }
    }
}

fn trim(s: &str, drop: Trimmed) -> (r: String)
    ensures
        r@ == trim_both(s@, drop.names()),
{
    let v = chars_of(s);
    let mut from: usize = 0;
    assert(s@.skip(0) =~= s@);
    while from < v.len() && drop.holds(v[from])
        invariant
            v@ == s@,
            from <= v@.len(),
            trim_front(s@, drop.names()) == trim_front(s@.skip(from as int), drop.names()),
        decreases v@.len() - from,
    {
        assert(s@.skip(from as int).skip(1) =~= s@.skip(from + 1));
        from = from + 1;
    }
    let mut to: usize = v.len();
    assert(s@.subrange(from as int, to as int) =~= s@.skip(from as int));
    while from < to && drop.holds(v[to - 1])
        invariant
            v@ == s@,
            from <= to <= v@.len(),
            trim_both(s@, drop.names()) == trim_back(
                s@.subrange(from as int, to as int),
                drop.names(),
            ),
        decreases to,
    {
        assert(s@.subrange(from as int, to as int).drop_last() =~= s@.subrange(
            from as int,
            to - 1,
        ));
        to = to - 1;
    }
    string_of(&v, from, to)
}

/// The text without the whitespace at both ends.
pub fn trim_whitespace(s: &str) -> (r: String)
    ensures
        r@ == trim_both(s@, white()),
{
    trim(s, Trimmed::White)
}

/// The text without `x` at both ends.
pub fn trim_char(s: &str, x: char) -> (r: String)
    ensures
        r@ == trim_both(s@, only(x)),
{
    trim(s, Trimmed::Only(x))
}

/// What trimming leaves: nothing at its ends is dropped, and its characters are
/// those of a part of `s`.
pub proof fn lemma_trim_both(s: Seq<char>, drop: spec_fn(char) -> bool)
    ensures
        trim_both(s, drop).len() > 0 ==> !drop(trim_both(s, drop)[0]) && !drop(
            trim_both(s, drop).last(),
        ),
        forall|i: int|
            0 <= i < trim_both(s, drop).len() ==> s.contains(#[trigger] trim_both(s, drop)[i]),
{
    lemma_trim_front(s, drop);
    lemma_trim_back(trim_front(s, drop), drop);
}

/// Characters around a text that are dropped make no difference to trimming it.
pub proof fn lemma_trim_surroundings(
    front: Seq<char>,
    s: Seq<char>,
    back: Seq<char>,
    drop: spec_fn(char) -> bool,
)
    requires
        forall|i: int| 0 <= i < front.len() ==> drop(#[trigger] front[i]),
        forall|i: int| 0 <= i < back.len() ==> drop(#[trigger] back[i]),
    ensures
        trim_both(front + s + back, drop) == trim_both(s, drop),
{
    assert(front + s + back =~= front + (s + back));
    lemma_drop_front(front, s + back, drop);
    lemma_front_keeps_back(s, back, drop);
    lemma_drop_back(trim_front(s, drop), back, drop);
    if trim_front(s, drop).len() == 0 {
        lemma_drop_front(back, Seq::empty(), drop);
        assert(back + Seq::<char>::empty() =~= back);
    }
}

proof fn lemma_drop_front(front: Seq<char>, s: Seq<char>, drop: spec_fn(char) -> bool)
    requires
        forall|i: int| 0 <= i < front.len() ==> drop(#[trigger] front[i]),
    ensures
        trim_front(front + s, drop) == trim_front(s, drop),
    decreases front.len(),
{
    if front.len() == 0 {
        assert(front + s =~= s);
    } else {
        assert(drop(front[0]));
        assert((front + s).skip(1) =~= front.skip(1) + s);
        assert(forall|i: int| 0 <= i < front.skip(1).len() ==> #[trigger] front.skip(1)[i] == front[i + 1]);
        lemma_drop_front(front.skip(1), s, drop);
    }
}

proof fn lemma_drop_back(s: Seq<char>, back: Seq<char>, drop: spec_fn(char) -> bool)
    requires
        forall|i: int| 0 <= i < back.len() ==> drop(#[trigger] back[i]),
    ensures
        trim_back(s + back, drop) == trim_back(s, drop),
    decreases back.len(),
{
    if back.len() == 0 {
        assert(s + back =~= s);
    } else {
        assert(drop(back[back.len() - 1]));
        assert((s + back).drop_last() =~= s + back.drop_last());
        lemma_drop_back(s, back.drop_last(), drop);
    }
}

proof fn lemma_front_keeps_back(s: Seq<char>, back: Seq<char>, drop: spec_fn(char) -> bool)
    ensures
        trim_front(s + back, drop) == if trim_front(s, drop).len() == 0 {
            trim_front(back, drop)
        } else {
            trim_front(s, drop) + back
        },
    decreases s.len(),
{
    if s.len() == 0 {
        assert(s + back =~= back);
    } else if drop(s[0]) {
        assert((s + back).skip(1) =~= s.skip(1) + back);
        lemma_front_keeps_back(s.skip(1), back, drop);
    }
}

/// What trimming takes away: a text is what trimming leaves of it, between
/// characters that are dropped.
pub proof fn lemma_trimmed_parts(s: Seq<char>, drop: spec_fn(char) -> bool) -> (r: (
    Seq<char>,
    Seq<char>,
))
    ensures
        s == r.0 + trim_both(s, drop) + r.1,
        forall|i: int| 0 <= i < r.0.len() ==> drop(#[trigger] r.0[i]),
        forall|i: int| 0 <= i < r.1.len() ==> drop(#[trigger] r.1[i]),
{
    let front = lemma_front_part(s, drop);
    let back = lemma_back_part(trim_front(s, drop), drop);
    assert(s =~= front + trim_both(s, drop) + back);
    (front, back)
}

proof fn lemma_front_part(s: Seq<char>, drop: spec_fn(char) -> bool) -> (front: Seq<char>)
    ensures
        s == front + trim_front(s, drop),
        forall|i: int| 0 <= i < front.len() ==> drop(#[trigger] front[i]),
    decreases s.len(),
{
    if s.len() > 0 && drop(s[0]) {
        let rest = lemma_front_part(s.skip(1), drop);
        let front = seq![s[0]] + rest;
        assert(s =~= seq![s[0]] + s.skip(1));
        assert(front + trim_front(s, drop) =~= seq![s[0]] + (rest + trim_front(s, drop)));
        assert forall|i: int| 0 <= i < front.len() implies drop(#[trigger] front[i]) by {
            if i > 0 {
                assert(front[i] == rest[i - 1]);
            }
        }
        front
    } else {
        assert(s =~= Seq::empty() + s);
        Seq::empty()
    }
}

proof fn lemma_back_part(s: Seq<char>, drop: spec_fn(char) -> bool) -> (back: Seq<char>)
    ensures
        s == trim_back(s, drop) + back,
        forall|i: int| 0 <= i < back.len() ==> drop(#[trigger] back[i]),
    decreases s.len(),
{
    if s.len() > 0 && drop(s.last()) {
        let rest = lemma_back_part(s.drop_last(), drop);
        let back = rest.push(s.last());
        assert(s =~= s.drop_last().push(s.last()));
        assert(trim_back(s, drop) + back =~= (trim_back(s, drop) + rest).push(s.last()));
        back
    } else {
        assert(s =~= s + Seq::empty());
        Seq::empty()
    }
}

proof fn lemma_trim_front(s: Seq<char>, drop: spec_fn(char) -> bool)
    ensures
        trim_front(s, drop).len() > 0 ==> !drop(trim_front(s, drop)[0]),
        forall|i: int|
            0 <= i < trim_front(s, drop).len() ==> s.contains(#[trigger] trim_front(s, drop)[i]),
    decreases s.len(),
{
    if s.len() > 0 && drop(s[0]) {
        lemma_trim_front(s.skip(1), drop);
        assert forall|i: int| 0 <= i < trim_front(s, drop).len() implies s.contains(
            #[trigger] trim_front(s, drop)[i],
        ) by {
            let c = trim_front(s.skip(1), drop)[i];
            let j = choose|j: int| 0 <= j < s.skip(1).len() && s.skip(1)[j] == c;
            assert(s[j + 1] == c);
        }
    }
}

proof fn lemma_trim_back(s: Seq<char>, drop: spec_fn(char) -> bool)
    ensures
        trim_back(s, drop).len() > 0 ==> !drop(trim_back(s, drop).last()),
        trim_back(s, drop).is_prefix_of(s),
    decreases s.len(),
{
    if s.len() > 0 && drop(s.last()) {
        lemma_trim_back(s.drop_last(), drop);
        let r = trim_back(s, drop);
        assert(r =~= s.subrange(0, r.len() as int));
    }
}

/// Whitespace is trimmed from both ends of a text, all of it and nothing else.
pub proof fn law_only_whitespace_is_trimmed(s: Seq<char>) -> (r: (Seq<char>, Seq<char>))
    ensures
        ({
            let kept = trim_both(s, white());
            &&& s == r.0 + kept + r.1
            &&& forall|i: int| 0 <= i < r.0.len() ==> is_white(#[trigger] r.0[i])
            &&& forall|i: int| 0 <= i < r.1.len() ==> is_white(#[trigger] r.1[i])
            &&& kept.len() > 0 ==> !is_white(kept[0]) && !is_white(kept.last())
        }),
{
    lemma_trim_both(s, white());
    let (front, back) = lemma_trimmed_parts(s, white());
    assert forall|i: int| 0 <= i < front.len() implies is_white(#[trigger] front[i]) by {
        assert(white()(front[i]));
    }
    assert forall|i: int| 0 <= i < back.len() implies is_white(#[trigger] back[i]) by {
        assert(white()(back[i]));
    }
    (front, back)
}

/// A character is trimmed from both ends of a text, every time that it stands
/// there, and nothing else.
pub proof fn law_only_the_character_is_trimmed(s: Seq<char>, x: char) -> (r: (
    Seq<char>,
    Seq<char>,
))
    ensures
        ({
            let kept = trim_both(s, only(x));
            &&& s == r.0 + kept + r.1
            &&& forall|i: int| 0 <= i < r.0.len() ==> #[trigger] r.0[i] == x
            &&& forall|i: int| 0 <= i < r.1.len() ==> #[trigger] r.1[i] == x
            &&& kept.len() > 0 ==> kept[0] != x && kept.last() != x
        }),
{
    lemma_trim_both(s, only(x));
    let (front, back) = lemma_trimmed_parts(s, only(x));
    assert forall|i: int| 0 <= i < front.len() implies #[trigger] front[i] == x by {
        assert(only(x)(front[i]));
    }
    assert forall|i: int| 0 <= i < back.len() implies #[trigger] back[i] == x by {
        assert(only(x)(back[i]));
    }
    (front, back)
}

} // verus!
