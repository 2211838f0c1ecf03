//! Text helpers for working with model responses: stripping Markdown
//! code fences, splitting bullet or numbered lists into clean lines, and
//! digging a JSON value out of surrounding prose.
use vstd::prelude::*;

use crate::agent::StepError;
use crate::agent::StepErrorView;
use crate::text::is_digit;
use crate::text::is_digit_char;
use crate::text::is_space;
use crate::text::is_space_char;

verus! {

/// `s` without its leading whitespace.
pub open spec fn trim_front(s: Seq<char>) -> Seq<char>
    decreases s.len(),
{
    if s.len() > 0 && is_space_char(s[0]) {
        trim_front(s.drop_first())
    } else {
        s
    }
}

/// `s` without its trailing whitespace.
pub open spec fn trim_back(s: Seq<char>) -> Seq<char>
    decreases s.len(),
{
    if s.len() > 0 && is_space_char(s.last()) {
        trim_back(s.drop_last())
    } else {
        s
    }
}

/// `s` without leading or trailing whitespace: what `str::trim` keeps.
pub open spec fn trimmed(s: Seq<char>) -> Seq<char> {
    trim_back(trim_front(s))
}

/// The index of the first newline in `s`, or its length.
pub open spec fn first_newline(s: Seq<char>) -> int
    decreases s.len(),
{
    if s.len() == 0 {
        0
    } else if s[0] == '\n' {
        0
    } else {
        1 + first_newline(s.drop_first())
    }
}

/// A line with a trailing carriage return removed, as `str::lines` hands
/// lines out.
pub open spec fn chomp(s: Seq<char>) -> Seq<char> {
    if s.len() > 0 && s.last() == '\r' {
        s.drop_last()
    } else {
        s
    }
}

/// The lines of `s`, as `str::lines` yields them: split at newlines,
/// each with a trailing carriage return removed, a final line ending
/// optional.
pub open spec fn split_lines(s: Seq<char>) -> Seq<Seq<char>>
    decreases s.len(),
    via split_lines_decreases
{
    if s.len() == 0 {
        Seq::empty()
    } else {
        let k = first_newline(s);
        if k == s.len() {
            seq![chomp(s)]
        } else {
            seq![chomp(s.take(k))] + split_lines(s.skip(k + 1))
        }
    }
}

/// Lines joined with single newlines.
pub open spec fn join_lines(ls: Seq<Seq<char>>) -> Seq<char>
    decreases ls.len(),
{
    if ls.len() == 0 {
        Seq::empty()
    } else if ls.len() == 1 {
        ls[0]
    } else {
        ls[0] + seq!['\n'] + join_lines(ls.drop_first())
    }
}

/// Whether trimmed text opens with a three-backtick fence.
pub open spec fn has_fence(t: Seq<char>) -> bool {
    t.len() >= 3 && t[0] == '`' && t[1] == '`' && t[2] == '`'
}

/// What stripping code fences yields: for fenced text, the lines between
/// the fence lines, joined by newlines; otherwise the trimmed text
/// itself.
pub open spec fn stripped_fences(s: Seq<char>) -> Seq<char> {
    let t = trimmed(s);
    if has_fence(t) {
        let ls = split_lines(t);
        if ls.len() >= 2 {
            join_lines(ls.subrange(1, ls.len() - 1))
        } else {
            Seq::empty()
        }
    } else {
        t
    }
}

proof fn lemma_first_newline_bounds(s: Seq<char>)
    ensures
        0 <= first_newline(s) <= s.len(),
    decreases s.len(),
{
    if s.len() > 0 && s[0] != '\n' {
        lemma_first_newline_bounds(s.drop_first());
    }
}

#[via_fn]
proof fn split_lines_decreases(s: Seq<char>) {
    lemma_first_newline_bounds(s);
}

proof fn lemma_first_newline_at(s: Seq<char>, i: int)
    requires
        0 <= i <= s.len(),
        forall|j: int| 0 <= j < i ==> s[j] != '\n',
        i < s.len() ==> s[i] == '\n',
    ensures
        first_newline(s) == i,
    decreases s.len(),
{
    if s.len() > 0 && s[0] != '\n' {
        let rest = s.drop_first();
        assert(forall|j: int| 0 <= j < i - 1 ==> rest[j] != '\n');
        lemma_first_newline_at(rest, i - 1);
    }
}

/// The substring of `s` covering the character positions `from..to`.
fn substr<'a>(s: &'a str, from: usize, to: usize) -> (r: &'a str)
    requires
        from <= to <= s@.len(),
    ensures
        r@ == s@.subrange(from as int, to as int),
{
    s.substring_char(from, to)
}

/// `s` with surrounding whitespace removed, as `str::trim` returns it.
fn trim_str<'a>(s: &'a str) -> (r: &'a str)
    ensures
        r@ == trimmed(s@),
{
    let n = s.unicode_len();
    let mut i: usize = 0;
    proof {
        assert(s@.skip(0) =~= s@);
    }
    while i < n && is_space(s.get_char(i))
        invariant
            n == s@.len(),
            i <= n,
            trim_front(s@) == trim_front(s@.skip(i as int)),
        decreases n - i,
    {
        proof {
            assert(s@.skip(i as int).drop_first() =~= s@.skip(i + 1));
        }
        i += 1;
    }
    proof {
        assert(trim_front(s@) == s@.skip(i as int));
    }
    let mut j: usize = n;
    proof {
        assert(s@.subrange(i as int, j as int) =~= s@.skip(i as int));
    }
    while j > i && is_space(s.get_char(j - 1))
        invariant
            n == s@.len(),
            i <= j <= n,
            trim_front(s@) == s@.skip(i as int),
            trim_back(s@.skip(i as int)) == trim_back(s@.subrange(i as int, j as int)),
        decreases j,
    {
        proof {
            assert(s@.subrange(i as int, j as int).drop_last() =~= s@.subrange(i as int, j - 1));
        }
        j -= 1;
    }
    proof {
        assert(trim_back(s@.subrange(i as int, j as int)) == s@.subrange(i as int, j as int));
    }
    substr(s, i, j)
}

/// A line as `str::lines` would yield it: `s` without one trailing
/// carriage return.
fn chomp_str<'a>(s: &'a str) -> (r: &'a str)
    ensures
        r@ == chomp(s@),
{
    let n = s.unicode_len();
    if n > 0 && s.get_char(n - 1) == '\r' {
        proof {
            assert(s@.subrange(0, n - 1) =~= s@.drop_last());
        }
        substr(s, 0, n - 1)
    } else {
        proof {
            assert(s@.subrange(0, n as int) =~= s@);
        }
        substr(s, 0, n)
    }
}

/// The position of the first newline in `s`, or its length.
fn find_newline(s: &str) -> (r: usize)
    ensures
        r == first_newline(s@),
        r <= s@.len(),
{
    let n = s.unicode_len();
    let mut i: usize = 0;
    while i < n && s.get_char(i) != '\n'
        invariant
            n == s@.len(),
            i <= n,
            forall|j: int| 0 <= j < i ==> s@[j] != '\n',
        decreases n - i,
    {
        i += 1;
    }
    proof {
        lemma_first_newline_at(s@, i as int);
    }
    i
}

/// The lines of `s`, as `str::lines` yields them.
fn lines_of(s: &str) -> (v: Vec<String>)
    ensures
        v@.map_values(|m: String| m@) == split_lines(s@),
    decreases s@.len(),
{
    let n = s.unicode_len();
    let mut v: Vec<String> = Vec::new();
    if n == 0 {
        proof {
            assert(v@.map_values(|m: String| m@) =~= split_lines(s@));
        }
        return v;
    }
    let k = find_newline(s);
    if k == n {
        v.push(chomp_str(s).to_owned());
        proof {
            assert(v@.map_values(|m: String| m@) =~= split_lines(s@));
        }
        v
    } else {
        proof {
            assert(s@.subrange(0, k as int) =~= s@.take(k as int));
        }
        let head = chomp_str(substr(s, 0, k)).to_owned();
        let tail_str = substr(s, k + 1, n);
        proof {
            assert(tail_str@ == s@.skip(k + 1));
        }
        let mut tail = lines_of(tail_str);
        let ghost tailv = tail@;
        v.push(head);
        v.append(&mut tail);
        proof {
            assert(v@ =~= seq![head].add(tailv));
            assert(v@.map_values(|m: String| m@) =~= seq![chomp(s@.take(k as int))].add(
                tailv.map_values(|m: String| m@),
            ));
        }
        v
    }
}

proof fn lemma_join_push(ls: Seq<Seq<char>>, x: Seq<char>)
    requires
        ls.len() > 0,
    ensures
        join_lines(ls.push(x)) == join_lines(ls) + seq!['\n'] + x,
    decreases ls.len(),
{
    let p = ls.push(x);
    assert(p[0] == ls[0]);
    if ls.len() == 1 {
        assert(p.drop_first() =~= seq![x]);
        assert(join_lines(p.drop_first()) == x);
        assert(join_lines(p) == ls[0] + seq!['\n'] + x);
    } else {
        assert(p.drop_first() =~= ls.drop_first().push(x));
        lemma_join_push(ls.drop_first(), x);
        assert(join_lines(p) == p[0] + seq!['\n'] + (join_lines(ls.drop_first()) + seq!['\n']
            + x));
        assert(join_lines(ls) + seq!['\n'] + x == (ls[0] + seq!['\n'] + join_lines(
            ls.drop_first(),
        )) + seq!['\n'] + x);
        assert(join_lines(p) =~= join_lines(ls) + seq!['\n'] + x);
    }
}

/// The middle lines `v[from..to]`, joined with newlines.
fn join_range(v: &Vec<String>, from: usize, to: usize) -> (r: String)
    requires
        from <= to <= v@.len(),
    ensures
        r@ == join_lines(v@.map_values(|m: String| m@).subrange(from as int, to as int)),
{
    let ghost ls = v@.map_values(|m: String| m@);
    if from == to {
        proof {
            assert(ls.subrange(from as int, to as int) =~= Seq::<Seq<char>>::empty());
        }
        return String::new();
    }
    let mut r = v[from].clone();
    let mut idx = from + 1;
    proof {
        assert(ls.subrange(from as int, from + 1) =~= seq![ls[from as int]]);
        assert(join_lines(ls.subrange(from as int, from + 1)) == ls[from as int]);
    }
    while idx < to
        invariant
            from < idx <= to <= v@.len(),
            ls == v@.map_values(|m: String| m@),
            r@ == join_lines(ls.subrange(from as int, idx as int)),
        decreases to - idx,
    {
        r.append("\n");
        r.append(v[idx].as_str());
        proof {
            reveal_strlit("\n");
            assert("\n"@ =~= seq!['\n']);
            assert(ls.subrange(from as int, idx + 1) =~= ls.subrange(
                from as int,
                idx as int,
            ).push(ls[idx as int]));
            lemma_join_push(ls.subrange(from as int, idx as int), ls[idx as int]);
        }
        idx += 1;
    }
    r
}

/// Strip a surrounding Markdown code fence: for text that, trimmed,
/// opens with three backticks, return the lines between the first and
/// last line; otherwise return the trimmed text.
pub fn strip_code_fences(response: &str) -> (r: String)
    ensures
        r@ == stripped_fences(response@),
{
    let t = trim_str(response);
    let n = t.unicode_len();
    if n >= 3 && t.get_char(0) == '`' && t.get_char(1) == '`' && t.get_char(2) == '`' {
        let lines = lines_of(t);
        let count = lines.len();
        if count < 2 {
            String::new()
        } else {
            join_range(&lines, 1, count - 1)
        }
    } else {
        t.to_owned()
    }
}

/// `s` without its leading ASCII digits.
pub open spec fn strip_digits(s: Seq<char>) -> Seq<char>
    decreases s.len(),
{
    if s.len() > 0 && is_digit_char(s[0]) {
        strip_digits(s.drop_first())
    } else {
        s
    }
}

/// `s` without one leading `c`, if it starts with one.
pub open spec fn strip_prefix_char(s: Seq<char>, c: char) -> Seq<char> {
    if s.len() > 0 && s[0] == c {
        s.drop_first()
    } else {
        s
    }
}

/// One list line, cleaned: trimmed, with a leading item number (digits
/// and one dot) or bullet (one dash or asterisk) removed, and trimmed
/// again.
pub open spec fn cleaned_line(l: Seq<char>) -> Seq<char> {
    trimmed(
        strip_prefix_char(
            strip_prefix_char(strip_prefix_char(strip_digits(trimmed(l)), '.'), '-'),
            '*',
        ),
    )
}

/// The non-empty cleaned lines of `s`, in order.
pub open spec fn parsed_lines(s: Seq<char>) -> Seq<Seq<char>> {
    split_lines(s).map_values(|l: Seq<char>| cleaned_line(l)).filter(
        |l: Seq<char>| l.len() != 0,
    )
}

proof fn lemma_strip_digits_skip(s: Seq<char>, i: int)
    requires
        0 <= i <= s.len(),
        forall|j: int| 0 <= j < i ==> is_digit_char(s[j]),
        i < s.len() ==> !is_digit_char(s[i]),
    ensures
        strip_digits(s) == s.skip(i),
    decreases i,
{
    if i == 0 {
        assert(s.skip(0) =~= s);
    } else {
        assert(is_digit_char(s[0]));
        let rest = s.drop_first();
        assert(forall|j: int| 0 <= j < i - 1 ==> is_digit_char(rest[j]));
        lemma_strip_digits_skip(rest, i - 1);
        assert(rest.skip(i - 1) =~= s.skip(i));
    }
}

fn clean_line(l: &str) -> (r: String)
    ensures
        r@ == cleaned_line(l@),
{
    let t = trim_str(l);
    let n = t.unicode_len();
    let mut i: usize = 0;
    while i < n && is_digit(t.get_char(i))
        invariant
            n == t@.len(),
            i <= n,
            forall|j: int| 0 <= j < i ==> is_digit_char(t@[j]),
        decreases n - i,
    {
        i += 1;
    }
    proof {
        lemma_strip_digits_skip(t@, i as int);
    }
    let ghost after_digits = t@.skip(i as int);
    if i < n && t.get_char(i) == '.' {
        proof {
            assert(t@.skip(i as int).drop_first() =~= t@.skip(i + 1));
        }
        i += 1;
    }
    let ghost after_dot = t@.skip(i as int);
    proof {
        assert(after_dot == strip_prefix_char(after_digits, '.'));
    }
    if i < n && t.get_char(i) == '-' {
        proof {
            assert(t@.skip(i as int).drop_first() =~= t@.skip(i + 1));
        }
        i += 1;
    }
    let ghost after_dash = t@.skip(i as int);
    proof {
        assert(after_dash == strip_prefix_char(after_dot, '-'));
    }
    if i < n && t.get_char(i) == '*' {
        proof {
            assert(t@.skip(i as int).drop_first() =~= t@.skip(i + 1));
        }
        i += 1;
    }
    proof {
        assert(t@.skip(i as int) == strip_prefix_char(after_dash, '*'));
        assert(t@.subrange(i as int, n as int) =~= t@.skip(i as int));
    }
    trim_str(substr(t, i, n)).to_owned()
}

/// Split a model response into clean list items: one per line, trimmed,
/// with leading item numbers or bullets removed, empty lines dropped.
pub fn parse_lines(response: &str) -> (r: Vec<String>)
    ensures
        r@.map_values(|m: String| m@) == parsed_lines(response@),
{
    let lines = lines_of(response);
    let ghost ls = lines@.map_values(|m: String| m@);
    let mut out: Vec<String> = Vec::new();
    let mut i: usize = 0;
    proof {
        reveal(Seq::filter);
        assert(ls.subrange(0, 0) =~= Seq::<Seq<char>>::empty());
        assert(out@.map_values(|m: String| m@) =~= ls.subrange(0, 0).map_values(
            |l: Seq<char>| cleaned_line(l),
        ).filter(|l: Seq<char>| l.len() != 0));
    }
    while i < lines.len()
        invariant
            i <= lines@.len(),
            ls == lines@.map_values(|m: String| m@),
            out@.map_values(|m: String| m@) == ls.subrange(0, i as int).map_values(
                |l: Seq<char>| cleaned_line(l),
            ).filter(|l: Seq<char>| l.len() != 0),
        decreases lines@.len() - i,
    {
        let cleaned = clean_line(lines[i].as_str());
        let ghost out0 = out@;
        let ghost sub = ls.subrange(0, i as int).map_values(|l: Seq<char>| cleaned_line(l));
        let ghost sub1 = ls.subrange(0, i + 1).map_values(|l: Seq<char>| cleaned_line(l));
        proof {
            assert(ls[i as int] == lines@[i as int]@);
            assert(cleaned@ == cleaned_line(ls[i as int]));
            assert(sub1 =~= sub.push(cleaned@));
            assert(sub1.drop_last() =~= sub);
            assert(sub1.last() == cleaned@);
        }
        if !cleaned.as_str().is_empty() {
            let ghost keep = cleaned@;
            out.push(cleaned);
            proof {
                reveal(Seq::filter);
                assert(keep.len() != 0);
                assert(out@ =~= out0.push(out@.last()));
                assert(out@.last()@ == keep);
                assert(out@.map_values(|m: String| m@) =~= out0.map_values(
                    |m: String| m@,
                ).push(keep));
                assert(sub1.filter(|l: Seq<char>| l.len() != 0) == sub.filter(
                    |l: Seq<char>| l.len() != 0,
                ).push(keep));
            }
        } else {
            proof {
                reveal(Seq::filter);
                assert(cleaned@.len() == 0);
                assert(sub1.filter(|l: Seq<char>| l.len() != 0) == sub.filter(
                    |l: Seq<char>| l.len() != 0,
                ));
            }
        }
        i += 1;
    }
    proof {
        assert(ls.subrange(0, ls.len() as int) =~= ls);
    }
    out
}

/// The index of the first opening brace or bracket in `s`, or its
/// length when there is none.
pub open spec fn first_opener(s: Seq<char>) -> int
    decreases s.len(),
{
    if s.len() == 0 {
        0
    } else if s[0] == '{' || s[0] == '[' {
        0
    } else {
        1 + first_opener(s.drop_first())
    }
}

/// Whether the text holds an opening brace or bracket anywhere.
pub open spec fn has_json_opener(s: Seq<char>) -> bool {
    first_opener(s) < s.len()
}

/// The candidate JSON text: everything from the first opening brace or
/// bracket on.
pub open spec fn json_candidate(s: Seq<char>) -> Seq<char> {
    s.skip(first_opener(s))
}

proof fn lemma_first_opener_at(s: Seq<char>, i: int)
    requires
        0 <= i <= s.len(),
        forall|j: int| 0 <= j < i ==> !(s[j] == '{' || s[j] == '['),
        i < s.len() ==> (s[i] == '{' || s[i] == '['),
    ensures
        first_opener(s) == i,
    decreases s.len(),
{
    if s.len() > 0 && !(s[0] == '{' || s[0] == '[') {
        let rest = s.drop_first();
        assert(forall|j: int| 0 <= j < i - 1 ==> !(rest[j] == '{' || rest[j] == '['));
        lemma_first_opener_at(rest, i - 1);
    }
}

/// Turn the outcome of parsing a JSON candidate into the caller's
/// result: the rendered value, or the invalid-JSON error when nothing
/// parsed.
pub fn rendered_or_invalid(rendered: Option<String>) -> (r: Result<String, StepError>)
    ensures
        rendered matches Some(text) ==> (r matches Ok(v) && v@ == text@),
        rendered is None ==> (r matches Err(e) && e@ == StepErrorView::Invalid(
            "invalid json"@,
        )),
{
    match rendered {
        Some(text) => Ok(text),
        None => Err(StepError::invalid("invalid json")),
    }
}

/// Extract the first well-formed JSON object or array embedded in the
/// text: strip any code fence, scan for the first brace or bracket, and
/// parse from there, rendering the parsed value back as JSON text.
/// Text with no opening brace or bracket, and text whose candidate does
/// not parse, is rejected as invalid.
pub fn extract_json(response: &str) -> (r: Result<String, StepError>)
    ensures
        ({
            let t = trimmed(stripped_fences(response@));
            if !has_json_opener(t) {
                r matches Err(e) && e@ == StepErrorView::Invalid("invalid json"@)
            } else {
                match crate::json::first_json_rendering(json_candidate(t)) {
                    Some(text) => r matches Ok(v) && v@ == text,
                    None => r matches Err(e) && e@ == StepErrorView::Invalid("invalid json"@),
                }
            }
        }),
{
    let cleaned = strip_code_fences(response);
    let t = trim_str(cleaned.as_str());
    let n = t.unicode_len();
    let mut i: usize = 0;
    while i < n && !(t.get_char(i) == '{' || t.get_char(i) == '[')
        invariant
            n == t@.len(),
            i <= n,
            forall|j: int| 0 <= j < i ==> !(t@[j] == '{' || t@[j] == '['),
        decreases n - i,
    {
        i += 1;
    }
    proof {
        lemma_first_opener_at(t@, i as int);
    }
    if i == n {
        return Err(StepError::invalid("invalid json"));
    }
    let slice = substr(t, i, n);
    proof {
        assert(slice@ =~= json_candidate(t@));
    }
    rendered_or_invalid(crate::json::parse_and_render(slice))
}

} // verus!
