//! Shell globs: `*`, `?` and `[...]`.
use crate::text::{chars_of, lower_all, lower_case_joins_the_cases, to_lower};
use vstd::prelude::*;
use vstd::slice::slice_subrange;

verus! {

/// Where the class body that starts at `from` ends: at the first `]`, or with the pattern.
pub open spec fn class_end(pat: Seq<char>, from: int) -> int
    decreases pat.len() - from,
{
    if from >= pat.len() {
        pat.len() as int
    } else if pat[from] == ']' {
        from
    } else {
        class_end(pat, from + 1)
    }
}

/// `ch` is one of the characters that a class body lists, each by itself or in a range `a-z`.
pub open spec fn class_lists(body: Seq<char>, ch: char) -> bool
    decreases body.len(),
{
    if body.len() == 0 {
        false
    } else if body.len() >= 3 && body[1] == '-' {
        body[0] <= ch <= body[2] || class_lists(body.skip(3), ch)
    } else {
        ch == body[0] || class_lists(body.skip(1), ch)
    }
}

/// The class that `pat` continues after its `[` is negated.
pub open spec fn class_negated(pat: Seq<char>) -> bool {
    pat.len() > 0 && pat[0] == '^'
}

/// Where the body of the class starts.
pub open spec fn class_start(pat: Seq<char>) -> int {
    if class_negated(pat) {
        1
    } else {
        0
    }
}

/// The body of the class: what stands between the `[` or `[^` and the `]`.
pub open spec fn class_body(pat: Seq<char>) -> Seq<char> {
    pat.subrange(class_start(pat), class_end(pat, class_start(pat)))
}

/// The class that `pat` continues after its `[` admits `ch`.
pub open spec fn class_admits(pat: Seq<char>, ch: char) -> bool {
    class_lists(class_body(pat), ch) != class_negated(pat)
}

/// What follows the class. A class without a `]` takes in the whole pattern.
pub open spec fn class_rest(pat: Seq<char>) -> Seq<char> {
    let end = class_end(pat, class_start(pat));
    if end < pat.len() {
        pat.skip(end + 1)
    } else {
        Seq::empty()
    }
}

/// A class body ends within the pattern.
pub proof fn lemma_class_end_bounds(pat: Seq<char>, from: int)
    requires
        0 <= from <= pat.len(),
    ensures
        from <= class_end(pat, from) <= pat.len(),
    decreases pat.len() - from,
{
    if from < pat.len() && pat[from] != ']' {
        lemma_class_end_bounds(pat, from + 1);
    }
}

/// The glob `pat` matches the whole of `txt`.
pub open spec fn glob_matches(pat: Seq<char>, txt: Seq<char>) -> bool
    decreases pat.len(),
{
    if pat.len() == 0 {
        txt.len() == 0
    } else if pat[0] == '*' {
        exists|n: int| 0 <= n <= txt.len() && glob_matches(pat.skip(1), #[trigger] txt.skip(n))
    } else if txt.len() == 0 {
        false
    } else if pat[0] == '?' {
        glob_matches(pat.skip(1), txt.skip(1))
    } else if pat[0] == '[' {
        proof {
            lemma_class_end_bounds(pat.skip(1), class_start(pat.skip(1)));
        }
        &&& class_admits(pat.skip(1), txt[0])
        &&& glob_matches(class_rest(pat.skip(1)), txt.skip(1))
    } else {
        &&& pat[0] == txt[0]
        &&& glob_matches(pat.skip(1), txt.skip(1))
    }
}

/// Matches `ch` against the class whose text, after the opening `[`, starts `pat`.
/// Returns whether the class admits `ch`, and the pattern after the class.
pub fn match_char_class<'a>(pat: &'a [char], ch: char) -> (r: (bool, &'a [char]))
    ensures
        r.0 == class_admits(pat@, ch),
        r.1@ == class_rest(pat@),
{
    let negate = pat.len() > 0 && pat[0] == '^';
    let mut i: usize = if negate {
        1
    } else {
        0
    };
    let mut matched = false;
    let ghost start = class_start(pat@);
    let ghost end = class_end(pat@, start);
    proof {
        lemma_class_end_bounds(pat@, start);
    }
    while i < pat.len() && pat[i] != ']'
        invariant
            start <= i <= end <= pat.len(),
            end == class_end(pat@, i as int),
            start == 0 || start == 1,
            class_lists(pat@.subrange(start, end), ch) == (matched || class_lists(
                pat@.subrange(i as int, end),
                ch,
            )),
        decreases pat.len() - i,
    {
        proof {
            reveal_with_fuel(class_end, 4);
            lemma_class_end_bounds(pat@, i + 1);
        }
        let ghost body = pat@.subrange(i as int, end);
        if pat.len() - i > 2 && pat[i + 1] == '-' && pat[i + 2] != ']' {
            proof {
                lemma_class_end_bounds(pat@, i + 3);
                assert(body.skip(3) =~= pat@.subrange(i + 3, end));
            }
            if ch >= pat[i] && ch <= pat[i + 2] {
                matched = true;
            }
            i += 3;
        } else {
            assert(body.skip(1) =~= pat@.subrange(i + 1, end));
            if ch == pat[i] {
                matched = true;
            }
            i += 1;
        }
    }
    let rest = if i < pat.len() {
        slice_subrange(pat, i + 1, pat.len())
    } else {
        slice_subrange(pat, i, pat.len())
    };
    assert(rest@ =~= class_rest(pat@));
    (matched != negate, rest)
}

/// Tells whether the glob `pat` matches the whole of `txt`.
pub fn glob_match_chars(pat: &[char], txt: &[char]) -> (matched: bool)
    ensures
        matched == glob_matches(pat@, txt@),
    decreases pat.len(),
{
    if pat.len() == 0 {
        return txt.len() == 0;
    }
    let rest_pat = slice_subrange(pat, 1, pat.len());
    assert(rest_pat@ =~= pat@.skip(1));
    if pat[0] == '*' {
        // The star stands for the first `i` characters.
        let mut i: usize = 0;
        loop
            invariant
                0 <= i <= txt.len(),
                rest_pat@ == pat@.skip(1),
                pat.len() > 0,
                pat@[0] == '*',
                forall|n: int| 0 <= n < i ==> !glob_matches(rest_pat@, #[trigger] txt@.skip(n)),
            decreases txt.len() - i,
        {
            let rest_txt = slice_subrange(txt, i, txt.len());
            assert(rest_txt@ =~= txt@.skip(i as int));
            if glob_match_chars(rest_pat, rest_txt) {
                return true;
            }
            if i == txt.len() {
                return false;
            }
            i += 1;
        }
    }
    if txt.len() == 0 {
        return false;
    }
    let rest_txt = slice_subrange(txt, 1, txt.len());
    assert(rest_txt@ =~= txt@.skip(1));
    if pat[0] == '?' {
        glob_match_chars(rest_pat, rest_txt)
    } else if pat[0] == '[' {
        let (matched, pat_rest) = match_char_class(rest_pat, txt[0]);
        proof {
            lemma_class_end_bounds(rest_pat@, class_start(rest_pat@));
        }
        if matched {
            glob_match_chars(pat_rest, rest_txt)
        } else {
            false
        }
    } else {
        pat[0] == txt[0] && glob_match_chars(rest_pat, rest_txt)
    }
}

/// The text that a glob compares: `s` as it is, or in ASCII lower-case.
pub open spec fn folded(s: Seq<char>, ignore_case: bool) -> Seq<char> {
    if ignore_case {
        lower_all(s)
    } else {
        s
    }
}

/// Returns the characters of `s`, in ASCII lower-case where `ignore_case` says so.
fn fold_chars(s: &str, ignore_case: bool) -> (chars: Vec<char>)
    ensures
        chars@ == folded(s@, ignore_case),
{
    let all = chars_of(s);
    if !ignore_case {
        return all;
    }
    let mut chars: Vec<char> = Vec::new();
    for i in 0..all.len()
        invariant
            all@ == s@,
            chars@ == lower_all(s@).take(i as int),
    {
        chars.push(to_lower(all[i]));
    }
    chars
}

/// Matches `name` against a shell glob `pattern` (`*`, `?`, `[...]` supported).
/// When `ignore_case` is true both sides are compared in ASCII lower-case.
pub fn glob_match(pattern: &str, name: &str, ignore_case: bool) -> (matched: bool)
    ensures
        matched == glob_matches(folded(pattern@, ignore_case), folded(name@, ignore_case)),
{
    let pat = fold_chars(pattern, ignore_case);
    let txt = fold_chars(name, ignore_case);
    glob_match_chars(pat.as_slice(), txt.as_slice())
}

/// `pat` holds none of the characters that a glob gives a meaning to.
pub open spec fn is_plain(pat: Seq<char>) -> bool {
    forall|i: int| 0 <= i < pat.len() ==> #[trigger] pat[i] != '*' && pat[i] != '?' && pat[i] != '['
}

/// Every class that `pat` opens is closed by a `]`.
pub open spec fn is_closed(pat: Seq<char>) -> bool
    decreases pat.len(),
{
    if pat.len() == 0 {
        true
    } else if pat[0] == '[' {
        proof {
            lemma_class_end_bounds(pat.skip(1), class_start(pat.skip(1)));
        }
        &&& class_end(pat.skip(1), class_start(pat.skip(1))) < pat.len() - 1
        &&& is_closed(class_rest(pat.skip(1)))
    } else {
        is_closed(pat.skip(1))
    }
}

/// A pattern without special characters matches the text that it spells, and no other.
pub proof fn plain_matches_itself(pat: Seq<char>, txt: Seq<char>)
    requires
        is_plain(pat),
    ensures
        glob_matches(pat, txt) == (pat == txt),
    decreases pat.len(),
{
    if pat.len() == 0 {
        assert(txt.len() == 0 ==> txt =~= pat);
    } else if txt.len() > 0 {
        assert(pat[0] != '*' && pat[0] != '?' && pat[0] != '[');
        assert forall|i: int| 0 <= i < pat.skip(1).len() implies #[trigger] pat.skip(1)[i] != '*'
            && pat.skip(1)[i] != '?' && pat.skip(1)[i] != '[' by {
            assert(pat.skip(1)[i] == pat[i + 1]);
        }
        plain_matches_itself(pat.skip(1), txt.skip(1));
        if pat[0] == txt[0] && pat.skip(1) == txt.skip(1) {
            assert(pat =~= seq![pat[0]] + pat.skip(1));
            assert(txt =~= seq![txt[0]] + txt.skip(1));
        }
    }
}

/// A star matches every text.
pub proof fn star_matches_everything(txt: Seq<char>)
    ensures
        glob_matches(seq!['*'], txt),
{
    let star = seq!['*'];
    assert(star.skip(1).len() == 0);
    assert(txt.skip(txt.len() as int).len() == 0);
    assert(glob_matches(star.skip(1), txt.skip(txt.len() as int)));
}

/// A question mark matches every text of one character, and no other.
pub proof fn question_mark_matches_one(txt: Seq<char>)
    ensures
        glob_matches(seq!['?'], txt) == (txt.len() == 1),
{
    reveal_with_fuel(glob_matches, 2);
    let one = seq!['?'];
    assert(one.skip(1).len() == 0);
}

/// A second star next to a star changes nothing.
pub proof fn stars_collapse(pat: Seq<char>, txt: Seq<char>)
    ensures
        glob_matches(seq!['*', '*'] + pat, txt) == glob_matches(seq!['*'] + pat, txt),
{
    let two = seq!['*', '*'] + pat;
    let one = seq!['*'] + pat;
    assert(two.skip(1) =~= one);
    assert(one.skip(1) =~= pat);
    if glob_matches(one, txt) {
        assert(txt.skip(0) =~= txt);
        assert(glob_matches(two.skip(1), txt.skip(0)));
    }
    if glob_matches(two, txt) {
        let n = choose|n: int|
            0 <= n <= txt.len() && glob_matches(two.skip(1), #[trigger] txt.skip(n));
        let rest = txt.skip(n);
        let m = choose|m: int|
            0 <= m <= rest.len() && glob_matches(one.skip(1), #[trigger] rest.skip(m));
        assert(rest.skip(m) =~= txt.skip(n + m));
        assert(glob_matches(one.skip(1), txt.skip(n + m)));
    }
}

proof fn lemma_class_end_is_close(pat: Seq<char>, from: int, close: int)
    requires
        0 <= from <= close < pat.len(),
        pat[close] == ']',
        forall|i: int| from <= i < close ==> #[trigger] pat[i] != ']',
    ensures
        class_end(pat, from) == close,
    decreases close - from,
{
    if from < close {
        lemma_class_end_is_close(pat, from + 1, close);
    }
}

/// A class and its negation with `^` admit between them every character, and none twice.
pub proof fn negated_class_is_complement(body: Seq<char>, ch: char)
    requires
        !body.contains(']'),
        body.len() > 0 ==> body[0] != '^',
    ensures
        glob_matches(seq!['[', '^'] + body + seq![']'], seq![ch]) == !glob_matches(
            seq!['['] + body + seq![']'],
            seq![ch],
        ),
{
    let inside = seq!['['] + body + seq![']'];
    let outside = seq!['[', '^'] + body + seq![']'];
    let text = seq![ch];
    let p = inside.skip(1);
    let q = outside.skip(1);
    assert forall|i: int| 0 <= i < body.len() implies #[trigger] body[i] != ']' by {
        assert(body.contains(body[i]));
    }
    assert(p =~= body + seq![']']);
    assert(q =~= seq!['^'] + body + seq![']']);
    lemma_class_end_is_close(p, 0, body.len() as int);
    lemma_class_end_is_close(q, 1, body.len() as int + 1);
    assert(class_body(p) =~= body);
    assert(class_body(q) =~= body);
    assert(class_rest(p).len() == 0);
    assert(class_rest(q).len() == 0);
    assert(text.skip(1).len() == 0);
    reveal_with_fuel(glob_matches, 2);
}

/// Putting something behind a closed class leaves the class as it is.
proof fn lemma_class_of_concat(p: Seq<char>, q: Seq<char>)
    requires
        class_end(p, class_start(p)) < p.len(),
    ensures
        class_negated(p + q) == class_negated(p),
        class_body(p + q) == class_body(p),
        class_rest(p + q) == class_rest(p) + q,
{
    let start = class_start(p);
    let end = class_end(p, start);
    lemma_class_end_bounds(p, start);
    assert(class_start(p + q) == start);
    lemma_class_end_of_concat(p, q, start);
    assert(class_body(p + q) =~= class_body(p));
    assert(class_rest(p + q) =~= class_rest(p) + q);
}

proof fn lemma_class_end_of_concat(p: Seq<char>, q: Seq<char>, from: int)
    requires
        0 <= from <= p.len(),
        class_end(p, from) < p.len(),
    ensures
        class_end(p + q, from) == class_end(p, from),
    decreases p.len() - from,
{
    if from < p.len() && p[from] != ']' {
        lemma_class_end_of_concat(p, q, from + 1);
    }
}

/// Two matches one behind the other are a match of the two patterns one behind the other,
/// where the first pattern closes its classes.
pub proof fn matches_concatenate(p: Seq<char>, q: Seq<char>, t: Seq<char>, u: Seq<char>)
    requires
        is_closed(p),
        glob_matches(p, t),
        glob_matches(q, u),
    ensures
        glob_matches(p + q, t + u),
    decreases p.len(),
{
    let pq = p + q;
    let tu = t + u;
    if p.len() == 0 {
        assert(pq =~= q);
        assert(tu =~= u);
    } else if p[0] == '*' {
        let n = choose|n: int| 0 <= n <= t.len() && glob_matches(p.skip(1), #[trigger] t.skip(n));
        matches_concatenate(p.skip(1), q, t.skip(n), u);
        assert(pq.skip(1) =~= p.skip(1) + q);
        assert(tu.skip(n) =~= t.skip(n) + u);
        assert(glob_matches(pq.skip(1), tu.skip(n)));
    } else {
        assert(tu.skip(1) =~= t.skip(1) + u);
        assert(pq.skip(1) =~= p.skip(1) + q);
        if p[0] == '[' {
            lemma_class_of_concat(p.skip(1), q);
            lemma_class_end_bounds(p.skip(1), class_start(p.skip(1)));
            matches_concatenate(class_rest(p.skip(1)), q, t.skip(1), u);
        } else {
            matches_concatenate(p.skip(1), q, t.skip(1), u);
        }
    }
}

/// Whatever two patterns one behind the other match falls into a part that the first
/// matches and a part that the second matches, where the first closes its classes.
pub proof fn concatenation_splits(p: Seq<char>, q: Seq<char>, t: Seq<char>) -> (n: int)
    requires
        is_closed(p),
        glob_matches(p + q, t),
    ensures
        0 <= n <= t.len(),
        glob_matches(p, t.take(n)),
        glob_matches(q, t.skip(n)),
    decreases p.len(),
{
    let pq = p + q;
    if p.len() == 0 {
        assert(pq =~= q);
        assert(t.skip(0) =~= t);
        0
    } else if p[0] == '*' {
        let m = choose|m: int| 0 <= m <= t.len() && glob_matches(pq.skip(1), #[trigger] t.skip(m));
        assert(pq.skip(1) =~= p.skip(1) + q);
        let k = concatenation_splits(p.skip(1), q, t.skip(m));
        assert(t.skip(m).skip(k) =~= t.skip(m + k));
        assert(t.skip(m).take(k) =~= t.take(m + k).skip(m));
        assert(glob_matches(p.skip(1), t.take(m + k).skip(m)));
        m + k
    } else {
        assert(pq.skip(1) =~= p.skip(1) + q);
        let k = if p[0] == '[' {
            lemma_class_of_concat(p.skip(1), q);
            lemma_class_end_bounds(p.skip(1), class_start(p.skip(1)));
            concatenation_splits(class_rest(p.skip(1)), q, t.skip(1))
        } else {
            concatenation_splits(p.skip(1), q, t.skip(1))
        };
        assert(t.skip(1).skip(k) =~= t.skip(k + 1));
        assert(t.skip(1).take(k) =~= t.take(k + 1).skip(1));
        k + 1
    }
}

proof fn lemma_plain_is_closed(pat: Seq<char>)
    requires
        is_plain(pat),
    ensures
        is_closed(pat),
    decreases pat.len(),
{
    if pat.len() > 0 {
        assert(pat[0] != '[');
        assert forall|i: int| 0 <= i < pat.skip(1).len() implies #[trigger] pat.skip(1)[i] != '*'
            && pat.skip(1)[i] != '?' && pat.skip(1)[i] != '[' by {
            assert(pat.skip(1)[i] == pat[i + 1]);
        }
        lemma_plain_is_closed(pat.skip(1));
    }
}

/// A star before plain text matches the texts that end with it.
pub proof fn star_before_plain_is_suffix(end: Seq<char>, txt: Seq<char>)
    requires
        is_plain(end),
    ensures
        glob_matches(seq!['*'] + end, txt) == end.is_suffix_of(txt),
{
    let pat = seq!['*'] + end;
    let cut = txt.len() - end.len();
    assert(pat.skip(1) =~= end);
    if glob_matches(pat, txt) {
        let n = choose|n: int| 0 <= n <= txt.len() && glob_matches(pat.skip(1), #[trigger] txt.skip(n));
        plain_matches_itself(end, txt.skip(n));
        assert(txt.skip(n) =~= txt.subrange(cut, txt.len() as int));
    }
    if end.is_suffix_of(txt) {
        assert(txt.skip(cut) =~= end);
        plain_matches_itself(end, txt.skip(cut));
        assert(glob_matches(pat.skip(1), txt.skip(cut)));
    }
}

/// A star behind plain text matches the texts that start with it.
pub proof fn star_behind_plain_is_prefix(start: Seq<char>, txt: Seq<char>)
    requires
        is_plain(start),
    ensures
        glob_matches(start + seq!['*'], txt) == start.is_prefix_of(txt),
{
    lemma_plain_is_closed(start);
    if glob_matches(start + seq!['*'], txt) {
        let n = concatenation_splits(start, seq!['*'], txt);
        plain_matches_itself(start, txt.take(n));
        assert(start =~= txt.subrange(0, start.len() as int));
    }
    if start.is_prefix_of(txt) {
        let rest = txt.skip(start.len() as int);
        plain_matches_itself(start, start);
        star_matches_everything(rest);
        matches_concatenate(start, seq!['*'], start, rest);
        assert(start + rest =~= txt);
    }
}

/// When case is ignored, the case of neither side has a say.
pub proof fn ignored_case_has_no_say(p: Seq<char>, q: Seq<char>, t: Seq<char>, u: Seq<char>)
    requires
        lower_all(p) == lower_all(q),
        lower_all(t) == lower_all(u),
    ensures
        glob_matches(folded(p, true), folded(t, true)) == glob_matches(
            folded(q, true),
            folded(u, true),
        ),
{
}

/// Where a pattern holds no class, ignoring case only adds to what it matches.
pub proof fn ignoring_case_only_adds(pat: Seq<char>, txt: Seq<char>)
    requires
        !pat.contains('['),
        glob_matches(folded(pat, false), folded(txt, false)),
    ensures
        glob_matches(folded(pat, true), folded(txt, true)),
    decreases pat.len(),
{
    let p = lower_all(pat);
    let t = lower_all(txt);
    if pat.len() > 0 {
        assert(pat.contains(pat[0]));
        assert(!pat.skip(1).contains('[')) by {
            if pat.skip(1).contains('[') {
                let i = choose|i: int| 0 <= i < pat.skip(1).len() && pat.skip(1)[i] == '[';
                assert(pat[i + 1] == '[');
            }
        }
        assert(p.skip(1) =~= lower_all(pat.skip(1)));
        if pat[0] == '*' {
            let n = choose|n: int|
                0 <= n <= txt.len() && glob_matches(pat.skip(1), #[trigger] txt.skip(n));
            ignoring_case_only_adds(pat.skip(1), txt.skip(n));
            assert(t.skip(n) =~= lower_all(txt.skip(n)));
            assert(glob_matches(p.skip(1), t.skip(n)));
        } else {
            ignoring_case_only_adds(pat.skip(1), txt.skip(1));
            assert(t.skip(1) =~= lower_all(txt.skip(1)));
        }
    }
}

/// The pattern of nothing matches the text of nothing, and no other.
pub proof fn nothing_matches_nothing(txt: Seq<char>)
    ensures
        glob_matches(Seq::empty(), txt) <==> txt.len() == 0,
{
}

/// A star that starts a pattern stands for any number of the first characters of a text.
pub proof fn star_takes_any_number(p: Seq<char>, txt: Seq<char>)
    ensures
        glob_matches(seq!['*'] + p, txt) <==> exists|n: int|
            0 <= n <= txt.len() && glob_matches(p, #[trigger] txt.skip(n)),
{
    assert((seq!['*'] + p).skip(1) =~= p);
}

/// A question mark that starts a pattern stands for the first character of a text, whichever it is.
pub proof fn question_mark_takes_one(p: Seq<char>, txt: Seq<char>)
    ensures
        glob_matches(seq!['?'] + p, txt) <==> txt.len() > 0 && glob_matches(p, txt.skip(1)),
{
    assert((seq!['?'] + p).skip(1) =~= p);
}

/// A character without a meaning of its own that starts a pattern stands for itself.
pub proof fn character_takes_itself(c: char, p: Seq<char>, txt: Seq<char>)
    requires
        c != '*' && c != '?' && c != '[',
    ensures
        glob_matches(seq![c] + p, txt) <==> txt.len() > 0 && txt[0] == c && glob_matches(
            p,
            txt.skip(1),
        ),
{
    assert((seq![c] + p).skip(1) =~= p);
}

/// A class with a `]` goes by what stands between its `[` and the `]`.
proof fn lemma_closed_class(body: Seq<char>, p: Seq<char>, txt: Seq<char>)
    requires
        !body.contains(']'),
    ensures
        glob_matches(seq!['['] + body + seq![']'] + p, txt) == (txt.len() > 0 && (class_lists(
            body.skip(class_start(body)),
            txt[0],
        ) != class_negated(body)) && glob_matches(p, txt.skip(1))),
{
    let pat = seq!['['] + body + seq![']'] + p;
    let q = pat.skip(1);
    assert(q =~= body + seq![']'] + p);
    assert forall|i: int| 0 <= i < body.len() implies #[trigger] q[i] != ']' by {
        assert(body.contains(body[i]));
    }
    assert(q[body.len() as int] == ']');
    assert(class_start(q) == class_start(body));
    lemma_class_end_is_close(q, class_start(q), body.len() as int);
    assert(class_body(q) =~= body.skip(class_start(body)));
    assert(class_rest(q) =~= p);
}

/// A class that starts a pattern stands for the first character of a text, where it admits that.
pub proof fn class_takes_one(body: Seq<char>, p: Seq<char>, txt: Seq<char>)
    requires
        !body.contains(']'),
    ensures
        glob_matches(seq!['['] + body + seq![']'] + p, txt) <==> txt.len() > 0 && glob_matches(
            seq!['['] + body + seq![']'],
            seq![txt[0]],
        ) && glob_matches(p, txt.skip(1)),
{
    lemma_closed_class(body, p, txt);
    lemma_class_of_one(body, txt[0]);
}

/// What a class says of a text of one character.
proof fn lemma_class_of_one(body: Seq<char>, ch: char)
    requires
        !body.contains(']'),
    ensures
        glob_matches(seq!['['] + body + seq![']'], seq![ch]) == (class_lists(
            body.skip(class_start(body)),
            ch,
        ) != class_negated(body)),
{
    lemma_closed_class(body, Seq::empty(), seq![ch]);
    assert(seq!['['] + body + seq![']'] + Seq::<char>::empty() =~= seq!['['] + body + seq![']']);
    assert(seq![ch].skip(1).len() == 0);
}

proof fn lemma_negated_class_of_one(body: Seq<char>, ch: char)
    requires
        !body.contains(']'),
    ensures
        glob_matches(seq!['[', '^'] + body + seq![']'], seq![ch]) == !class_lists(body, ch),
{
    let whole = seq!['^'] + body;
    assert(!whole.contains(']')) by {
        if whole.contains(']') {
            let i = choose|i: int| 0 <= i < whole.len() && whole[i] == ']';
            assert(body[i - 1] == ']');
        }
    }
    lemma_class_of_one(whole, ch);
    assert(whole.skip(1) =~= body);
    assert(seq!['[', '^'] + body + seq![']'] =~= seq!['['] + whole + seq![']']);
}

/// A class that lacks its `]` is one that ends with the pattern.
pub proof fn open_class_ends_with_pattern(body: Seq<char>, txt: Seq<char>)
    requires
        !body.contains(']'),
    ensures
        glob_matches(seq!['['] + body, txt) == glob_matches(seq!['['] + body + seq![']'], txt),
{
    let pat = seq!['['] + body;
    assert(pat.skip(1) =~= body);
    assert forall|i: int| 0 <= i < body.len() implies #[trigger] body[i] != ']' by {
        assert(body.contains(body[i]));
    }
    lemma_class_without_end(body, class_start(body));
    assert(class_body(body) =~= body.skip(class_start(body)));
    lemma_closed_class(body, Seq::empty(), txt);
    assert(seq!['['] + body + seq![']'] + Seq::<char>::empty() =~= seq!['['] + body + seq![']']);
    reveal_with_fuel(glob_matches, 2);
}

proof fn lemma_class_without_end(pat: Seq<char>, from: int)
    requires
        0 <= from <= pat.len(),
        forall|i: int| 0 <= i < pat.len() ==> #[trigger] pat[i] != ']',
    ensures
        class_end(pat, from) == pat.len(),
    decreases pat.len() - from,
{
    if from < pat.len() {
        lemma_class_without_end(pat, from + 1);
    }
}

/// A range admits the characters from its first to its last, both of them too, and no others.
pub proof fn range_has_both_ends(lo: char, hi: char, ch: char)
    requires
        lo != '^' && lo != ']' && hi != ']',
    ensures
        glob_matches(seq!['[', lo, '-', hi, ']'], seq![ch]) <==> lo <= ch && ch <= hi,
{
    let body = seq![lo, '-', hi];
    assert(!body.contains(']'));
    assert(seq!['[', lo, '-', hi, ']'] =~= seq!['['] + body + seq![']']);
    lemma_class_of_one(body, ch);
    assert(body.skip(0) =~= body);
    assert(body.skip(3).len() == 0);
    reveal_with_fuel(class_lists, 2);
}

/// A class without ranges admits the characters that it lists, and no others.
pub proof fn list_has_its_characters(body: Seq<char>, ch: char)
    requires
        !body.contains(']'),
        body.len() > 0 ==> body[0] != '^',
        forall|i: int| 0 < i < body.len() - 1 ==> #[trigger] body[i] != '-',
    ensures
        glob_matches(seq!['['] + body + seq![']'], seq![ch]) <==> body.contains(ch),
{
    lemma_class_of_one(body, ch);
    assert(body.skip(0) =~= body);
    lemma_list(body, ch);
}

proof fn lemma_list(body: Seq<char>, ch: char)
    requires
        forall|i: int| 0 < i < body.len() - 1 ==> #[trigger] body[i] != '-',
    ensures
        class_lists(body, ch) == body.contains(ch),
    decreases body.len(),
{
    if body.len() > 0 {
        let rest = body.skip(1);
        assert forall|i: int| 0 < i < rest.len() - 1 implies #[trigger] rest[i] != '-' by {
            assert(rest[i] == body[i + 1]);
        }
        lemma_list(rest, ch);
        if body.len() >= 3 {
            assert(body[1] != '-');
        }
        if rest.contains(ch) {
            let i = choose|i: int| 0 <= i < rest.len() && rest[i] == ch;
            assert(body[i + 1] == ch);
        }
        if body.contains(ch) && ch != body[0] {
            let i = choose|i: int| 0 <= i < body.len() && body[i] == ch;
            assert(rest[i - 1] == ch);
        }
    }
}

/// A negated class that lists nothing admits every character.
pub proof fn negation_of_nothing_is_everything(ch: char)
    ensures
        glob_matches(seq!['[', '^', ']'], seq![ch]),
{
    lemma_negated_class_of_one(Seq::empty(), ch);
    assert(seq!['[', '^'] + Seq::<char>::empty() + seq![']'] =~= seq!['[', '^', ']']);
}

/// A range put before what a negated class lists takes the range, with both its ends, away from
/// what the class admits, and nothing else.
pub proof fn negated_range_takes_away(lo: char, hi: char, body: Seq<char>, ch: char)
    requires
        lo != ']' && hi != ']',
        !body.contains(']'),
    ensures
        glob_matches(seq!['[', '^', lo, '-', hi] + body + seq![']'], seq![ch]) <==> !(lo <= ch && ch
            <= hi) && glob_matches(seq!['[', '^'] + body + seq![']'], seq![ch]),
{
    let whole = seq![lo, '-', hi] + body;
    assert(!whole.contains(']')) by {
        if whole.contains(']') {
            let i = choose|i: int| 0 <= i < whole.len() && whole[i] == ']';
            assert(body[i - 3] == ']');
        }
    }
    lemma_negated_class_of_one(whole, ch);
    lemma_negated_class_of_one(body, ch);
    assert(whole.skip(3) =~= body);
    assert(seq!['[', '^', lo, '-', hi] + body + seq![']'] =~= seq!['[', '^'] + whole + seq![']']);
}

/// A character put before what a negated class lists, where that makes no range, takes itself away
/// from what the class admits, and nothing else.
pub proof fn negated_character_takes_away(c: char, body: Seq<char>, ch: char)
    requires
        c != ']',
        !body.contains(']'),
        body.len() >= 2 ==> body[0] != '-',
    ensures
        glob_matches(seq!['[', '^', c] + body + seq![']'], seq![ch]) <==> ch != c && glob_matches(
            seq!['[', '^'] + body + seq![']'],
            seq![ch],
        ),
{
    let whole = seq![c] + body;
    assert(!whole.contains(']')) by {
        if whole.contains(']') {
            let i = choose|i: int| 0 <= i < whole.len() && whole[i] == ']';
            assert(body[i - 1] == ']');
        }
    }
    lemma_negated_class_of_one(whole, ch);
    lemma_negated_class_of_one(body, ch);
    assert(whole.skip(1) =~= body);
    assert(seq!['[', '^', c] + body + seq![']'] =~= seq!['[', '^'] + whole + seq![']']);
}

/// Where case counts, a pattern without special characters matches its own text alone. Where it is
/// ignored, it matches the texts of its length that hold, at each place, its character or the
/// other case of that letter.
pub proof fn plain_goes_by_letters(pat: Seq<char>, txt: Seq<char>)
    requires
        forall|i: int|
            0 <= i < pat.len() ==> #[trigger] pat[i] != '*' && pat[i] != '?' && pat[i] != '[',
    ensures
        glob_matches(folded(pat, false), folded(txt, false)) <==> pat == txt,
        glob_matches(folded(pat, true), folded(txt, true)) <==> {
            &&& pat.len() == txt.len()
            &&& forall|i: int|
                0 <= i < pat.len() ==> {
                    ||| #[trigger] pat[i] == txt[i]
                    ||| 'A' <= pat[i] <= 'Z' && txt[i] as u32 == pat[i] as u32 + 32
                    ||| 'A' <= txt[i] <= 'Z' && pat[i] as u32 == txt[i] as u32 + 32
                }
        },
{
    plain_matches_itself(pat, txt);
    let p = lower_all(pat);
    let t = lower_all(txt);
    assert forall|i: int| 0 <= i < p.len() implies #[trigger] p[i] != '*' && p[i] != '?' && p[i]
        != '[' by {
        assert(pat[i] != '*' && pat[i] != '?' && pat[i] != '[');
    }
    plain_matches_itself(p, t);
    if p == t {
        assert forall|i: int| 0 <= i < pat.len() implies {
            ||| #[trigger] pat[i] == txt[i]
            ||| 'A' <= pat[i] <= 'Z' && txt[i] as u32 == pat[i] as u32 + 32
            ||| 'A' <= txt[i] <= 'Z' && pat[i] as u32 == txt[i] as u32 + 32
        } by {
            assert(p[i] == t[i]);
            lower_case_joins_the_cases(pat[i], txt[i]);
        }
    }
    if pat.len() == txt.len() && forall|i: int|
        0 <= i < pat.len() ==> {
            ||| #[trigger] pat[i] == txt[i]
            ||| 'A' <= pat[i] <= 'Z' && txt[i] as u32 == pat[i] as u32 + 32
            ||| 'A' <= txt[i] <= 'Z' && pat[i] as u32 == txt[i] as u32 + 32
        } {
        assert forall|i: int| 0 <= i < p.len() implies p[i] == t[i] by {
            assert(pat[i] == pat[i]);
            lower_case_joins_the_cases(pat[i], txt[i]);
        }
        assert(p =~= t);
    }
}

/// Text is compared as it is, or with each character in lower case, where it stands.
pub proof fn folding_keeps_or_lowers(s: Seq<char>)
    ensures
        folded(s, false) == s,
        folded(s, true).len() == s.len(),
        forall|i: int|
            0 <= i < s.len() ==> #[trigger] folded(s, true)[i] == (if 'A' <= s[i] <= 'Z' {
                (s[i] as u8 + 32) as char
            } else {
                s[i]
            }),
{
}

} // verus!
