//! Filter / match logic: fuzzy (default), plain substring, and regex.
//!
//! A [`Filter`] is rebuilt from scratch whenever the query or the requested
//! mode changes; matching itself is a pure view over the buffer and never
//! mutates it. Match results are returned as *char indices* so the renderer
//! can highlight the exact matched characters.

use crate::text::to_chars;
use fuzzy_matcher::skim::SkimMatcherV2;
use fuzzy_matcher::FuzzyMatcher;
use vstd::prelude::*;
use vstd::string::*;
use vstd::utf8::*;

verus! {

// ------------------------------------------------------------------ modes

/// Mode requested by the user (`r` toggles Fuzzy <-> Regex).
#[derive(Debug, Clone, Copy, PartialEq, Eq, Structural)]
pub enum MatchMode {
    Fuzzy,
    Substring,
    Regex,
}

/// The short name of a mode, as the status line shows it.
pub open spec fn mode_label(mode: MatchMode) -> Seq<char> {
    match mode {
        MatchMode::Fuzzy => "fuzzy"@,
        MatchMode::Substring => "substr"@,
        MatchMode::Regex => "regex"@,
    }
}

impl MatchMode {
    pub fn label(self) -> (name: &'static str)
        ensures
            name@ == mode_label(self),
    {
        match self {
            MatchMode::Fuzzy => "fuzzy",
            MatchMode::Substring => "substr",
            MatchMode::Regex => "regex",
        }
    }
}

// ------------------------------------------------------ highlight indices

/// The indices `start, start + 1, .., start + len - 1`.
pub open spec fn index_run(start: int, len: int) -> Seq<usize> {
    Seq::new(len as nat, |k: int| (start + k) as usize)
}

/// Strictly increasing indices below `len`: what a highlight always is.
pub open spec fn is_highlight(indices: Seq<usize>, len: nat) -> bool {
    &&& forall|i: int, j: int| 0 <= i < j < indices.len() ==> indices[i] < indices[j]
    &&& forall|i: int| 0 <= i < indices.len() ==> indices[i] < len
}

/// No indices means no match.
pub open spec fn some_unless_empty(indices: Seq<usize>) -> Option<Seq<usize>> {
    if indices.len() == 0 {
        None
    } else {
        Some(indices)
    }
}

proof fn lemma_append_run(indices: Seq<usize>, start: int, len: int, total: nat)
    requires
        is_highlight(indices, total),
        forall|i: int| 0 <= i < indices.len() ==> indices[i] < start,
        0 <= start,
        0 <= len,
        start + len <= total,
        total <= usize::MAX,
    ensures
        is_highlight(indices + index_run(start, len), total),
        forall|i: int|
            0 <= i < (indices + index_run(start, len)).len() ==> (indices + index_run(start, len))[i]
                < start + len,
{
    let all = indices + index_run(start, len);
    assert forall|i: int| 0 <= i < all.len() implies all[i] < start + len by {
        if i >= indices.len() {
            assert(all[i] == start + (i - indices.len()));
        }
    }
}

/// Push the run `start .. start + len` onto `indices`.
fn extend_run(indices: &mut Vec<usize>, start: usize, len: usize)
    requires
        start + len <= usize::MAX,
    ensures
        final(indices)@ == old(indices)@ + index_run(start as int, len as int),
{
    let ghost before = indices@;
    let mut k: usize = 0;
    while k < len
        invariant
            k <= len,
            start + len <= usize::MAX,
            indices@ == before + index_run(start as int, k as int),
        decreases len - k,
    {
        indices.push(start + k);
        k += 1;
    }
}

// -------------------------------------------------------------- substring

/// Whether a character is uppercase.
pub uninterp spec fn upper_case(c: char) -> bool;

/// `char::is_uppercase`: whether the character has the Unicode `Uppercase`
/// property, which depends on the character alone. In ASCII these are the
/// letters from A to Z; which characters beyond ASCII have the property is not
/// stated.
pub assume_specification[ char::is_uppercase ](c: char) -> (yes: bool)
    ensures
        yes == upper_case(c),
        c as u32 <= 127 ==> yes == ('A' <= c <= 'Z'),
;

/// Smart case: a query is case-sensitive when it holds an uppercase character.
pub open spec fn case_sensitive(query: Seq<char>) -> bool {
    exists|i: int| 0 <= i < query.len() && upper_case(#[trigger] query[i])
}

/// ASCII lowercase of a character.
pub open spec fn ascii_lower(c: char) -> char {
    if 'A' <= c <= 'Z' {
        (c as u32 + 32) as char
    } else {
        c
    }
}

/// The lowercase of a character, which can take several characters.
pub uninterp spec fn lower_case(c: char) -> Seq<char>;

/// `char::to_lowercase`: the lowercase mapping of the character, which depends
/// on the character alone. In ASCII it lowers the letters from A to Z and
/// leaves the rest as it is; what it does beyond ASCII is not stated.
#[verifier::external_body]
fn lowercase_of(c: char) -> (low: Vec<char>)
    ensures
        low@ == lower_case(c),
        c as u32 <= 127 ==> low@ == seq![ascii_lower(c)],
{
    c.to_lowercase().collect()
}

/// The ASCII characters of a text lower as ASCII does: A to Z to a to z, and
/// anything else to itself.
pub open spec fn lowers_ascii(text: Seq<char>) -> bool {
    forall|k: int|
        0 <= k < text.len() && text[k] as u32 <= 127 ==> lower_case(#[trigger] text[k])
            == seq![ascii_lower(text[k])]
}

/// Of the ASCII characters of a text just A to Z are uppercase.
pub open spec fn uppers_ascii(text: Seq<char>) -> bool {
    forall|k: int|
        0 <= k < text.len() && text[k] as u32 <= 127 ==> upper_case(#[trigger] text[k]) == ('A'
            <= text[k] <= 'Z')
}

/// What is compared for a character: itself, or its lowercase when case does
/// not count.
pub open spec fn fold(c: char, sensitive: bool) -> Seq<char> {
    if sensitive {
        seq![c]
    } else {
        lower_case(c)
    }
}

/// The characters of a text as they are compared.
pub open spec fn folded(text: Seq<char>, sensitive: bool) -> Seq<Seq<char>> {
    text.map_values(|c: char| fold(c, sensitive))
}

/// `query` stands in `line` at position `at`.
pub open spec fn occurs_at(line: Seq<Seq<char>>, query: Seq<Seq<char>>, at: int) -> bool {
    &&& 0 <= at
    &&& at + query.len() <= line.len()
    &&& forall|j: int| 0 <= j < query.len() ==> #[trigger] line[at + j] == query[j]
}

/// The indices covered by the occurrences of `query`, taken from left to
/// right without overlap, that start at `from` or later.
pub open spec fn occurrences(line: Seq<Seq<char>>, query: Seq<Seq<char>>, from: int) -> Seq<usize>
    decreases line.len() - from,
{
    if query.len() == 0 || from < 0 || from + query.len() > line.len() {
        Seq::empty()
    } else if occurs_at(line, query, from) {
        index_run(from, query.len() as int) + occurrences(line, query, from + query.len())
    } else {
        occurrences(line, query, from + 1)
    }
}

/// What a substring match highlights.
pub open spec fn substring_hits(line: Seq<char>, query: Seq<char>, sensitive: bool) -> Option<
    Seq<usize>,
> {
    some_unless_empty(occurrences(folded(line, sensitive), folded(query, sensitive), 0))
}

/// Characters in their compared form, as sequences.
pub open spec fn folded_view(chars: Seq<Vec<char>>) -> Seq<Seq<char>> {
    chars.map_values(|v: Vec<char>| v@)
}

fn fold_char(c: char, sensitive: bool) -> (r: Vec<char>)
    ensures
        r@ == fold(c, sensitive),
        !sensitive && c as u32 <= 127 ==> lower_case(c) == seq![ascii_lower(c)],
{
    if sensitive {
        let mut same: Vec<char> = Vec::new();
        same.push(c);
        assert(same@ =~= seq![c]);
        same
    } else {
        lowercase_of(c)
    }
}

fn fold_all(text: &str, sensitive: bool) -> (chars: Vec<Vec<char>>)
    ensures
        folded_view(chars@) == folded(text@, sensitive),
        !sensitive ==> lowers_ascii(text@),
{
    let plain = to_chars(text);
    let mut chars: Vec<Vec<char>> = Vec::new();
    let mut i: usize = 0;
    while i < plain.len()
        invariant
            plain@ == text@,
            i <= plain@.len(),
            chars@.len() == i,
            forall|k: int| 0 <= k < i ==> (#[trigger] chars@[k])@ == fold(text@[k], sensitive),
            !sensitive ==> forall|k: int|
                0 <= k < i && text@[k] as u32 <= 127 ==> lower_case(#[trigger] text@[k]) == seq![
                    ascii_lower(text@[k]),
                ],
        decreases plain@.len() - i,
    {
        chars.push(fold_char(plain[i], sensitive));
        i += 1;
    }
    assert(folded_view(chars@) =~= folded(text@, sensitive));
    chars
}

fn same_chars(a: &Vec<char>, b: &Vec<char>) -> (yes: bool)
    ensures
        yes == (a@ == b@),
{
    if a.len() != b.len() {
        return false;
    }
    let mut i: usize = 0;
    while i < a.len()
        invariant
            i <= a@.len(),
            a@.len() == b@.len(),
            forall|k: int| 0 <= k < i ==> a@[k] == b@[k],
        decreases a@.len() - i,
    {
        if a[i] != b[i] {
            return false;
        }
        i += 1;
    }
    assert(a@ =~= b@);
    true
}

/// Whether `query` holds an uppercase character.
pub fn is_case_sensitive(query: &str) -> (sensitive: bool)
    ensures
        sensitive == case_sensitive(query@),
        uppers_ascii(query@),
{
    let chars = to_chars(query);
    let mut sensitive = false;
    let mut i: usize = 0;
    while i < chars.len()
        invariant
            i <= chars.len(),
            chars@ == query@,
            sensitive ==> case_sensitive(query@),
            !sensitive ==> forall|k: int| 0 <= k < i ==> !upper_case(#[trigger] query@[k]),
            forall|k: int|
                0 <= k < i && query@[k] as u32 <= 127 ==> upper_case(#[trigger] query@[k]) == ('A'
                    <= query@[k] <= 'Z'),
        decreases chars.len() - i,
    {
        if chars[i].is_uppercase() {
            assert(upper_case(query@[i as int]));
            sensitive = true;
        }
        i += 1;
    }
    sensitive
}

fn matches_at(line: &Vec<Vec<char>>, query: &Vec<Vec<char>>, at: usize) -> (yes: bool)
    requires
        at + query.len() <= line.len(),
    ensures
        yes == occurs_at(folded_view(line@), folded_view(query@), at as int),
{
    let ghost l = folded_view(line@);
    let ghost q = folded_view(query@);
    let mut j: usize = 0;
    while j < query.len()
        invariant
            at + query.len() <= line.len(),
            l == folded_view(line@),
            q == folded_view(query@),
            j <= query@.len(),
            forall|k: int| 0 <= k < j ==> #[trigger] l[at + k] == q[k],
        decreases query@.len() - j,
    {
        if !same_chars(&line[at + j], &query[j]) {
            assert(l[at + j] != q[j as int]);
            return false;
        }
        j += 1;
    }
    true
}

/// The indices of every (non-overlapping) occurrence of `query` in `line`, both
/// given by what is compared for each character.
pub fn find_folded(line: &Vec<Vec<char>>, query: &Vec<Vec<char>>) -> (hits: Option<Vec<usize>>)
    ensures
        hits_view(hits) == some_unless_empty(
            occurrences(folded_view(line@), folded_view(query@), 0),
        ),
{
    let ghost l = folded_view(line@);
    let ghost q = folded_view(query@);
    let qlen = query.len();
    if qlen == 0 || qlen > line.len() {
        return None;
    }
    let mut idx: Vec<usize> = Vec::new();
    let mut i: usize = 0;
    assert(Seq::<usize>::empty() + occurrences(l, q, 0) =~= occurrences(l, q, 0));
    while qlen <= line.len() - i
        invariant
            l == folded_view(line@),
            q == folded_view(query@),
            qlen == query@.len(),
            qlen > 0,
            i <= line@.len(),
            idx@ + occurrences(l, q, i as int) == occurrences(l, q, 0),
        decreases line@.len() - i,
    {
        if matches_at(line, query, i) {
            let ghost before = idx@;
            extend_run(&mut idx, i, qlen);
            assert(idx@ + occurrences(l, q, i + qlen) =~= before + (index_run(
                i as int,
                qlen as int,
            ) + occurrences(l, q, i + qlen)));
            i += qlen;
        } else {
            i += 1;
        }
    }
    assert(occurrences(l, q, i as int) =~= Seq::<usize>::empty());
    assert(idx@ =~= occurrences(l, q, 0));
    if idx.len() == 0 {
        None
    } else {
        Some(idx)
    }
}

/// Char indices of every (non-overlapping) occurrence of `query` in `line`,
/// with letter case counting or not.
pub fn find_occurrences(line: &str, query: &str, sensitive: bool) -> (hits: Option<Vec<usize>>)
    ensures
        hits_view(hits) == substring_hits(line@, query@, sensitive),
        !sensitive ==> lowers_ascii(line@) && lowers_ascii(query@),
{
    find_folded(&fold_all(line, sensitive), &fold_all(query, sensitive))
}

/// Smart-case substring match: case-insensitive unless the query contains an
/// uppercase character. Returns char indices of every (non-overlapping) hit.
pub fn substring_indices(line: &str, query: &str) -> (hits: Option<Vec<usize>>)
    ensures
        hits_view(hits) == substring_hits(line@, query@, case_sensitive(query@)),
        uppers_ascii(query@),
        !case_sensitive(query@) ==> lowers_ascii(line@) && lowers_ascii(query@),
{
    let sensitive = is_case_sensitive(query);
    find_occurrences(line, query, sensitive)
}

proof fn lemma_occurrences(line: Seq<Seq<char>>, query: Seq<Seq<char>>, from: int)
    requires
        0 <= from,
        line.len() <= usize::MAX,
    ensures
        is_highlight(occurrences(line, query, from), line.len()),
        forall|i: int|
            0 <= i < occurrences(line, query, from).len() ==> occurrences(line, query, from)[i]
                >= from,
    decreases line.len() - from,
{
    if query.len() > 0 && from + query.len() <= line.len() {
        let all = occurrences(line, query, from);
        let qlen = query.len() as int;
        if occurs_at(line, query, from) {
            let rest = occurrences(line, query, from + qlen);
            let run = index_run(from, qlen);
            lemma_occurrences(line, query, from + qlen);
            assert forall|i: int| 0 <= i < all.len() implies all[i] >= from && all[i]
                < line.len() by {
                if i < qlen {
                    assert(all[i] == run[i]);
                } else {
                    assert(all[i] == rest[i - qlen]);
                }
            }
            assert forall|i: int, j: int| 0 <= i < j < all.len() implies all[i] < all[j] by {
                if j < qlen {
                    assert(all[i] == run[i] && all[j] == run[j]);
                } else if i < qlen {
                    assert(all[i] == run[i] && all[j] == rest[j - qlen]);
                } else {
                    assert(all[i] == rest[i - qlen] && all[j] == rest[j - qlen]);
                }
            }
        } else {
            lemma_occurrences(line, query, from + 1);
        }
    }
}

proof fn lemma_occurrence_found(
    line: Seq<Seq<char>>,
    query: Seq<Seq<char>>,
    from: int,
    at: int,
)
    requires
        query.len() > 0,
        0 <= from <= at,
        occurs_at(line, query, at),
    ensures
        occurrences(line, query, from).len() > 0,
    decreases at - from,
{
    if !occurs_at(line, query, from) {
        lemma_occurrence_found(line, query, from + 1, at);
    }
}

/// Character number `i` of a line lies inside an occurrence of the query.
pub open spec fn is_covered(line: Seq<Seq<char>>, query: Seq<Seq<char>>, i: int) -> bool {
    exists|at: int| #[trigger] occurs_at(line, query, at) && at <= i < at + query.len()
}

proof fn lemma_covered(line: Seq<Seq<char>>, query: Seq<Seq<char>>, from: int, i: int)
    requires
        0 <= from,
        line.len() <= usize::MAX,
        0 <= i < occurrences(line, query, from).len(),
    ensures
        is_covered(line, query, occurrences(line, query, from)[i] as int),
    decreases line.len() - from,
{
    let all = occurrences(line, query, from);
    if occurs_at(line, query, from) {
        let qlen = query.len() as int;
        if i < qlen {
            assert(all[i] == from + i);
        } else {
            let rest = occurrences(line, query, from + qlen);
            assert(all[i] == rest[i - qlen]);
            lemma_covered(line, query, from + qlen, i - qlen);
        }
    } else {
        lemma_covered(line, query, from + 1, i);
    }
}

/// A substring search reports a match exactly when the query occurs somewhere
/// in the line.
pub proof fn law_substring_complete(line: Seq<char>, query: Seq<char>, sensitive: bool)
    requires
        query.len() > 0,
        line.len() <= usize::MAX,
    ensures
        substring_hits(line, query, sensitive) is Some <==> exists|at: int|
            occurs_at(folded(line, sensitive), folded(query, sensitive), at),
{
    let l = folded(line, sensitive);
    let q = folded(query, sensitive);
    if exists|at: int| occurs_at(l, q, at) {
        let at = choose|at: int| occurs_at(l, q, at);
        lemma_occurrence_found(l, q, 0, at);
    }
    if substring_hits(line, query, sensitive) is Some {
        lemma_covered(l, q, 0, 0);
    }
}

/// What a substring search highlights: increasing indices inside the line,
/// each of them inside an occurrence of the query.
pub proof fn law_substring_highlights_occurrences(
    line: Seq<char>,
    query: Seq<char>,
    sensitive: bool,
    i: int,
)
    requires
        line.len() <= usize::MAX,
        substring_hits(line, query, sensitive) is Some,
        0 <= i < substring_hits(line, query, sensitive)->0.len(),
    ensures
        is_highlight(substring_hits(line, query, sensitive)->0, line.len()),
        is_covered(
            folded(line, sensitive),
            folded(query, sensitive),
            substring_hits(line, query, sensitive)->0[i] as int,
        ),
{
    lemma_occurrences(folded(line, sensitive), folded(query, sensitive), 0);
    lemma_covered(folded(line, sensitive), folded(query, sensitive), 0, i);
}

/// Where case does not count it never does, in any script: lines that differ
/// in case only have the same matches, and so do queries.
pub proof fn law_case_does_not_count(a: Seq<char>, b: Seq<char>, p: Seq<char>, q: Seq<char>)
    requires
        a.len() == b.len(),
        p.len() == q.len(),
        forall|i: int| 0 <= i < a.len() ==> lower_case(#[trigger] a[i]) == lower_case(b[i]),
        forall|j: int| 0 <= j < p.len() ==> lower_case(#[trigger] p[j]) == lower_case(q[j]),
    ensures
        substring_hits(a, p, false) == substring_hits(b, q, false),
{
    assert(folded(a, false) =~= folded(b, false));
    assert(folded(p, false) =~= folded(q, false));
}

// ------------------------------------------------------------------ fuzzy

/// The fuzzy matcher of the `fuzzy_matcher` crate, carried as an opaque value.
#[verifier::external_type_specification]
#[verifier::external_body]
pub struct ExSkimMatcherV2(SkimMatcherV2);

/// The matcher has the default scoring, its caches, no size limit, and smart
/// case.
pub uninterp spec fn is_smart_matcher(matcher: SkimMatcherV2) -> bool;

/// A fuzzy query is case-sensitive when it holds an ASCII uppercase letter.
pub open spec fn fuzzy_sensitive(query: Seq<char>) -> bool {
    exists|i: int| 0 <= i < query.len() && 'A' <= #[trigger] query[i] <= 'Z'
}

/// What a fuzzy match compares for a character: itself, or its ASCII lowercase
/// when case does not count.
pub open spec fn ascii_fold(c: char, sensitive: bool) -> char {
    if sensitive {
        c
    } else {
        ascii_lower(c)
    }
}

/// `at` picks the characters of `query` out of `line`, in order.
pub open spec fn is_embedding(
    line: Seq<char>,
    query: Seq<char>,
    sensitive: bool,
    at: Seq<int>,
) -> bool {
    &&& at.len() == query.len()
    &&& forall|i: int| 0 <= i < at.len() ==> 0 <= #[trigger] at[i] < line.len()
    &&& forall|i: int, j: int| 0 <= i < j < at.len() ==> at[i] < at[j]
    &&& forall|i: int|
        0 <= i < at.len() ==> ascii_fold(line[#[trigger] at[i]], sensitive) == ascii_fold(
            query[i],
            sensitive,
        )
}

/// A line matches a fuzzy query when the query is a subsequence of it.
pub open spec fn fuzzy_matches(line: Seq<char>, query: Seq<char>) -> bool {
    exists|at: Seq<int>| is_embedding(line, query, fuzzy_sensitive(query), at)
}

/// `SkimMatcherV2::default` followed by `SkimMatcherV2::smart_case`: default
/// scoring, caches, no size limit, and smart case.
#[verifier::external_body]
fn default_matcher_with_smart_case() -> (matcher: SkimMatcherV2)
    ensures
        is_smart_matcher(matcher),
{
    SkimMatcherV2::default().smart_case()
}

/// The matcher that fuzzy filters need.
pub fn smart_matcher() -> (matcher: SkimMatcherV2)
    ensures
        is_smart_matcher(matcher),
{
    default_matcher_with_smart_case()
}

/// Char indices as plain numbers.
pub open spec fn as_ints(indices: Seq<usize>) -> Seq<int> {
    indices.map_values(|i: usize| i as int)
}

/// The line and the query are so short that the matcher cannot mix up real
/// scores and those built on its stand-in for minus infinity (-32768). A gap
/// costs 3, and 1 for each of its characters; a matched character earns 14 to
/// 32. So real scores stay above minus the length of the line, and the others
/// below -32768 plus 32 for each character of the query.
pub open spec fn scores_fit(line: Seq<char>, query: Seq<char>) -> bool {
    line.len() + 32 * query.len() <= 32000
}

/// `FuzzyMatcher::fuzzy_indices` of `SkimMatcherV2`, without the score, on a
/// smart matcher (one without its caches panics, and extreme scores overflow).
/// It answers exactly when the query is a subsequence of the line, compared by
/// ASCII case-folding unless the query holds an ASCII uppercase letter. The
/// indices are char indices of the line, strictly increasing, at least one and
/// at most one per query character. Where the scores fit, the indices pick the
/// query out of the line.
///
/// Which of several possible alignments is reported is not stated: the
/// matcher keeps its score table between calls and reads leftovers of earlier
/// ones, so the choice does not depend on the arguments alone. On lines of
/// tens of thousands of characters real scores fall below the stand-in for
/// minus infinity, and an index can be reported whose character differs from
/// the query; there no more than the range and the order is stated.
#[verifier::external_body]
fn fuzzy_indices(matcher: &SkimMatcherV2, line: &str, query: &str) -> (hits: Option<Vec<usize>>)
    requires
        query@.len() > 0,
        is_smart_matcher(*matcher),
    ensures
        hits is Some <==> fuzzy_matches(line@, query@),
        hits is Some ==> 0 < hits->0@.len() <= query@.len(),
        hits is Some && scores_fit(line@, query@) ==> is_embedding(
            line@,
            query@,
            fuzzy_sensitive(query@),
            as_ints(hits->0@),
        ),
        hits is Some ==> is_highlight(hits->0@, line@.len()),
{
    matcher.fuzzy_indices(line, query).map(|(_score, indices)| indices)
}

// ------------------------------------------------------------------ regex

/// A compiled regular expression of the `regex` crate, carried as an opaque
/// value.
#[verifier::external_type_specification]
#[verifier::external_body]
pub struct ExRegex(regex::Regex);

/// Why a regular expression did not compile, carried as an opaque value.
#[verifier::external_type_specification]
#[verifier::external_body]
pub struct ExRegexError(regex::Error);

/// The pattern that a compiled regular expression was made from.
pub uninterp spec fn regex_source(re: regex::Regex) -> Seq<char>;

/// Whether a pattern compiles.
pub uninterp spec fn regex_compiles(pattern: Seq<char>) -> bool;

/// The byte ranges that a pattern matches in a line, from left to right.
pub uninterp spec fn regex_spans(pattern: Seq<char>, line: Seq<char>) -> Seq<(usize, usize)>;

/// Byte ranges of a line that lie on character boundaries, from left to right
/// without overlap.
pub open spec fn spans_in(line: Seq<char>, spans: Seq<(usize, usize)>) -> bool {
    &&& forall|i: int|
        0 <= i < spans.len() ==> {
            &&& (#[trigger] spans[i]).0 <= spans[i].1 <= encode_utf8(line).len()
            &&& is_char_boundary(encode_utf8(line), spans[i].0 as int)
            &&& is_char_boundary(encode_utf8(line), spans[i].1 as int)
        }
    &&& forall|i: int, j: int|
        0 <= i < j < spans.len() ==> (#[trigger] spans[i]).1 <= (#[trigger] spans[j]).0
}

/// `Regex::new`: whether a pattern compiles depends on its text alone, and a
/// compiled regular expression remembers that text.
pub assume_specification[ regex::Regex::new ](re: &str) -> (compiled: Result<regex::Regex, regex::Error>)
    ensures
        compiled is Ok <==> regex_compiles(re@),
        compiled matches Ok(done) ==> regex_source(done) == re@,
;

/// `Regex::find_iter`, as the byte offsets of every match. The matches depend
/// on the pattern and the line alone; they are successive and do not overlap,
/// and their offsets fall on character boundaries of the line.
#[verifier::external_body]
fn find_spans(re: &regex::Regex, line: &str) -> (spans: Vec<(usize, usize)>)
    ensures
        spans@ == regex_spans(regex_source(*re), line@),
        spans_in(line@, spans@),
{
    re.find_iter(line).map(|m| (m.start(), m.end())).collect()
}

/// How many characters the bytes `from .. to` of a line hold.
pub open spec fn chars_in(line: Seq<char>, from: int, to: int) -> nat {
    decode_utf8(encode_utf8(line).subrange(from, to)).len()
}

/// The char indices that a byte range covers.
pub open spec fn span_indices(line: Seq<char>, span: (usize, usize)) -> Seq<usize> {
    index_run(
        chars_in(line, 0, span.0 as int) as int,
        chars_in(line, span.0 as int, span.1 as int) as int,
    )
}

/// The char indices that several byte ranges cover, in their order.
pub open spec fn spans_indices(line: Seq<char>, spans: Seq<(usize, usize)>) -> Seq<usize>
    decreases spans.len(),
{
    if spans.len() == 0 {
        Seq::empty()
    } else {
        spans_indices(line, spans.drop_last()) + span_indices(line, spans.last())
    }
}

/// What matches at the given byte ranges highlight: nothing without a match. A
/// line that is matched by empty matches only is still matched, with no indices.
pub open spec fn spans_hits(line: Seq<char>, spans: Seq<(usize, usize)>) -> Option<Seq<usize>> {
    if spans.len() == 0 {
        None
    } else {
        Some(spans_indices(line, spans))
    }
}

/// What a regex match highlights.
pub open spec fn regex_hits(line: Seq<char>, pattern: Seq<char>) -> Option<Seq<usize>> {
    spans_hits(line, regex_spans(pattern, line))
}

/// Splitting a valid stretch of bytes at a boundary adds up its characters.
proof fn lemma_chars_add(line: Seq<char>, a: int, b: int)
    requires
        0 <= a <= b <= encode_utf8(line).len(),
        is_char_boundary(encode_utf8(line), a),
        is_char_boundary(encode_utf8(line), b),
    ensures
        valid_utf8(encode_utf8(line).subrange(0, a)),
        valid_utf8(encode_utf8(line).subrange(a, b)),
        valid_utf8(encode_utf8(line).subrange(a, encode_utf8(line).len() as int)),
        is_char_boundary(
            encode_utf8(line).subrange(a, encode_utf8(line).len() as int),
            b - a,
        ),
        chars_in(line, 0, a) + chars_in(line, a, b) == chars_in(line, 0, b),
        chars_in(line, 0, b) <= line.len(),
{
    let bytes = encode_utf8(line);
    encode_utf8_valid_utf8(line);
    encode_utf8_decode_utf8(line);
    valid_utf8_split(bytes, a);
    valid_utf8_split(bytes, b);
    decode_utf8_split(bytes, b);
    let head = bytes.subrange(0, b);
    let tail = bytes.subrange(a, bytes.len() as int);
    assert(is_char_boundary(head, a)) by {
        if a < b {
            is_char_boundary_iff_not_is_continuation_byte(bytes, a);
            is_char_boundary_iff_not_is_continuation_byte(head, a);
        } else {
            is_char_boundary_start_end_of_seq(head);
        }
    }
    valid_utf8_split(head, a);
    decode_utf8_split(head, a);
    assert(head.subrange(0, a) =~= bytes.subrange(0, a));
    assert(head.subrange(a, b) =~= bytes.subrange(a, b));
    assert(is_char_boundary(tail, b - a)) by {
        if b < bytes.len() {
            is_char_boundary_iff_not_is_continuation_byte(bytes, b);
            is_char_boundary_iff_not_is_continuation_byte(tail, b - a);
        } else {
            is_char_boundary_start_end_of_seq(tail);
        }
    }
}

/// Where a byte range starts and how long it is, in characters.
fn span_chars(line: &str, span: (usize, usize)) -> (r: (usize, usize))
    requires
        span.0 <= span.1 <= encode_utf8(line@).len(),
        is_char_boundary(encode_utf8(line@), span.0 as int),
        is_char_boundary(encode_utf8(line@), span.1 as int),
    ensures
        r.0 == chars_in(line@, 0, span.0 as int),
        r.1 == chars_in(line@, span.0 as int, span.1 as int),
{
    proof {
        lemma_chars_add(line@, span.0 as int, span.1 as int);
    }
    let (head, tail) = line.split_at(span.0);
    let (inside, _rest) = tail.split_at(span.1 - span.0);
    proof {
        encode_utf8_decode_utf8(head@);
        encode_utf8_decode_utf8(inside@);
        assert(inside.spec_bytes() =~= encode_utf8(line@).subrange(span.0 as int, span.1 as int));
    }
    (head.unicode_len(), inside.unicode_len())
}

proof fn lemma_spans_indices(line: Seq<char>, spans: Seq<(usize, usize)>)
    requires
        spans_in(line, spans),
        line.len() <= usize::MAX,
    ensures
        is_highlight(spans_indices(line, spans), line.len()),
        spans.len() > 0 ==> forall|i: int|
            0 <= i < spans_indices(line, spans).len() ==> spans_indices(line, spans)[i] < chars_in(
                line,
                0,
                spans.last().1 as int,
            ),
    decreases spans.len(),
{
    if spans.len() > 0 {
        let before = spans.drop_last();
        let last = spans.last();
        assert(spans_in(line, before)) by {
            assert forall|i: int| 0 <= i < before.len() implies #[trigger] before[i] == spans[i] by {}
        }
        lemma_spans_indices(line, before);
        let n = spans.len() - 1;
        assert(last == spans[n]);
        lemma_chars_add(line, last.0 as int, last.1 as int);
        let start = chars_in(line, 0, last.0 as int) as int;
        let len = chars_in(line, last.0 as int, last.1 as int) as int;
        if before.len() > 0 {
            assert(before.last() == spans[n - 1]);
            lemma_chars_add(line, before.last().1 as int, last.0 as int);
        }
        lemma_append_run(spans_indices(line, before), start, len, line.len());
    }
}

/// The char indices that the given byte ranges of a line cover.
pub fn indices_of_spans(line: &str, spans: &Vec<(usize, usize)>) -> (indices: Vec<usize>)
    requires
        spans_in(line@, spans@),
    ensures
        indices@ == spans_indices(line@, spans@),
        is_highlight(indices@, line@.len()),
{
    let line_len = line.unicode_len();
    let mut indices: Vec<usize> = Vec::new();
    let mut i: usize = 0;
    while i < spans.len()
        invariant
            spans_in(line@, spans@),
            line_len == line@.len(),
            i <= spans@.len(),
            indices@ == spans_indices(line@, spans@.take(i as int)),
        decreases spans@.len() - i,
    {
        let (start, len) = span_chars(line, spans[i]);
        proof {
            lemma_chars_add(line@, spans@[i as int].0 as int, spans@[i as int].1 as int);
            assert(spans@.take(i + 1).drop_last() =~= spans@.take(i as int));
        }
        extend_run(&mut indices, start, len);
        i += 1;
    }
    proof {
        assert(spans@.take(i as int) =~= spans@);
        lemma_spans_indices(line@, spans@);
    }
    indices
}

/// What matches at the given byte ranges of a line highlight.
pub fn hits_of_spans(line: &str, spans: &Vec<(usize, usize)>) -> (hits: Option<Vec<usize>>)
    requires
        spans_in(line@, spans@),
    ensures
        hits_view(hits) == spans_hits(line@, spans@),
        hits matches Some(indices) ==> is_highlight(indices@, line@.len()),
{
    if spans.len() == 0 {
        None
    } else {
        Some(indices_of_spans(line, spans))
    }
}

// ----------------------------------------------------------------- filter

/// What a filter stands for: a query and the mode asked for.
pub struct FilterView {
    pub query: Seq<char>,
    pub requested: MatchMode,
}

impl FilterView {
    /// The mode that is really used: a pattern that does not compile degrades
    /// to a substring search.
    pub open spec fn effective(self) -> MatchMode {
        if self.requested == MatchMode::Regex && !regex_compiles(self.query) {
            MatchMode::Substring
        } else {
            self.requested
        }
    }

    /// Whether a line passes the filter.
    pub open spec fn matches(self, line: Seq<char>) -> bool {
        &&& self.query.len() > 0
        &&& match self.effective() {
            MatchMode::Fuzzy => fuzzy_matches(line, self.query),
            MatchMode::Substring => substring_hits(
                line,
                self.query,
                case_sensitive(self.query),
            ) is Some,
            MatchMode::Regex => regex_spans(self.query, line).len() > 0,
        }
    }

    /// What may be highlighted in a line: increasing char indices of the line
    /// when it passes the filter, nothing otherwise. Substring and regex
    /// matches leave no choice; a fuzzy match picks the query out of the line
    /// and leaves open where, if there are several ways.
    pub open spec fn may_highlight(self, line: Seq<char>, hits: Option<Seq<usize>>) -> bool {
        &&& hits is Some <==> self.matches(line)
        &&& hits matches Some(indices) ==> is_highlight(indices, line.len())
        &&& hits is Some && self.effective() != MatchMode::Regex ==> hits->0.len() > 0
        &&& hits is Some && self.effective() == MatchMode::Substring ==> hits == substring_hits(
            line,
            self.query,
            case_sensitive(self.query),
        )
        &&& hits is Some && self.effective() == MatchMode::Regex ==> hits == regex_hits(
            line,
            self.query,
        )
        &&& hits is Some && self.effective() == MatchMode::Regex ==> spans_in(
            line,
            regex_spans(self.query, line),
        )
        &&& hits is Some && self.effective() == MatchMode::Fuzzy ==> hits->0.len()
            <= self.query.len()
        &&& hits is Some && self.effective() == MatchMode::Fuzzy && scores_fit(line, self.query)
            ==> is_embedding(line, self.query, fuzzy_sensitive(self.query), as_ints(hits->0))
    }
}

/// A highlight as a sequence.
pub open spec fn hits_view(hits: Option<Vec<usize>>) -> Option<Seq<usize>> {
    match hits {
        Some(indices) => Some(indices@),
        None => None,
    }
}

/// A compiled, ready-to-run filter for one query string.
pub struct Filter {
    query: String,
    requested: MatchMode,
    effective: MatchMode,
    regex: Option<regex::Regex>,
}

impl View for Filter {
    type V = FilterView;

    closed spec fn view(&self) -> FilterView {
        FilterView { query: self.query@, requested: self.requested }
    }
}

impl Filter {
    /// The effective mode fits the query, and a regex is there exactly when it
    /// is needed.
    pub closed spec fn wf(&self) -> bool {
        &&& self.effective == self@.effective()
        &&& self.regex is Some <==> self.effective == MatchMode::Regex
        &&& self.regex matches Some(re) ==> regex_source(re) == self.query@
    }

    pub fn new(query: String, requested: MatchMode) -> (filter: Filter)
        ensures
            filter.wf(),
            filter@ == (FilterView { query: query@, requested }),
    {
        let (effective, regex) = match requested {
            MatchMode::Regex => match regex::Regex::new(query.as_str()) {
                Ok(re) => (MatchMode::Regex, Some(re)),
                // Fallback: an uncompilable regex degrades to plain substring
                // matching instead of showing nothing.
                Err(_) => (MatchMode::Substring, None),
            },
            mode => (mode, None),
        };
        Filter { query, requested, effective, regex }
    }

    pub fn query(&self) -> (query: &str)
        ensures
            query@ == self@.query,
    {
        self.query.as_str()
    }

    pub fn effective_mode(&self) -> (mode: MatchMode)
        requires
            self.wf(),
        ensures
            mode == self@.effective(),
    {
        self.effective
    }

    /// True when the user asked for regex but it failed to compile.
    pub fn is_regex_fallback(&self) -> (yes: bool)
        requires
            self.wf(),
        ensures
            yes == (self@.requested == MatchMode::Regex && !regex_compiles(self@.query)),
    {
        self.requested == MatchMode::Regex && self.effective == MatchMode::Substring
    }

    /// Char indices to highlight if `line` matches, else None. A fuzzy filter
    /// needs the matcher that [`smart_matcher`] makes.
    pub fn match_indices(&self, fuzzy: &SkimMatcherV2, line: &str) -> (hits: Option<Vec<usize>>)
        requires
            self.wf(),
            self@.effective() == MatchMode::Fuzzy && self@.query.len() > 0 ==> is_smart_matcher(
                *fuzzy,
            ),
        ensures
            self@.may_highlight(line@, hits_view(hits)),
            self@.effective() == MatchMode::Substring && self@.query.len() > 0 ==> {
                &&& uppers_ascii(self@.query)
                &&& !case_sensitive(self@.query) ==> lowers_ascii(line@) && lowers_ascii(
                    self@.query,
                )
            },
    {
        if self.query.as_str().is_empty() {
            return None;
        }
        match self.effective {
            MatchMode::Fuzzy => fuzzy_indices(fuzzy, line, self.query.as_str()),
            MatchMode::Substring => {
                let hits = substring_indices(line, self.query.as_str());
                let _line_len = line.unicode_len();
                proof {
                    let sensitive = case_sensitive(self@.query);
                    lemma_occurrences(folded(line@, sensitive), folded(self@.query, sensitive), 0);
                }
                hits
            },
            MatchMode::Regex => match &self.regex {
                Some(re) => {
                    let spans = find_spans(re, line);
                    hits_of_spans(line, &spans)
                },
                None => None,
            },
        }
    }
}

/// A regex that does not compile never hides lines that hold it literally:
/// the filter passes exactly the lines that a substring filter passes.
pub proof fn law_invalid_regex_is_substring(query: Seq<char>, line: Seq<char>)
    requires
        !regex_compiles(query),
    ensures
        (FilterView { query, requested: MatchMode::Regex }).matches(line) == (FilterView {
            query,
            requested: MatchMode::Substring,
        }).matches(line),
{
}

/// A longer fuzzy query never passes more lines.
pub proof fn law_fuzzy_narrows(line: Seq<char>, query: Seq<char>, more: Seq<char>)
    requires
        fuzzy_matches(line, query + more),
    ensures
        fuzzy_matches(line, query),
{
    let longer = query + more;
    let at = choose|at: Seq<int>| is_embedding(line, longer, fuzzy_sensitive(longer), at);
    let part = at.take(query.len() as int);
    if fuzzy_sensitive(query) {
        let k = choose|k: int| 0 <= k < query.len() && 'A' <= #[trigger] query[k] <= 'Z';
        assert(longer[k] == query[k]);
    }
    assert forall|i: int| 0 <= i < part.len() implies ascii_fold(
        line[#[trigger] part[i]],
        fuzzy_sensitive(query),
    ) == ascii_fold(query[i], fuzzy_sensitive(query)) by {
        assert(part[i] == at[i]);
        assert(longer[i] == query[i]);
    }
    assert(is_embedding(line, query, fuzzy_sensitive(query), part));
}

/// A regex filter passes every line in which its pattern matches, be it only
/// the empty string somewhere.
pub proof fn law_empty_regex_match_is_a_match(query: Seq<char>, line: Seq<char>)
    requires
        query.len() > 0,
        regex_compiles(query),
    ensures
        (FilterView { query, requested: MatchMode::Regex }).matches(line) <==> regex_spans(
            query,
            line,
        ).len() > 0,
{
}

/// The byte offset at which character number `i` of a line starts.
pub open spec fn byte_offset(line: Seq<char>, i: int) -> int {
    encode_utf8(line.take(i)).len() as int
}

proof fn lemma_encode_add(a: Seq<char>, b: Seq<char>)
    ensures
        encode_utf8(a + b) == encode_utf8(a) + encode_utf8(b),
    decreases a.len(),
{
    if a.len() == 0 {
        assert(a + b =~= b);
        assert(encode_utf8(a) + encode_utf8(b) =~= encode_utf8(b));
    } else {
        lemma_encode_add(a.drop_first(), b);
        assert((a + b).drop_first() =~= a.drop_first() + b);
        assert(encode_utf8(a + b) =~= encode_utf8(a) + encode_utf8(b));
    }
}

proof fn lemma_byte_offset_grows(line: Seq<char>, i: int, j: int)
    requires
        0 <= i < j <= line.len(),
    ensures
        byte_offset(line, i) < byte_offset(line, j),
{
    let more = line.subrange(i, j);
    assert(line.take(j) =~= line.take(i) + more);
    lemma_encode_add(line.take(i), more);
    assert(encode_scalar(more[0] as u32).len() > 0);
}

/// The characters before a boundary are those that start before it.
proof fn lemma_chars_before(line: Seq<char>, at: int, i: int)
    requires
        0 <= at <= encode_utf8(line).len(),
        is_char_boundary(encode_utf8(line), at),
        0 <= i < line.len(),
    ensures
        i < chars_in(line, 0, at) <==> byte_offset(line, i) < at,
{
    let bytes = encode_utf8(line);
    encode_utf8_valid_utf8(line);
    encode_utf8_decode_utf8(line);
    valid_utf8_split(bytes, at);
    decode_utf8_split(bytes, at);
    let head = decode_utf8(bytes.subrange(0, at));
    let n = chars_in(line, 0, at) as int;
    assert(head =~= line.take(n));
    decode_utf8_encode_utf8(bytes.subrange(0, at));
    assert(byte_offset(line, n) == at);
    if i < n {
        lemma_byte_offset_grows(line, i, n);
    } else if i > n {
        lemma_byte_offset_grows(line, n, i);
    }
}

/// Character number `i` of a line lies inside one of the given byte ranges.
pub open spec fn is_inside(line: Seq<char>, spans: Seq<(usize, usize)>, i: int) -> bool {
    exists|k: int|
        0 <= k < spans.len() && (#[trigger] spans[k]).0 <= byte_offset(line, i) < spans[k].1
}

proof fn lemma_inside(line: Seq<char>, spans: Seq<(usize, usize)>, i: int)
    requires
        spans_in(line, spans),
        0 <= i < line.len() <= usize::MAX,
    ensures
        spans_indices(line, spans).contains(i as usize) <==> is_inside(line, spans, i),
    decreases spans.len(),
{
    if spans.len() > 0 {
        let before = spans.drop_last();
        let last = spans.last();
        let n = spans.len() - 1;
        assert(last == spans[n]);
        assert forall|k: int| 0 <= k < before.len() implies #[trigger] before[k] == spans[k] by {}
        assert(spans_in(line, before));
        lemma_inside(line, before, i);
        lemma_chars_add(line, last.0 as int, last.1 as int);
        lemma_chars_before(line, last.0 as int, i);
        lemma_chars_before(line, last.1 as int, i);
        let start = chars_in(line, 0, last.0 as int) as int;
        let len = chars_in(line, last.0 as int, last.1 as int) as int;
        let head = spans_indices(line, before);
        let run = index_run(start, len);
        let all = spans_indices(line, spans);
        assert(all == head + run);
        let here = last.0 <= byte_offset(line, i) < last.1;
        assert(here <==> start <= i < start + len);
        if here {
            assert(run[i - start] == i as usize);
            assert(all[head.len() + (i - start)] == i as usize);
            assert(is_inside(line, spans, i));
        }
        if head.contains(i as usize) {
            let k = choose|k: int| 0 <= k < head.len() && head[k] == i as usize;
            assert(all[k] == i as usize);
        }
        if is_inside(line, before, i) {
            let k = choose|k: int|
                0 <= k < before.len() && (#[trigger] before[k]).0 <= byte_offset(line, i)
                    < before[k].1;
            assert(spans[k] == before[k]);
        }
        if is_inside(line, spans, i) && !here {
            let k = choose|k: int|
                0 <= k < spans.len() && (#[trigger] spans[k]).0 <= byte_offset(line, i)
                    < spans[k].1;
            assert(before[k] == spans[k]);
        }
        if all.contains(i as usize) {
            let k = choose|k: int| 0 <= k < all.len() && all[k] == i as usize;
            if k < head.len() {
                assert(head[k] == i as usize);
            } else {
                assert(all[k] == run[k - head.len()]);
                assert(run[k - head.len()] == start + (k - head.len()));
            }
        }
    }
}

/// A regex filter highlights exactly the characters that lie inside one of its
/// matches, in increasing order.
pub proof fn law_regex_highlights_matches(
    filter: FilterView,
    line: Seq<char>,
    hits: Option<Seq<usize>>,
    i: int,
)
    requires
        filter.effective() == MatchMode::Regex,
        filter.may_highlight(line, hits),
        hits is Some,
        0 <= i < line.len() <= usize::MAX,
    ensures
        is_highlight(hits->0, line.len()),
        hits->0.contains(i as usize) <==> is_inside(line, regex_spans(filter.query, line), i),
{
    lemma_inside(line, regex_spans(filter.query, line), i);
}

/// Something is highlighted in the lines that pass and in no others. A substring
/// filter highlights what a substring search finds, a regex filter passes the
/// lines in which there is a match, and a filter without a query passes nothing.
pub proof fn law_filter_highlights(
    filter: FilterView,
    line: Seq<char>,
    hits: Option<Seq<usize>>,
)
    requires
        filter.may_highlight(line, hits),
    ensures
        hits is Some <==> filter.matches(line),
        filter.query.len() == 0 ==> hits is None && !filter.matches(line),
        hits is Some ==> forall|a: int, b: int|
            0 <= a < b < hits->0.len() ==> hits->0[a] < hits->0[b],
        hits is Some ==> forall|a: int| 0 <= a < hits->0.len() ==> hits->0[a] < line.len(),
        filter.effective() == MatchMode::Fuzzy && hits is Some ==> 0 < hits->0.len()
            <= filter.query.len(),
        filter.query.len() > 0 && filter.effective() == MatchMode::Regex ==> (hits is Some
            <==> regex_spans(filter.query, line).len() > 0),
        filter.query.len() > 0 && filter.effective() == MatchMode::Substring ==> hits
            == substring_hits(line, filter.query, case_sensitive(filter.query)),
{
}

// ------------------------------------------------- laws on what matches

/// The query can be read in a line at a position: character for character, or
/// up to case.
pub open spec fn reads_at(line: Seq<char>, query: Seq<char>, literally: bool, at: int) -> bool {
    &&& 0 <= at
    &&& at + query.len() <= line.len()
    &&& forall|j: int|
        0 <= j < query.len() ==> if literally {
            #[trigger] line[at + j] == query[j]
        } else {
            lower_case(line[at + j]) == lower_case(query[j])
        }
}

proof fn lemma_reads_at(line: Seq<char>, query: Seq<char>, sensitive: bool, at: int)
    ensures
        reads_at(line, query, sensitive, at) <==> occurs_at(
            folded(line, sensitive),
            folded(query, sensitive),
            at,
        ),
{
    let l = folded(line, sensitive);
    let q = folded(query, sensitive);
    if reads_at(line, query, sensitive, at) {
        assert forall|j: int| 0 <= j < q.len() implies #[trigger] l[at + j] == q[j] by {
            assert(l[at + j] == fold(line[at + j], sensitive));
            assert(q[j] == fold(query[j], sensitive));
        }
    }
    if occurs_at(l, q, at) {
        assert forall|j: int| 0 <= j < query.len() implies if sensitive {
            #[trigger] line[at + j] == query[j]
        } else {
            lower_case(line[at + j]) == lower_case(query[j])
        } by {
            assert(l[at + j] == q[j]);
            assert(l[at + j] == fold(line[at + j], sensitive));
            assert(q[j] == fold(query[j], sensitive));
            if sensitive {
                assert(seq![line[at + j]][0] == seq![query[j]][0]);
            }
        }
    }
}

proof fn lemma_first_occurrence(
    line: Seq<Seq<char>>,
    query: Seq<Seq<char>>,
    from: int,
    first: int,
)
    requires
        query.len() > 0,
        0 <= from <= first,
        occurs_at(line, query, first),
        forall|at: int| from <= at < first ==> !occurs_at(line, query, at),
    ensures
        occurrences(line, query, from) == index_run(first, query.len() as int) + occurrences(
            line,
            query,
            first + query.len(),
        ),
    decreases first - from,
{
    if from < first {
        assert(!occurs_at(line, query, from));
        lemma_first_occurrence(line, query, from + 1, first);
    }
}

proof fn lemma_shifted_occurrences(
    line: Seq<Seq<char>>,
    query: Seq<Seq<char>>,
    skipped: int,
    from: int,
)
    requires
        0 <= skipped <= line.len(),
        0 <= from,
        line.len() <= usize::MAX,
    ensures
        ({
            let all = occurrences(line, query, skipped + from);
            let rest = occurrences(line.skip(skipped), query, from);
            &&& all.len() == rest.len()
            &&& forall|k: int| 0 <= k < all.len() ==> #[trigger] all[k] == skipped + rest[k]
        }),
    decreases line.len() - skipped - from,
{
    let tail = line.skip(skipped);
    let qlen = query.len() as int;
    if qlen > 0 && from + qlen <= tail.len() {
        assert(occurs_at(line, query, skipped + from) <==> occurs_at(tail, query, from)) by {
            if occurs_at(line, query, skipped + from) {
                assert forall|j: int| 0 <= j < qlen implies #[trigger] tail[from + j]
                    == query[j] by {
                    assert(tail[from + j] == line[skipped + from + j]);
                }
            }
            if occurs_at(tail, query, from) {
                assert forall|j: int| 0 <= j < qlen implies #[trigger] line[skipped + from + j]
                    == query[j] by {
                    assert(tail[from + j] == line[skipped + from + j]);
                }
            }
        }
        let all = occurrences(line, query, skipped + from);
        let rest = occurrences(tail, query, from);
        if occurs_at(tail, query, from) {
            lemma_shifted_occurrences(line, query, skipped, from + qlen);
            assert(skipped + from + qlen == skipped + (from + qlen));
            let a = index_run(skipped + from, qlen);
            let b = index_run(from, qlen);
            let more = occurrences(line, query, skipped + (from + qlen));
            let others = occurrences(tail, query, from + qlen);
            assert forall|k: int| 0 <= k < all.len() implies #[trigger] all[k] == skipped
                + rest[k] by {
                if k < qlen {
                    assert(all[k] == a[k] && rest[k] == b[k]);
                } else {
                    assert(all[k] == more[k - qlen] && rest[k] == others[k - qlen]);
                }
            }
        } else {
            lemma_shifted_occurrences(line, query, skipped, from + 1);
            assert(skipped + from + 1 == skipped + (from + 1));
        }
    }
}

/// A substring search finds nothing where the query cannot be read.
pub proof fn law_substring_finds_only_what_is_there(
    line: Seq<char>,
    query: Seq<char>,
    sensitive: bool,
)
    requires
        line.len() <= usize::MAX,
        query.len() == 0 || forall|at: int| !reads_at(line, query, sensitive, at),
    ensures
        substring_hits(line, query, sensitive) is None,
{
    if query.len() > 0 {
        assert forall|at: int| !occurs_at(folded(line, sensitive), folded(query, sensitive), at) by {
            lemma_reads_at(line, query, sensitive, at);
        }
        law_substring_complete(line, query, sensitive);
    }
}

/// A substring search highlights the first place where the query can be read,
/// all of it, and then what the same search finds in the rest of the line.
pub proof fn law_substring_goes_from_hit_to_hit(
    line: Seq<char>,
    query: Seq<char>,
    sensitive: bool,
    first: int,
)
    requires
        line.len() <= usize::MAX,
        query.len() > 0,
        reads_at(line, query, sensitive, first),
        forall|at: int| 0 <= at < first ==> !reads_at(line, query, sensitive, at),
    ensures
        ({
            let end = first + query.len();
            let hits = substring_hits(line, query, sensitive)->0;
            let more = match substring_hits(line.skip(end), query, sensitive) {
                Some(v) => v,
                None => Seq::empty(),
            };
            &&& substring_hits(line, query, sensitive) is Some
            &&& hits.len() == query.len() + more.len()
            &&& forall|k: int| 0 <= k < query.len() ==> #[trigger] hits[k] == first + k
            &&& forall|k: int|
                query.len() <= k < hits.len() ==> #[trigger] hits[k] == end + more[k - query.len()]
        }),
{
    let l = folded(line, sensitive);
    let q = folded(query, sensitive);
    let end = first + query.len();
    lemma_reads_at(line, query, sensitive, first);
    assert forall|at: int| 0 <= at < first implies !occurs_at(l, q, at) by {
        lemma_reads_at(line, query, sensitive, at);
    }
    lemma_first_occurrence(l, q, 0, first);
    lemma_shifted_occurrences(l, q, end, 0);
    assert(folded(line.skip(end), sensitive) =~= l.skip(end));
    let run = index_run(first, query.len() as int);
    let all = occurrences(l, q, 0);
    assert forall|k: int| 0 <= k < query.len() implies #[trigger] all[k] == first + k by {
        assert(all[k] == run[k]);
    }
    assert forall|k: int| query.len() <= k < all.len() implies #[trigger] all[k] == end
        + occurrences(l.skip(end), q, 0)[k - query.len()] by {
        assert(all[k] == occurrences(l, q, end + 0)[k - query.len()]);
    }
}

/// Smart case: one uppercase character anywhere in the query makes case count
/// for all of it; without one it never counts.
pub proof fn law_one_uppercase_makes_case_count(line: Seq<char>, query: Seq<char>, k: int)
    ensures
        0 <= k < query.len() && upper_case(query[k]) ==> substring_hits(
            line,
            query,
            case_sensitive(query),
        ) == substring_hits(line, query, true),
        (forall|j: int| 0 <= j < query.len() ==> !upper_case(#[trigger] query[j]))
            ==> substring_hits(line, query, case_sensitive(query)) == substring_hits(
            line,
            query,
            false,
        ),
{
    if 0 <= k < query.len() && upper_case(query[k]) {
        assert(case_sensitive(query));
    }
}

/// A query with an uppercase character at any position matches literally only:
/// every highlighted character lies in a stretch of the line that is the query,
/// character for character.
pub proof fn law_uppercase_query_matches_literally(
    line: Seq<char>,
    query: Seq<char>,
    k: int,
    i: int,
)
    requires
        line.len() <= usize::MAX,
        0 <= k < query.len(),
        upper_case(query[k]),
        substring_hits(line, query, case_sensitive(query)) is Some,
        0 <= i < substring_hits(line, query, case_sensitive(query))->0.len(),
    ensures
        ({
            let hit = substring_hits(line, query, case_sensitive(query))->0[i];
            exists|at: int|
                0 <= at <= hit < at + query.len() <= line.len() && #[trigger] line.subrange(
                    at,
                    at + query.len(),
                ) == query
        }),
{
    law_one_uppercase_makes_case_count(line, query, k);
    let l = folded(line, true);
    let q = folded(query, true);
    law_substring_highlights_occurrences(line, query, true, i);
    let hit = substring_hits(line, query, true)->0[i] as int;
    let at = choose|at: int| #[trigger] occurs_at(l, q, at) && at <= hit < at + q.len();
    lemma_reads_at(line, query, true, at);
    assert(line.subrange(at, at + query.len()) =~= query) by {
        assert forall|j: int| 0 <= j < query.len() implies line.subrange(at, at + query.len())[j]
            == query[j] by {
            assert(line[at + j] == query[j]);
        }
    }
}

/// Whatever the case of its characters, a query is found in every line that
/// holds it literally.
pub proof fn law_literal_text_is_always_found(
    before: Seq<char>,
    query: Seq<char>,
    after: Seq<char>,
)
    requires
        query.len() > 0,
        before.len() + query.len() + after.len() <= usize::MAX,
    ensures
        substring_hits(before + query + after, query, case_sensitive(query)) is Some,
{
    let line = before + query + after;
    let n = before.len() as int;
    let sensitive = case_sensitive(query);
    assert forall|j: int| 0 <= j < query.len() implies if sensitive {
        #[trigger] line[n + j] == query[j]
    } else {
        lower_case(line[n + j]) == lower_case(query[j])
    } by {
        assert(line[n + j] == query[j]);
    }
    assert(reads_at(line, query, sensitive, n));
    lemma_reads_at(line, query, sensitive, n);
    law_substring_complete(line, query, sensitive);
}

/// A substring filter passes exactly the lines in which its query can be read:
/// literally if the query holds an uppercase character, up to case otherwise.
pub proof fn law_substring_filter(filter: FilterView, line: Seq<char>, literally: bool)
    requires
        literally == exists|k: int|
            0 <= k < filter.query.len() && upper_case(#[trigger] filter.query[k]),
        line.len() <= usize::MAX,
        filter.query.len() > 0,
        filter.requested == MatchMode::Substring,
    ensures
        filter.matches(line) <==> exists|at: int| #[trigger]
            reads_at(line, filter.query, literally, at),
{
    let query = filter.query;
    let sensitive = case_sensitive(query);
    law_substring_complete(line, query, sensitive);
    let l = folded(line, sensitive);
    let q = folded(query, sensitive);
    if exists|at: int| occurs_at(l, q, at) {
        let at = choose|at: int| occurs_at(l, q, at);
        lemma_reads_at(line, query, sensitive, at);
        assert(reads_at(line, query, sensitive, at));
    }
    if exists|at: int| #[trigger] reads_at(line, query, sensitive, at) {
        let at = choose|at: int| #[trigger] reads_at(line, query, sensitive, at);
        lemma_reads_at(line, query, sensitive, at);
        assert(occurs_at(l, q, at));
    }
}

/// Increasing positions of a line pick out the characters of a query, one for
/// each: themselves, or up to the case of the letters A to Z.
pub open spec fn picks(line: Seq<char>, query: Seq<char>, literally: bool, at: Seq<int>) -> bool {
    &&& at.len() == query.len()
    &&& forall|i: int, j: int| 0 <= i < j < at.len() ==> at[i] < at[j]
    &&& forall|i: int|
        0 <= i < at.len() ==> {
            let a = line[#[trigger] at[i]];
            let b = query[i];
            &&& 0 <= at[i] < line.len()
            &&& a == b || (!literally && ('A' <= a <= 'Z' && b as int == a as int + 32 || 'A' <= b
                <= 'Z' && a as int == b as int + 32))
        }
}

proof fn lemma_picks(line: Seq<char>, query: Seq<char>, sensitive: bool, at: Seq<int>)
    ensures
        picks(line, query, sensitive, at) <==> is_embedding(line, query, sensitive, at),
{
    if picks(line, query, sensitive, at) {
        assert forall|i: int| 0 <= i < at.len() implies ascii_fold(
            line[#[trigger] at[i]],
            sensitive,
        ) == ascii_fold(query[i], sensitive) by {
            let a = line[at[i]];
            let b = query[i];
            lemma_same_ascii_fold(a, b);
        }
    }
    if is_embedding(line, query, sensitive, at) {
        assert forall|i: int| 0 <= i < at.len() implies ({
            let a = line[#[trigger] at[i]];
            let b = query[i];
            &&& 0 <= at[i] < line.len()
            &&& a == b || (!sensitive && ('A' <= a <= 'Z' && b as int == a as int + 32 || 'A' <= b
                <= 'Z' && a as int == b as int + 32))
        }) by {
            lemma_same_ascii_fold(line[at[i]], query[i]);
        }
    }
}

proof fn lemma_same_ascii_fold(a: char, b: char)
    ensures
        ascii_lower(a) == ascii_lower(b) <==> a == b || ('A' <= a <= 'Z' && b as int == a as int + 32
            || 'A' <= b <= 'Z' && a as int == b as int + 32),
{
    assert('A' <= a <= 'Z' ==> ascii_lower(a) as int == a as int + 32);
    assert('A' <= b <= 'Z' ==> ascii_lower(b) as int == b as int + 32);
}

/// A fuzzy filter passes exactly the lines out of which its query can be
/// picked: literally if the query holds a letter from A to Z, up to the case of
/// such letters otherwise. Where the scores fit, what it highlights is such a
/// pick.
pub proof fn law_fuzzy_filter(
    filter: FilterView,
    line: Seq<char>,
    literally: bool,
    hits: Option<Seq<usize>>,
)
    requires
        literally == exists|k: int|
            0 <= k < filter.query.len() && 'A' <= #[trigger] filter.query[k] <= 'Z',
        filter.query.len() > 0,
        filter.requested == MatchMode::Fuzzy,
        filter.may_highlight(line, hits),
    ensures
        hits is Some <==> exists|at: Seq<int>| #[trigger] picks(line, filter.query, literally, at),
        hits is Some && line.len() + 32 * filter.query.len() <= 32000 ==> picks(
            line,
            filter.query,
            literally,
            hits->0.map_values(|i: usize| i as int),
        ),
{
    let query = filter.query;
    assert(literally == fuzzy_sensitive(query));
    if fuzzy_matches(line, query) {
        let at = choose|at: Seq<int>| is_embedding(line, query, literally, at);
        lemma_picks(line, query, literally, at);
    }
    if exists|at: Seq<int>| #[trigger] picks(line, query, literally, at) {
        let at = choose|at: Seq<int>| #[trigger] picks(line, query, literally, at);
        lemma_picks(line, query, literally, at);
        assert(is_embedding(line, query, literally, at));
    }
    if hits is Some {
        lemma_picks(line, query, literally, as_ints(hits->0));
    }
}

/// The mode asked for is the mode used, except that a regex that does not
/// compile is searched for as it stands.
pub proof fn law_effective_mode(query: Seq<char>, requested: MatchMode)
    ensures
        ({
            let used = (FilterView { query, requested }).effective();
            &&& requested == MatchMode::Fuzzy ==> used == MatchMode::Fuzzy
            &&& requested == MatchMode::Substring ==> used == MatchMode::Substring
            &&& requested == MatchMode::Regex ==> (used == MatchMode::Regex) == regex_compiles(query)
            &&& used != requested ==> used == MatchMode::Substring
        }),
{
}

/// Every mode has its name.
pub proof fn law_mode_names(mode: MatchMode)
    ensures
        mode_label(mode) == (if mode == MatchMode::Fuzzy {
            "fuzzy"@
        } else if mode == MatchMode::Regex {
            "regex"@
        } else {
            "substr"@
        }),
{
}

/// Of the characters of a line just those that lie inside one of the given byte
/// ranges are highlighted, in increasing order; without a range there is no
/// match at all.
pub proof fn law_ranges_are_highlighted(line: Seq<char>, spans: Seq<(usize, usize)>, i: int)
    requires
        spans_in(line, spans),
        0 <= i < line.len() <= usize::MAX,
    ensures
        spans_hits(line, spans) is None <==> spans.len() == 0,
        spans_hits(line, spans) matches Some(v) ==> v == spans_indices(line, spans),
        spans_indices(line, spans).contains(i as usize) <==> is_inside(line, spans, i),
        is_highlight(spans_indices(line, spans), line.len()),
{
    lemma_inside(line, spans, i);
    lemma_spans_indices(line, spans);
}

} // verus!
