//! Text primitives: comparison, case-insensitive matching, normal forms.

use vstd::prelude::*;
use vstd::string::*;

verus! {

/// Whether `needle` occurs in `hay` as a contiguous run of characters.
pub open spec fn is_infix(needle: Seq<char>, hay: Seq<char>) -> bool {
    exists|i: int|
        0 <= i && i + needle.len() <= hay.len() && #[trigger] hay.subrange(
            i,
            i + needle.len(),
        ) == needle
}

/// Strict lexicographic order of two texts by the code points of their
/// characters; a proper prefix comes before the longer text.
pub open spec fn lex_lt(a: Seq<char>, b: Seq<char>) -> bool
    decreases a.len(),
{
    if b.len() == 0 {
        false
    } else if a.len() == 0 {
        true
    } else if a[0] == b[0] {
        lex_lt(a.drop_first(), b.drop_first())
    } else {
        (a[0] as int) < (b[0] as int)
    }
}

/// No text comes before itself.
pub proof fn lemma_lex_irreflexive(a: Seq<char>)
    ensures
        !lex_lt(a, a),
    decreases a.len(),
{
    if a.len() > 0 {
        lemma_lex_irreflexive(a.drop_first());
    }
}

/// Of two texts at most one comes before the other.
pub proof fn lemma_lex_asymmetric(a: Seq<char>, b: Seq<char>)
    requires
        lex_lt(a, b),
    ensures
        !lex_lt(b, a),
    decreases a.len(),
{
    if a.len() > 0 && b.len() > 0 && a[0] == b[0] {
        lemma_lex_asymmetric(a.drop_first(), b.drop_first());
    }
}

/// The order of texts is transitive.
pub proof fn lemma_lex_transitive(a: Seq<char>, b: Seq<char>, c: Seq<char>)
    requires
        lex_lt(a, b),
        lex_lt(b, c),
    ensures
        lex_lt(a, c),
    decreases a.len(),
{
    if a.len() > 0 && b.len() > 0 && c.len() > 0 && a[0] == b[0] && b[0] == c[0] {
        lemma_lex_transitive(a.drop_first(), b.drop_first(), c.drop_first());
    }
}

/// Two texts of which neither comes before the other are the same text.
pub proof fn lemma_lex_total(a: Seq<char>, b: Seq<char>)
    requires
        !lex_lt(a, b),
        !lex_lt(b, a),
    ensures
        a == b,
    decreases a.len(),
{
    if a.len() == 0 {
        assert(a =~= b);
    } else {
        assert(b.len() > 0);
        assert(a[0] == b[0]);
        lemma_lex_total(a.drop_first(), b.drop_first());
        assert(a =~= seq![a[0]] + a.drop_first());
        assert(b =~= seq![b[0]] + b.drop_first());
    }
}

/// The lower-case form of a text, as `str::to_lowercase` computes it.
pub uninterp spec fn lowercase(s: Seq<char>) -> Seq<char>;

/// The upper-case form of a text, as `str::to_uppercase` computes it.
pub uninterp spec fn uppercase(s: Seq<char>) -> Seq<char>;

/// The upper-case expansion of one character, as `char::to_uppercase` yields it.
pub uninterp spec fn char_uppercase(c: char) -> Seq<char>;

/// Whether a character has the Unicode `White_Space` property, as
/// `char::is_whitespace` decides it.
pub uninterp spec fn whitespace(c: char) -> bool;

/// Character-wise equality of two strings.
///
/// Wraps `str::eq`, which compares the UTF-8 bytes; two strings have the same
/// bytes exactly when they have the same characters.
#[verifier::external_body]
pub(crate) fn text_eq(a: &str, b: &str) -> (r: bool)
    ensures
        r == (a@ == b@),
{
    a == b
}

/// Strict ordering of two strings.
///
/// Wraps `<` on `str`, which orders strings lexicographically by their bytes;
/// for UTF-8 that is the lexicographic order of the code points.
#[verifier::external_body]
pub(crate) fn text_lt(a: &str, b: &str) -> (r: bool)
    ensures
        r == lex_lt(a@, b@),
{
    a < b
}

/// Substring test.
///
/// Wraps `str::contains` with a string pattern, which is true exactly when
/// the pattern occurs somewhere in the haystack; the empty pattern always
/// occurs.
#[verifier::external_body]
pub(crate) fn text_contains(hay: &str, needle: &str) -> (r: bool)
    ensures
        r == is_infix(needle@, hay@),
{
    hay.contains(needle)
}

/// Wraps `str::to_lowercase`; the result depends on the characters alone and
/// is only given its name here.
#[verifier::external_body]
pub(crate) fn to_lower(s: &str) -> (r: String)
    ensures
        r@ == lowercase(s@),
{
    s.to_lowercase()
}

/// Wraps `str::to_uppercase`; the result depends on the characters alone and
/// is only given its name here.
#[verifier::external_body]
pub(crate) fn to_upper(s: &str) -> (r: String)
    ensures
        r@ == uppercase(s@),
{
    s.to_uppercase()
}

/// Wraps `char::to_uppercase`, collecting the characters it yields; the
/// result depends on the character alone and is only given its name here.
#[verifier::external_body]
pub(crate) fn upper_of_char(c: char) -> (r: String)
    ensures
        r@ == char_uppercase(c),
{
    c.to_uppercase().collect()
}

/// Wraps `char::is_whitespace`; the answer depends on the character alone and
/// is only given its name here.
#[verifier::external_body]
pub(crate) fn is_space(c: char) -> (r: bool)
    ensures
        r == whitespace(c),
{
    c.is_whitespace()
}

/// Wraps `String::push`, which appends one character to the end.
#[verifier::external_body]
pub(crate) fn push_char(s: &mut String, c: char)
    ensures
        final(s)@ == old(s)@.push(c),
{
    s.push(c)
}

/// Case-insensitive containment: the lower-case form of `query` occurs in the
/// lower-case form of `text`.
pub open spec fn matches_fragment(text: Seq<char>, query: Seq<char>) -> bool {
    is_infix(lowercase(query), lowercase(text))
}

/// Letter case plays no part in matching: texts with the same lower-case
/// form match the same queries, and queries with the same lower-case form
/// match the same texts.
pub proof fn lemma_match_ignores_case(t1: Seq<char>, t2: Seq<char>, q1: Seq<char>, q2: Seq<char>)
    requires
        lowercase(t1) == lowercase(t2),
        lowercase(q1) == lowercase(q2),
    ensures
        matches_fragment(t1, q1) == matches_fragment(t2, q2),
{
}

/// Decides [`matches_fragment`].
pub fn contains_ignore_case(text: &str, query: &str) -> (r: bool)
    ensures
        r == matches_fragment(text@, query@),
{
    let t = to_lower(text);
    let q = to_lower(query);
    text_contains(t.as_str(), q.as_str())
}

/// A hyphen or a space becomes an underscore; any other character stays.
pub open spec fn fold_separator(c: char) -> char {
    if c == '-' || c == ' ' {
        '_'
    } else {
        c
    }
}

/// The normal form under which tactic names are compared: lower case, with
/// hyphens and spaces replaced by underscores.
pub open spec fn normalized(s: Seq<char>) -> Seq<char> {
    lowercase(s).map_values(|c: char| fold_separator(c))
}

/// Computes the [`normalized`] form of a text.
pub fn normalize(s: &str) -> (r: String)
    ensures
        r@ == normalized(s@),
{
    let low = to_lower(s);
    let n = low.as_str().unicode_len();
    let mut out = String::new();
    let mut i: usize = 0;
    while i < n
        invariant
            n == low@.len(),
            i <= n,
            out@.len() == i,
            forall|j: int| 0 <= j < i ==> out@[j] == fold_separator(#[trigger] low@[j]),
        decreases n - i,
    {
        let c = low.as_str().get_char(i);
        if c == '-' || c == ' ' {
            push_char(&mut out, '_');
        } else {
            push_char(&mut out, c);
        }
        i += 1;
    }
    assert(out@ =~= normalized(s@));
    out
}

/// Whether the normal form of `query` occurs in the normal form of `text`.
pub open spec fn matches_normalized(text: Seq<char>, query: Seq<char>) -> bool {
    is_infix(normalized(query), normalized(text))
}

/// Hyphens, spaces and underscores are one separator: replacing any of them
/// by another in a text that is already in lower case leaves the normal form
/// of its characters unchanged.
pub proof fn lemma_separators_fold_alike(a: Seq<char>, b: Seq<char>)
    requires
        a.len() == b.len(),
        forall|i: int|
            0 <= i < a.len() ==> a[i] == b[i] || ((a[i] == '-' || a[i] == ' ' || a[i] == '_') && (
            b[i] == '-' || b[i] == ' ' || b[i] == '_')),
    ensures
        a.map_values(|c: char| fold_separator(c)) == b.map_values(|c: char| fold_separator(c)),
{
    assert(a.map_values(|c: char| fold_separator(c)) =~= b.map_values(
        |c: char| fold_separator(c),
    ));
}

/// Queries with the same normal form match the same texts, and texts with
/// the same normal form match the same queries.
pub proof fn lemma_match_by_normal_form(t1: Seq<char>, t2: Seq<char>, q1: Seq<char>, q2: Seq<char>)
    requires
        normalized(t1) == normalized(t2),
        normalized(q1) == normalized(q2),
    ensures
        matches_normalized(t1, q1) == matches_normalized(t2, q2),
{
}

/// Decides [`matches_normalized`].
pub fn contains_normalized(text: &str, query: &str) -> (r: bool)
    ensures
        r == matches_normalized(text@, query@),
{
    let t = normalize(text);
    let q = normalize(query);
    text_contains(t.as_str(), q.as_str())
}

/// The state of title-casing after some prefix of the input.
pub struct TitleState {
    /// What has been written so far.
    pub out: Seq<char>,
    /// Whether the last character read belonged to a word.
    pub in_word: bool,
    /// Whether any word has begun.
    pub started: bool,
}

/// One step of title-casing. A hyphen or a white-space character ends the
/// current word. The first character of a word is written in upper case, after
/// a single space if a word came before; the other characters are copied.
pub open spec fn title_step(st: TitleState, c: char) -> TitleState {
    if c == '-' || whitespace(c) {
        TitleState { out: st.out, in_word: false, started: st.started }
    } else if st.in_word {
        TitleState { out: st.out.push(c), in_word: true, started: true }
    } else if st.started {
        TitleState { out: st.out.push(' ') + char_uppercase(c), in_word: true, started: true }
    } else {
        TitleState { out: st.out + char_uppercase(c), in_word: true, started: true }
    }
}

/// The display form of a phase name: hyphens count as spaces, the words are
/// joined by single spaces, and each word begins with its first character in
/// upper case.
pub open spec fn title_cased(s: Seq<char>) -> Seq<char> {
    s.fold_left(
        TitleState { out: Seq::<char>::empty(), in_word: false, started: false },
        |st: TitleState, c: char| title_step(st, c),
    ).out
}

/// Computes the [`title_cased`] form of a phase name.
pub fn title_case(s: &str) -> (r: String)
    ensures
        r@ == title_cased(s@),
{
    let n = s.unicode_len();
    let mut out = String::new();
    let mut in_word = false;
    let mut started = false;
    let mut i: usize = 0;
    let ghost step = |st: TitleState, c: char| title_step(st, c);
    let ghost init = TitleState { out: Seq::<char>::empty(), in_word: false, started: false };
    while i < n
        invariant
            n == s@.len(),
            i <= n,
            step == (|st: TitleState, c: char| title_step(st, c)),
            init == (TitleState { out: Seq::<char>::empty(), in_word: false, started: false }),
            s@.take(i as int).fold_left(init, step) == (TitleState {
                out: out@,
                in_word,
                started,
            }),
        decreases n - i,
    {
        let c = s.get_char(i);
        proof {
            let next = s@.take(i + 1);
            assert(next.drop_last() =~= s@.take(i as int));
            assert(next.last() == c);
            assert(next.fold_left(init, step) == step(next.drop_last().fold_left(init, step), c));
        }
        if c == '-' || is_space(c) {
            in_word = false;
        } else if in_word {
            push_char(&mut out, c);
        } else {
            if started {
                push_char(&mut out, ' ');
            }
            let up = upper_of_char(c);
            out.append(up.as_str());
            in_word = true;
            started = true;
        }
        i += 1;
    }
    assert(s@.take(n as int) =~= s@);
    out
}

} // verus!
