//! The interactive filter and selector. It owns the full command list and a
//! filtered, ranked view of it, plus a cursor. A query is normalized
//! (bracket, colon, hyphen and space characters removed, then lower-cased)
//! and scored against each entry's normalized display line — extended by a
//! reversed-word-order variant of the raw line, so both "project first" and
//! "keyword first" queries score well. Matches are ranked by descending
//! score, ties broken by original list order.

use vstd::prelude::*;
use vstd::string::{StrSliceExecFns, StringExecFns};

use crate::commands::{spec_display, CommandEntry, CommandEntryView};
use crate::strings::push_char;

verus! {

/// The lower-case form of a character sequence. Unicode lower-casing takes
/// pages to state, and depends on the characters alone, so the result only
/// gets a name here; the trusted `to_lowercase` below ties it to std.
pub uninterp spec fn lower_of(s: Seq<char>) -> Seq<char>;

/// Relies on `str::to_lowercase`: the result depends on the characters
/// alone, and an empty string stays empty.
#[verifier::external_body]
fn to_lowercase(s: &str) -> (r: String)
    ensures
        r@ == lower_of(s@),
        s@.len() == 0 ==> r@.len() == 0,
{
    s.to_lowercase()
}

/// The score fuzzy matching gives `pattern` against `choice`: `Some` exactly
/// when the pattern fuzzily matches, higher is better. The scoring algorithm
/// takes pages to state and depends on the two strings alone, so the result
/// only gets a name here; the trusted `fuzzy_match_score` below ties it to
/// the fuzzy-matcher crate.
pub uninterp spec fn skim_score(choice: Seq<char>, pattern: Seq<char>) -> Option<i64>;

/// Relies on `SkimMatcherV2::fuzzy_match` of the fuzzy-matcher crate, with
/// `SkimMatcherV2::default()` settings: the score is a pure function of the
/// two strings.
#[verifier::external_body]
fn fuzzy_match_score(choice: &str, pattern: &str) -> (r: Option<i64>)
    ensures
        r == skim_score(choice@, pattern@),
{
    fuzzy_matcher::FuzzyMatcher::fuzzy_match(
        &fuzzy_matcher::skim::SkimMatcherV2::default(),
        choice,
        pattern,
    )
}

/// Whether a character has the White_Space property. The full table takes
/// pages to state, so it only gets a name here; the trusted
/// `is_whitespace_char` below ties it to std.
pub uninterp spec fn is_unicode_ws(c: char) -> bool;

/// Relies on `char::is_whitespace`: the White_Space property of one
/// character.
#[verifier::external_body]
fn is_whitespace_char(c: char) -> (r: bool)
    ensures
        r == is_unicode_ws(c),
{
    c.is_whitespace()
}

/// The characters normalization removes before scoring.
pub open spec fn spec_is_stripped(c: char) -> bool {
    c == '[' || c == ']' || c == ':' || c == '-' || c == ' '
}

/// A sequence with the stripped characters removed.
pub open spec fn spec_strip(s: Seq<char>) -> Seq<char> {
    s.filter(|c: char| !spec_is_stripped(c))
}

/// The fully normalized form: stripped, then lower-cased.
pub open spec fn spec_prep(s: Seq<char>) -> Seq<char> {
    lower_of(spec_strip(s))
}

proof fn lemma_strip_empty()
    ensures
        spec_strip(Seq::<char>::empty()) == Seq::<char>::empty(),
{
    reveal_with_fuel(Seq::filter, 1);
}

proof fn lemma_strip_push(s: Seq<char>, c: char)
    ensures
        spec_strip(s.push(c)) == (if spec_is_stripped(c) {
            spec_strip(s)
        } else {
            spec_strip(s).push(c)
        }),
{
    reveal_with_fuel(Seq::filter, 1);
    assert(s.push(c).drop_last() =~= s);
    assert(s.push(c).last() == c);
}

/// Removes the configured punctuation characters.
fn strip_chars(s: &str) -> (r: String)
    ensures
        r@ == spec_strip(s@),
{
    let n = s.unicode_len();
    let mut r = String::new();
    let mut i: usize = 0;
    while i < n
        invariant
            n == s@.len(),
            i <= n,
            r@ == spec_strip(s@.take(i as int)),
        decreases n - i,
    {
        let c = s.get_char(i);
        if !(c == '[' || c == ']' || c == ':' || c == '-' || c == ' ') {
            push_char(&mut r, c);
        }
        proof {
            assert(s@.take(i + 1) =~= s@.take(i as int).push(s@[i as int]));
            lemma_strip_push(s@.take(i as int), s@[i as int]);
        }
        i = i + 1;
    }
    proof {
        assert(s@.take(n as int) =~= s@);
    }
    r
}

/// The words of a line: maximal runs of non-whitespace characters, given the
/// run collected so far.
pub open spec fn spec_words_acc(s: Seq<char>, cur: Seq<char>) -> Seq<Seq<char>>
    decreases s.len(),
{
    if s.len() == 0 {
        if cur.len() == 0 {
            Seq::empty()
        } else {
            seq![cur]
        }
    } else if is_unicode_ws(s[0]) {
        if cur.len() == 0 {
            spec_words_acc(s.drop_first(), Seq::empty())
        } else {
            seq![cur] + spec_words_acc(s.drop_first(), Seq::empty())
        }
    } else {
        spec_words_acc(s.drop_first(), cur.push(s[0]))
    }
}

/// The words of a line, in order.
pub open spec fn spec_words(s: Seq<char>) -> Seq<Seq<char>> {
    spec_words_acc(s, Seq::empty())
}

/// Words rejoined with single spaces.
pub open spec fn spec_join_spaced(ws: Seq<Seq<char>>) -> Seq<char>
    decreases ws.len(),
{
    if ws.len() == 0 {
        Seq::empty()
    } else if ws.len() == 1 {
        ws[0]
    } else {
        spec_join_spaced(ws.drop_last()) + " "@ + ws.last()
    }
}

/// Splits a line into its whitespace-separated words.
fn split_words(s: &str) -> (r: Vec<String>)
    ensures
        r.deep_view() == spec_words(s@),
{
    let n = s.unicode_len();
    let mut words: Vec<String> = Vec::new();
    let mut cur = String::new();
    proof {
        assert(s@.skip(0) =~= s@);
        assert(Seq::<Seq<char>>::empty() + spec_words_acc(s@, Seq::<char>::empty())
            =~= spec_words_acc(s@, Seq::<char>::empty()));
    }
    let mut i: usize = 0;
    while i < n
        invariant
            n == s@.len(),
            i <= n,
            spec_words(s@) == words.deep_view() + spec_words_acc(s@.skip(i as int), cur@),
        decreases n - i,
    {
        proof {
            assert(s@.skip(i as int).drop_first() =~= s@.skip(i + 1));
            assert(s@.skip(i as int)[0] == s@[i as int]);
        }
        let ghost cv0 = cur@;
        let c = s.get_char(i);
        if is_whitespace_char(c) {
            if !cur.as_str().is_empty() {
                let ghost wv = words.deep_view();
                words.push(cur);
                cur = String::new();
                proof {
                    assert(words.deep_view() =~= wv.push(cv0));
                    assert(spec_words_acc(s@.skip(i as int), cv0) == seq![cv0]
                        + spec_words_acc(s@.skip(i + 1), Seq::<char>::empty()));
                    assert(wv + (seq![cv0] + spec_words_acc(s@.skip(i + 1), Seq::<char>::empty()))
                        =~= words.deep_view() + spec_words_acc(s@.skip(i + 1), cur@));
                }
            } else {
                proof {
                    assert(cv0 =~= Seq::<char>::empty());
                    assert(spec_words_acc(s@.skip(i as int), cv0) == spec_words_acc(
                        s@.skip(i + 1),
                        cur@,
                    ));
                }
            }
        } else {
            push_char(&mut cur, c);
            proof {
                assert(cur@ == cv0.push(s@[i as int]));
                assert(spec_words_acc(s@.skip(i as int), cv0) == spec_words_acc(
                    s@.skip(i + 1),
                    cur@,
                ));
            }
        }
        proof {
            assert(spec_words(s@) == words.deep_view() + spec_words_acc(s@.skip(i + 1), cur@));
        }
        i = i + 1;
    }
    proof {
        assert(s@.skip(n as int) =~= Seq::<char>::empty());
    }
    if !cur.as_str().is_empty() {
        let ghost wv = words.deep_view();
        let ghost cv = cur@;
        words.push(cur);
        proof {
            assert(words.deep_view() =~= wv.push(cv));
            assert(wv + seq![cv] =~= wv.push(cv));
        }
    } else {
        proof {
            assert(words.deep_view() + Seq::<Seq<char>>::empty() =~= words.deep_view());
        }
    }
    words
}

/// Joins the words in reverse order with single spaces.
fn join_reversed(words: &Vec<String>) -> (r: String)
    ensures
        r@ == spec_join_spaced(words.deep_view().reverse()),
{
    let n = words.len();
    let mut r = String::new();
    let mut i: usize = n;
    while i > 0
        invariant
            n == words@.len(),
            i <= n,
            r@ == spec_join_spaced(words.deep_view().skip(i as int).reverse()),
        decreases i,
    {
        i = i - 1;
        let ghost rl = words.deep_view().skip(i as int).reverse();
        proof {
            assert(rl.len() == n - i);
            assert(rl.last() == words.deep_view().skip(i as int)[0]);
            assert(words.deep_view().skip(i as int)[0] == words.deep_view()[i as int]);
            assert(rl.drop_last() =~= words.deep_view().skip(i + 1).reverse());
        }
        if i + 1 == n {
            r = words[i].clone();
            proof {
                assert(rl =~= seq![words.deep_view()[i as int]]);
            }
        } else {
            r = r.concat(" ").concat(words[i].as_str());
        }
    }
    proof {
        assert(words.deep_view().skip(0) =~= words.deep_view());
    }
    r
}

/// The string one entry is scored against: the normalized display line,
/// a space, then the reversed-word-order variant of the raw display line.
pub open spec fn spec_match_target(display: Seq<char>) -> Seq<char> {
    spec_prep(display) + " "@ + spec_join_spaced(spec_words(display).reverse())
}

/// Builds the scoring target for one display line.
fn match_target(display: &str) -> (r: String)
    ensures
        r@ == spec_match_target(display@),
{
    let stripped = strip_chars(display);
    let prepped = to_lowercase(stripped.as_str());
    let words = split_words(display);
    let reversed = join_reversed(&words);
    prepped.concat(" ").concat(reversed.as_str())
}

/// Ranked insertion: a candidate goes in front of the first kept pair whose
/// score is strictly lower, so the list stays sorted by descending score and
/// equal scores keep their arrival order.
pub open spec fn spec_rank_insert(r: Seq<(i64, int)>, sc: i64, idx: int) -> Seq<(i64, int)>
    decreases r.len(),
{
    if r.len() == 0 {
        seq![(sc, idx)]
    } else if r[0].0 < sc {
        seq![(sc, idx)] + r
    } else {
        seq![r[0]] + spec_rank_insert(r.drop_first(), sc, idx)
    }
}

/// The ranking of the first `k` entries of `all` against `pattern`: each
/// matching entry's (score, index) pair, inserted in arrival order.
pub open spec fn spec_rank(all: Seq<CommandEntryView>, pattern: Seq<char>, k: int) -> Seq<
    (i64, int),
>
    decreases k,
{
    if k <= 0 {
        Seq::empty()
    } else {
        let prev = spec_rank(all, pattern, k - 1);
        match skim_score(spec_match_target(spec_display(all[k - 1])), pattern) {
            Some(sc) => spec_rank_insert(prev, sc, k - 1),
            None => prev,
        }
    }
}

/// Ranked insertion is insertion at the first position whose score is
/// strictly lower.
proof fn lemma_rank_insert_at(r: Seq<(i64, int)>, sc: i64, idx: int, p: int)
    requires
        0 <= p <= r.len(),
        forall|i: int| 0 <= i < p ==> !(#[trigger] r[i].0 < sc),
        p < r.len() ==> r[p].0 < sc,
    ensures
        spec_rank_insert(r, sc, idx) =~= r.insert(p, (sc, idx)),
    decreases r.len(),
{
    if r.len() == 0 {
    } else if r[0].0 < sc {
        assert(p == 0);
    } else {
        assert(p >= 1);
        lemma_rank_insert_at(r.drop_first(), sc, idx, p - 1);
        assert forall|i: int|
            0 <= i < r.insert(p, (sc, idx)).len() implies (seq![r[0]] + spec_rank_insert(
            r.drop_first(),
            sc,
            idx,
        ))[i] == r.insert(p, (sc, idx))[i] by {
            r.insert_ensures(p, (sc, idx));
            r.drop_first().insert_ensures(p - 1, (sc, idx));
            if i > 0 {
                assert((seq![r[0]] + spec_rank_insert(r.drop_first(), sc, idx))[i]
                    == spec_rank_insert(r.drop_first(), sc, idx)[i - 1]);
                assert(spec_rank_insert(r.drop_first(), sc, idx)[i - 1] == r.drop_first().insert(
                    p - 1,
                    (sc, idx),
                )[i - 1]);
            }
        }
    }
}

/// The ranking's order: strictly descending score, equal scores in
/// ascending original position.
pub open spec fn spec_rank_sorted(r: Seq<(i64, int)>) -> bool {
    forall|i: int, j: int|
        0 <= i < j < r.len() ==> ((#[trigger] r[i]).0 > (#[trigger] r[j]).0 || (r[i].0 == r[j].0
            && r[i].1 < r[j].1))
}

/// Ranked insertion keeps the order and adds exactly the new pair,
/// provided the new pair arrives after every kept one.
proof fn lemma_rank_insert_props(r: Seq<(i64, int)>, sc: i64, idx: int)
    requires
        spec_rank_sorted(r),
        forall|t: int| 0 <= t < r.len() ==> (#[trigger] r[t]).1 < idx,
    ensures
        spec_rank_sorted(spec_rank_insert(r, sc, idx)),
        spec_rank_insert(r, sc, idx).contains((sc, idx)),
        forall|x: (i64, int)|
            #[trigger] r.contains(x) ==> spec_rank_insert(r, sc, idx).contains(x),
        forall|x: (i64, int)|
            #[trigger] spec_rank_insert(r, sc, idx).contains(x) ==> (x == (sc, idx) || r.contains(
                x,
            )),
    decreases r.len(),
{
    let out = spec_rank_insert(r, sc, idx);
    if r.len() == 0 {
        assert(out[0] == (sc, idx));
        assert forall|x: (i64, int)| #[trigger] out.contains(x) implies (x == (sc, idx)
            || r.contains(x)) by {
            let i = choose|i: int| 0 <= i < out.len() && out[i] == x;
        }
    } else if r[0].0 < sc {
        assert(out[0] == (sc, idx));
        assert forall|i: int, j: int|
            0 <= i < j < out.len() implies ((#[trigger] out[i]).0 > (#[trigger] out[j]).0 || (
        out[i].0 == out[j].0 && out[i].1 < out[j].1)) by {
            if i == 0 {
                assert(out[j] == r[j - 1]);
                if j > 1 {
                    assert(r[0].0 > r[j - 1].0 || (r[0].0 == r[j - 1].0 && r[0].1 < r[j - 1].1));
                }
            } else {
                assert(out[i] == r[i - 1] && out[j] == r[j - 1]);
            }
        }
        assert forall|x: (i64, int)| #[trigger] r.contains(x) implies out.contains(x) by {
            let i = choose|i: int| 0 <= i < r.len() && r[i] == x;
            assert(out[i + 1] == x);
        }
        assert forall|x: (i64, int)| #[trigger] out.contains(x) implies (x == (sc, idx)
            || r.contains(x)) by {
            let i = choose|i: int| 0 <= i < out.len() && out[i] == x;
            if i > 0 {
                assert(r[i - 1] == x);
            }
        }
    } else {
        assert forall|i: int, j: int|
            0 <= i < j < r.drop_first().len() implies ((#[trigger] r.drop_first()[i]).0 > (
        #[trigger] r.drop_first()[j]).0 || (r.drop_first()[i].0 == r.drop_first()[j].0
            && r.drop_first()[i].1 < r.drop_first()[j].1)) by {
            assert(r.drop_first()[i] == r[i + 1] && r.drop_first()[j] == r[j + 1]);
        }
        assert forall|t: int| 0 <= t < r.drop_first().len() implies (
        #[trigger] r.drop_first()[t]).1 < idx by {
            assert(r.drop_first()[t] == r[t + 1]);
        }
        lemma_rank_insert_props(r.drop_first(), sc, idx);
        let rest = spec_rank_insert(r.drop_first(), sc, idx);
        assert(rest.contains((sc, idx)));
        let w = choose|w: int| 0 <= w < rest.len() && rest[w] == (sc, idx);
        assert(out[w + 1] == (sc, idx));
        assert(out.contains((sc, idx)));
        assert forall|x: (i64, int)| #[trigger] r.contains(x) implies out.contains(x) by {
            let i = choose|i: int| 0 <= i < r.len() && r[i] == x;
            if i == 0 {
                assert(out[0] == x);
            } else {
                assert(r.drop_first()[i - 1] == x);
                assert(r.drop_first().contains(x));
                assert(rest.contains(x));
                let j = choose|j: int| 0 <= j < rest.len() && rest[j] == x;
                assert(out[j + 1] == x);
            }
        }
        assert forall|x: (i64, int)| #[trigger] out.contains(x) implies (x == (sc, idx)
            || r.contains(x)) by {
            let i = choose|i: int| 0 <= i < out.len() && out[i] == x;
            if i == 0 {
                assert(r[0] == x);
            } else {
                assert(rest[i - 1] == x);
                assert(rest.contains(x));
                if x != (sc, idx) {
                    assert(r.drop_first().contains(x));
                    let t = choose|t: int| 0 <= t < r.drop_first().len() && r.drop_first()[t]
                        == x;
                    assert(r[t + 1] == x);
                }
            }
        }
        assert forall|i: int, j: int|
            0 <= i < j < out.len() implies ((#[trigger] out[i]).0 > (#[trigger] out[j]).0 || (
        out[i].0 == out[j].0 && out[i].1 < out[j].1)) by {
            if i == 0 {
                assert(out[j] == rest[j - 1]);
                assert(rest.contains(rest[j - 1]));
                if rest[j - 1] == (sc, idx) {
                    assert(r[0].0 >= sc);
                    assert(r[0].1 < idx);
                } else {
                    assert(r.drop_first().contains(rest[j - 1]));
                    let t = choose|t: int| 0 <= t < r.drop_first().len() && r.drop_first()[t]
                        == rest[j - 1];
                    assert(r[t + 1] == rest[j - 1]);
                    assert(r[0].0 > r[t + 1].0 || (r[0].0 == r[t + 1].0 && r[0].1 < r[t + 1].1));
                }
            } else {
                assert(out[i] == rest[i - 1] && out[j] == rest[j - 1]);
            }
        }
    }
}

/// Every index a ranking holds lies below the bound of entries ranked.
proof fn lemma_rank_bounds(all: Seq<CommandEntryView>, pattern: Seq<char>, k: int)
    ensures
        forall|t: int|
            0 <= t < spec_rank(all, pattern, k).len() ==> 0 <= (#[trigger] spec_rank(
                all,
                pattern,
                k,
            )[t]).1 < k,
        spec_rank_sorted(spec_rank(all, pattern, k)),
    decreases k,
{
    if k > 0 {
        lemma_rank_bounds(all, pattern, k - 1);
        let prev = spec_rank(all, pattern, k - 1);
        match skim_score(spec_match_target(spec_display(all[k - 1])), pattern) {
            Some(sc) => {
                lemma_rank_insert_props(prev, sc, k - 1);
                let out = spec_rank_insert(prev, sc, k - 1);
                assert forall|t: int| 0 <= t < out.len() implies 0 <= (#[trigger] out[t]).1
                    < k by {
                    assert(out.contains(out[t]));
                    if out[t] != (sc, k - 1) {
                        assert(prev.contains(out[t]));
                        let u = choose|u: int| 0 <= u < prev.len() && prev[u] == out[t];
                    }
                }
            },
            None => {},
        }
    }
}

/// Law: the ranking is sorted by strictly descending score, and entries with
/// equal scores keep their original list order.
pub proof fn lemma_rank_ordering(all: Seq<CommandEntryView>, pattern: Seq<char>, k: int)
    ensures
        spec_rank_sorted(spec_rank(all, pattern, k)),
{
    lemma_rank_bounds(all, pattern, k);
}

/// Law: the ranking holds exactly one pair per matching entry — the entry's
/// position paired with its score — and nothing for entries the pattern does
/// not match.
pub proof fn lemma_rank_membership(all: Seq<CommandEntryView>, pattern: Seq<char>, k: int)
    ensures
        forall|x: (i64, int)|
            #[trigger] spec_rank(all, pattern, k).contains(x) <==> (0 <= x.1 < k && skim_score(
                spec_match_target(spec_display(all[x.1])),
                pattern,
            ) == Some(x.0)),
    decreases k,
{
    if k <= 0 {
        assert forall|x: (i64, int)| !(#[trigger] spec_rank(all, pattern, k).contains(x)) by {
            if spec_rank(all, pattern, k).contains(x) {
                let i = choose|i: int|
                    0 <= i < spec_rank(all, pattern, k).len() && spec_rank(all, pattern, k)[i]
                        == x;
            }
        }
    } else {
        lemma_rank_membership(all, pattern, k - 1);
        lemma_rank_bounds(all, pattern, k - 1);
        let prev = spec_rank(all, pattern, k - 1);
        let out = spec_rank(all, pattern, k);
        match skim_score(spec_match_target(spec_display(all[k - 1])), pattern) {
            Some(sc) => {
                lemma_rank_insert_props(prev, sc, k - 1);
                assert(out == spec_rank_insert(prev, sc, k - 1));
                assert forall|x: (i64, int)| true implies (#[trigger] out.contains(x) <==> (0
                    <= x.1 < k && skim_score(spec_match_target(spec_display(all[x.1])), pattern)
                    == Some(x.0))) by {
                    if out.contains(x) {
                        if x == (sc, k - 1) {
                            assert(x.1 == k - 1 && x.0 == sc);
                            assert(skim_score(
                                spec_match_target(spec_display(all[x.1])),
                                pattern,
                            ) == Some(x.0));
                        } else {
                            assert(prev.contains(x));
                            assert(0 <= x.1 < k - 1);
                        }
                    }
                    if 0 <= x.1 < k && skim_score(
                        spec_match_target(spec_display(all[x.1])),
                        pattern,
                    ) == Some(x.0) {
                        if x.1 == k - 1 {
                            assert(Some(x.0) == Some(sc));
                            assert(x.0 == sc);
                            assert(x == (sc, k - 1));
                            assert(spec_rank_insert(prev, sc, k - 1).contains(x));
                        } else {
                            assert(prev.contains(x));
                            assert(spec_rank_insert(prev, sc, k - 1).contains(x));
                        }
                    }
                }
            },
            None => {
                assert(out == prev);
                assert forall|x: (i64, int)| true implies (#[trigger] out.contains(x) <==> (0
                    <= x.1 < k && skim_score(spec_match_target(spec_display(all[x.1])), pattern)
                    == Some(x.0))) by {
                    if 0 <= x.1 < k && skim_score(
                        spec_match_target(spec_display(all[x.1])),
                        pattern,
                    ) == Some(x.0) {
                        assert(x.1 != k - 1);
                        assert(prev.contains(x));
                    }
                }
            },
        }
    }
}

/// Copies a command list entry by entry.
fn clone_entries(v: &Vec<CommandEntry>) -> (r: Vec<CommandEntry>)
    ensures
        r@ =~= v@,
{
    let n = v.len();
    let mut r: Vec<CommandEntry> = Vec::new();
    while r.len() < n
        invariant
            n == v@.len(),
            r@.len() <= n,
            r@ =~= v@.take(r@.len() as int),
        decreases n - r@.len(),
    {
        let i = r.len();
        r.push(v[i].duplicate());
        proof {
            assert(r@ =~= v@.take(i + 1));
        }
    }
    proof {
        assert(v@.take(n as int) =~= v@);
    }
    r
}

/// The interactive selection state: the immutable session snapshot, the
/// filtered and ranked view, and the cursor.
pub struct Selector {
    pub all_commands: Vec<CommandEntry>,
    pub display_commands: Vec<CommandEntry>,
    pub cursor: Option<usize>,
}

impl Selector {
    /// The standing invariant: the cursor is absent exactly when the view is
    /// empty, and otherwise a valid index into it.
    pub open spec fn wf(self) -> bool {
        &&& (self.cursor is None <==> self.display_commands@.len() == 0)
        &&& (self.cursor matches Some(i) ==> i < self.display_commands@.len())
    }

    /// The display list a ranking maps to.
    pub open spec fn spec_ranked_display(
        all: Seq<CommandEntry>,
        ranked: Seq<(i64, int)>,
    ) -> Seq<CommandEntry> {
        ranked.map(|t: int, p: (i64, int)| all[p.1])
    }

    /// A fresh selector showing the whole list, cursor on the first entry
    /// when there is one.
    pub fn new(all_commands: Vec<CommandEntry>) -> (r: Selector)
        ensures
            r.wf(),
            r.all_commands@ == all_commands@,
            r.display_commands@ =~= all_commands@,
            r.cursor == (if all_commands@.len() == 0 {
                Option::<usize>::None
            } else {
                Some(0usize)
            }),
    {
        let display_commands = clone_entries(&all_commands);
        let cursor: Option<usize> = if display_commands.len() == 0 {
            None
        } else {
            Some(0)
        };
        Selector { all_commands, display_commands, cursor }
    }

    /// Re-filters and re-ranks the view against a query. A query that
    /// normalizes to nothing — the empty query above all — restores the full
    /// list in its original order; anything else keeps exactly the matching
    /// entries, sorted by descending score, ties in original order. The
    /// cursor lands on the first entry, or clears when nothing matches.
    pub fn set_query(&mut self, q: &str)
        ensures
            final(self).wf(),
            final(self).all_commands@ == old(self).all_commands@,
            final(self).cursor == (if final(self).display_commands@.len() == 0 {
                Option::<usize>::None
            } else {
                Some(0usize)
            }),
            lower_of(spec_strip(q@)).len() == 0 ==> final(self).display_commands@ =~= old(
                self,
            ).all_commands@,
            q@.len() == 0 ==> final(self).display_commands@ =~= old(self).all_commands@,
            lower_of(spec_strip(q@)).len() != 0 ==> final(self).display_commands@
                =~= Self::spec_ranked_display(
                old(self).all_commands@,
                spec_rank(
                    old(self).all_commands.deep_view(),
                    lower_of(spec_strip(q@)),
                    old(self).all_commands@.len() as int,
                ),
            ),
    {
        let stripped = strip_chars(q);
        let pattern = to_lowercase(stripped.as_str());
        proof {
            if q@.len() == 0 {
                assert(q@ =~= Seq::<char>::empty());
                lemma_strip_empty();
                assert(spec_strip(q@) == Seq::<char>::empty());
            }
        }
        if pattern.as_str().is_empty() {
            self.display_commands = clone_entries(&self.all_commands);
            self.cursor = if self.display_commands.len() == 0 {
                None
            } else {
                Some(0)
            };
            return ;
        }
        let ghost allv = self.all_commands.deep_view();
        let ghost pv = pattern@;
        let n = self.all_commands.len();
        let mut ranked: Vec<(i64, usize)> = Vec::new();
        let mut k: usize = 0;
        while k < n
            invariant
                n == self.all_commands@.len(),
                allv == self.all_commands.deep_view(),
                pv == pattern@,
                k <= n,
                ranked@.map(|t: int, p: (i64, usize)| (p.0, p.1 as int)) =~= spec_rank(
                    allv,
                    pv,
                    k as int,
                ),
                forall|t: int| 0 <= t < ranked@.len() ==> (#[trigger] ranked@[t]).1 < n,
            decreases n - k,
        {
            let ghost rv = ranked@.map(|t: int, p: (i64, usize)| (p.0, p.1 as int));
            let display = self.all_commands[k].display_string();
            let target = match_target(display.as_str());
            proof {
                assert(allv[k as int] == self.all_commands@[k as int]@);
            }
            match fuzzy_match_score(target.as_str(), pattern.as_str()) {
                Some(sc) => {
                    let m = ranked.len();
                    let mut pos: usize = 0;
                    while pos < m && !(ranked[pos].0 < sc)
                        invariant
                            m == ranked@.len(),
                            pos <= m,
                            forall|t: int| 0 <= t < pos ==> !((#[trigger] ranked@[t]).0 < sc),
                        decreases m - pos,
                    {
                        pos = pos + 1;
                    }
                    let ghost rold = ranked@;
                    ranked.insert(pos, (sc, k));
                    proof {
                        assert forall|t: int| 0 <= t < pos implies !((#[trigger] rv[t]).0 < sc) by {
                            assert(rv[t].0 == rold[t].0);
                        }
                        if pos < m {
                            assert(rv[pos as int].0 == rold[pos as int].0);
                        }
                        lemma_rank_insert_at(rv, sc, k as int, pos as int);
                        rv.insert_ensures(pos as int, (sc, k as int));
                        rold.insert_ensures(pos as int, (sc, k));
                        assert(ranked@ == rold.insert(pos as int, (sc, k)));
                        assert(ranked@.map(|t: int, p: (i64, usize)| (p.0, p.1 as int))
                            =~= spec_rank(allv, pv, k + 1)) by {
                            assert(spec_rank(allv, pv, k + 1) =~= rv.insert(
                                pos as int,
                                (sc, k as int),
                            ));
                            assert forall|t: int| 0 <= t < ranked@.len() implies (
                            ranked@.map(|t2: int, p: (i64, usize)| (p.0, p.1 as int)))[t]
                                == rv.insert(pos as int, (sc, k as int))[t] by {
                                if t < pos {
                                    assert(ranked@[t] == rold[t]);
                                    assert(rv.insert(pos as int, (sc, k as int))[t] == rv[t]);
                                } else if t == pos {
                                    assert(ranked@[t] == (sc, k));
                                    assert(rv.insert(pos as int, (sc, k as int))[t] == (
                                        sc,
                                        k as int,
                                    ));
                                } else {
                                    assert(ranked@[t] == rold[t - 1]);
                                    assert(rv.insert(pos as int, (sc, k as int))[t] == rv[t - 1]);
                                }
                            }
                        }
                        assert forall|t: int| 0 <= t < ranked@.len() implies (
                        #[trigger] ranked@[t]).1 < n by {
                            if t < pos {
                                assert(ranked@[t] == rold[t]);
                            } else if t > pos {
                                assert(ranked@[t] == rold[t - 1]);
                            }
                        }
                    }
                },
                None => {},
            }
            k = k + 1;
        }
        let nr = ranked.len();
        let mut display: Vec<CommandEntry> = Vec::new();
        let ghost ranked_final = ranked@.map(|t: int, p: (i64, usize)| (p.0, p.1 as int));
        while display.len() < nr
            invariant
                nr == ranked@.len(),
                n == self.all_commands@.len(),
                ranked_final == ranked@.map(|t: int, p: (i64, usize)| (p.0, p.1 as int)),
                forall|t: int| 0 <= t < ranked@.len() ==> (#[trigger] ranked@[t]).1 < n,
                display@.len() <= nr,
                display@ =~= Self::spec_ranked_display(
                    self.all_commands@,
                    ranked_final.take(display@.len() as int),
                ),
            decreases nr - display@.len(),
        {
            let t = display.len();
            let idx = ranked[t].1;
            display.push(self.all_commands[idx].duplicate());
            proof {
                assert(ranked_final[t as int].1 == ranked@[t as int].1 as int);
                assert(display@ =~= Self::spec_ranked_display(
                    self.all_commands@,
                    ranked_final.take(t + 1),
                ));
            }
        }
        proof {
            assert(ranked_final.take(nr as int) =~= ranked_final);
        }
        self.display_commands = display;
        self.cursor = if self.display_commands.len() == 0 {
            None
        } else {
            Some(0)
        };
    }

    /// Moves the cursor one entry down, wrapping from the last entry to the
    /// first. Does nothing when the view is empty.
    pub fn next(&mut self)
        requires
            old(self).wf(),
        ensures
            final(self).wf(),
            final(self).all_commands@ == old(self).all_commands@,
            final(self).display_commands@ == old(self).display_commands@,
            match old(self).cursor {
                None => final(self).cursor is None,
                Some(i) => final(self).cursor == Some(
                    if i + 1 == old(self).display_commands@.len() {
                        0usize
                    } else {
                        (i + 1) as usize
                    },
                ),
            },
    {
        match self.cursor {
            None => {},
            Some(i) => {
                let len = self.display_commands.len();
                self.cursor = if i + 1 == len {
                    Some(0)
                } else {
                    Some(i + 1)
                };
            },
        }
    }

    /// Moves the cursor one entry up, wrapping from the first entry to the
    /// last. Does nothing when the view is empty.
    pub fn previous(&mut self)
        requires
            old(self).wf(),
        ensures
            final(self).wf(),
            final(self).all_commands@ == old(self).all_commands@,
            final(self).display_commands@ == old(self).display_commands@,
            match old(self).cursor {
                None => final(self).cursor is None,
                Some(i) => final(self).cursor == Some(
                    if i == 0 {
                        (old(self).display_commands@.len() - 1) as usize
                    } else {
                        (i - 1) as usize
                    },
                ),
            },
    {
        match self.cursor {
            None => {},
            Some(i) => {
                if i == 0 {
                    let len = self.display_commands.len();
                    self.cursor = Some(len - 1);
                } else {
                    self.cursor = Some(i - 1);
                }
            },
        }
    }

    /// The entry under the cursor, to hand to the external runner; nothing
    /// when the view is empty.
    pub fn commit(&self) -> (r: Option<&CommandEntry>)
        requires
            self.wf(),
        ensures
            match self.cursor {
                None => r is None,
                Some(i) => r matches Some(e) && *e == self.display_commands@[i as int],
            },
    {
        match self.cursor {
            None => None,
            Some(i) => Some(&self.display_commands[i]),
        }
    }
}

} // verus!
