//! The classifier's fixed text patterns, with exact specifications:
//! the terminal identifier (`Term: ` followed by a word token), the savings
//! sub-account number (the last capital-plus-digits token on the line of a
//! fixed marker), and the `#`-prefixed tag tokens of the tag field.
//!
//! Word characters are ASCII letters, digits and `_`; whitespace is the
//! ASCII kind.

use vstd::prelude::*;

use crate::strutil::{
    digit_char, is_digit_char, is_upper_char, is_word_char, lemma_lex_le_total, lemma_lex_le_trans,
    lex_le, match_at, pattern_at, str_le, substring_copy, upper_char, word_char,
};

verus! {

use vstd::string::StrSliceExecFns;
use vstd::string::StringExecFns;

/// ASCII whitespace, the class the token trimming removes.
pub open spec fn is_space_char(c: char) -> bool {
    c == ' ' || c == '\t' || c == '\n' || c == '\r' || c == '\u{b}' || c == '\u{c}'
}

pub fn space_char(c: char) -> (r: bool)
    ensures
        r == is_space_char(c),
{
    c == ' ' || c == '\t' || c == '\n' || c == '\r' || c == '\u{b}' || c == '\u{c}'
}

/// First position at or after `i` that ends the run of word characters.
pub open spec fn word_run_end(s: Seq<char>, i: int) -> int
    decreases s.len() - i,
{
    if i < 0 || i >= s.len() {
        i
    } else if !is_word_char(s[i]) {
        i
    } else {
        word_run_end(s, i + 1)
    }
}

/// First position at or after `i` that ends the run of digits.
pub open spec fn digit_run_end(s: Seq<char>, i: int) -> int
    decreases s.len() - i,
{
    if i < 0 || i >= s.len() {
        i
    } else if !is_digit_char(s[i]) {
        i
    } else {
        digit_run_end(s, i + 1)
    }
}

/// Position of the first newline at or after `i`, or the end of `s`.
pub open spec fn line_end(s: Seq<char>, i: int) -> int
    decreases s.len() - i,
{
    if i < 0 || i >= s.len() {
        s.len() as int
    } else if s[i] == '\n' {
        i
    } else {
        line_end(s, i + 1)
    }
}

/// End of the maximal word-character run starting at `from`.
pub fn word_run(s: &str, from: usize) -> (r: usize)
    requires
        from <= s@.len(),
    ensures
        r as int == word_run_end(s@, from as int),
        from <= r <= s@.len(),
    decreases s@.len() - from,
{
    let n = s.unicode_len();
    let mut j = from;
    while j < n && word_char(s.get_char(j))
        invariant
            from <= j <= n == s@.len(),
            word_run_end(s@, from as int) == word_run_end(s@, j as int),
        decreases n - j,
    {
        j += 1;
    }
    j
}

/// End of the maximal digit run starting at `from`.
pub fn digit_run(s: &str, from: usize) -> (r: usize)
    requires
        from <= s@.len(),
    ensures
        r as int == digit_run_end(s@, from as int),
        from <= r <= s@.len(),
{
    let n = s.unicode_len();
    let mut j = from;
    while j < n && digit_char(s.get_char(j))
        invariant
            from <= j <= n == s@.len(),
            digit_run_end(s@, from as int) == digit_run_end(s@, j as int),
        decreases n - j,
    {
        j += 1;
    }
    j
}

/// Position of the first newline at or after `from`, or the end of `s`.
pub fn find_line_end(s: &str, from: usize) -> (r: usize)
    requires
        from <= s@.len(),
    ensures
        r as int == line_end(s@, from as int),
        from <= r <= s@.len(),
{
    let n = s.unicode_len();
    let mut j = from;
    while j < n && s.get_char(j) != '\n'
        invariant
            from <= j <= n == s@.len(),
            line_end(s@, from as int) == line_end(s@, j as int),
        decreases n - j,
    {
        j += 1;
    }
    j
}

/// The terminal token at or after position `i`: at the first position where
/// the marker `"Term: "` is followed by a word character, the maximal word
/// run after the marker.
pub open spec fn term_token_from(s: Seq<char>, i: int) -> Option<Seq<char>>
    decreases s.len() - i,
{
    if i < 0 || i + 7 > s.len() {
        None
    } else if match_at(s, "Term: "@, i) && is_word_char(s[i + 6]) {
        Some(s.subrange(i + 6, word_run_end(s, i + 6)))
    } else {
        term_token_from(s, i + 1)
    }
}

/// The terminal token of a description, if any.
pub open spec fn term_token(s: Seq<char>) -> Option<Seq<char>> {
    term_token_from(s, 0)
}

/// Extract the terminal identifier from a description: the first occurrence
/// of `"Term: "` followed by a word token yields that token.
pub fn find_term_token(s: &str) -> (r: Option<String>)
    ensures
        r is Some <==> term_token(s@) is Some,
        r is Some ==> r->0@ == term_token(s@)->0,
{
    proof {
        reveal_strlit("Term: ");
    }
    let n = s.unicode_len();
    let mut i: usize = 0;
    while i < n && n - i >= 7
        invariant
            i <= n == s@.len(),
            "Term: "@.len() == 6,
            term_token(s@) == term_token_from(s@, i as int),
        decreases n - i,
    {
        if pattern_at(s, i, "Term: ") {
            let c = s.get_char(i + 6);
            if word_char(c) {
                let e = word_run(s, i + 6);
                let token = substring_copy(s, i + 6, e);
                return Some(token);
            }
        }
        i += 1;
    }
    None
}

/// Start of the last token `[A-Z]` followed by a digit within `[p, e)`.
pub open spec fn last_capture_start(s: Seq<char>, p: int, e: int) -> Option<int>
    decreases e - p,
{
    if e <= p || e < 1 {
        None
    } else if is_upper_char(s[e - 1]) && e < s.len() && is_digit_char(s[e]) {
        Some(e - 1)
    } else {
        last_capture_start(s, p, e - 1)
    }
}

/// The savings sub-account token at or after position `i`: at the first
/// occurrence of the marker whose line still holds a capital letter followed
/// by digits, the last such token on that line, greedily extended through
/// its digits.
pub open spec fn savings_token_from(s: Seq<char>, i: int) -> Option<Seq<char>>
    decreases s.len() - i,
{
    if i < 0 || i + 20 > s.len() {
        None
    } else if match_at(s, "Oranje spaarrekening"@, i) {
        match last_capture_start(s, i + 20, line_end(s, i + 20)) {
            Some(j) => Some(s.subrange(j, digit_run_end(s, j + 1))),
            None => savings_token_from(s, i + 1),
        }
    } else {
        savings_token_from(s, i + 1)
    }
}

/// The savings sub-account token of a description, if any.
pub open spec fn savings_token(s: Seq<char>) -> Option<Seq<char>> {
    savings_token_from(s, 0)
}

/// Find the start of the last capital-plus-digit token within `[p, e)`.
fn find_last_capture(s: &str, p: usize, e: usize) -> (r: Option<usize>)
    requires
        p <= e <= s@.len(),
    ensures
        r is Some <==> last_capture_start(s@, p as int, e as int) is Some,
        r is Some ==> r->0 as int == last_capture_start(s@, p as int, e as int)->0,
        r is Some ==> p <= r->0 && r->0 + 1 < s@.len(),
{
    let n = s.unicode_len();
    let mut j = e;
    while j > p
        invariant
            p <= j <= e <= n == s@.len(),
            last_capture_start(s@, p as int, e as int) == last_capture_start(
                s@,
                p as int,
                j as int,
            ),
        decreases j,
    {
        let c = s.get_char(j - 1);
        if upper_char(c) && j < n && digit_char(s.get_char(j)) {
            return Some(j - 1);
        }
        j -= 1;
    }
    None
}

/// Extract the savings sub-account number from a description.
pub fn find_savings_token(s: &str) -> (r: Option<String>)
    ensures
        r is Some <==> savings_token(s@) is Some,
        r is Some ==> r->0@ == savings_token(s@)->0,
{
    proof {
        reveal_strlit("Oranje spaarrekening");
    }
    let n = s.unicode_len();
    let mut i: usize = 0;
    while i < n && n - i >= 20
        invariant
            i <= n == s@.len(),
            "Oranje spaarrekening"@.len() == 20,
            savings_token(s@) == savings_token_from(s@, i as int),
        decreases n - i,
    {
        if pattern_at(s, i, "Oranje spaarrekening") {
            let le = find_line_end(s, i + 20);
            match find_last_capture(s, i + 20, le) {
                Some(j) => {
                    let e = digit_run(s, j + 1);
                    let token = substring_copy(s, j, e);
                    return Some(token);
                },
                None => {},
            }
        }
        i += 1;
    }
    None
}

/// A word boundary sits at position `e` of `s`.
pub open spec fn tag_boundary(s: Seq<char>, e: int) -> bool {
    &&& 0 < e <= s.len()
    &&& if e == s.len() {
        is_word_char(s[e - 1])
    } else {
        is_word_char(s[e - 1]) != is_word_char(s[e])
    }
}

/// The first word boundary at or after position `e`.
pub open spec fn first_boundary(s: Seq<char>, e: int) -> Option<int>
    decreases s.len() + 1 - e,
{
    if e < 1 || e > s.len() {
        None
    } else if tag_boundary(s, e) {
        Some(e)
    } else {
        first_boundary(s, e + 1)
    }
}

/// Leading and trailing ASCII whitespace removed.
pub open spec fn spec_trim(s: Seq<char>) -> Seq<char> {
    let a = trim_start_at(s, 0);
    let b = trim_end_at(s, s.len() as int);
    if a < b {
        s.subrange(a, b)
    } else {
        Seq::empty()
    }
}

/// First position at or after `i` holding a non-space character.
pub open spec fn trim_start_at(s: Seq<char>, i: int) -> int
    decreases s.len() - i,
{
    if i < 0 || i >= s.len() {
        s.len() as int
    } else if !is_space_char(s[i]) {
        i
    } else {
        trim_start_at(s, i + 1)
    }
}

/// Last position at or before `e` ending in a non-space character.
pub open spec fn trim_end_at(s: Seq<char>, e: int) -> int
    decreases e,
{
    if e <= 0 || e > s.len() {
        0
    } else if !is_space_char(s[e - 1]) {
        e
    } else {
        trim_end_at(s, e - 1)
    }
}

/// Copy `s` without leading and trailing ASCII whitespace.
pub fn trim_copy(s: &str) -> (r: String)
    ensures
        r@ == spec_trim(s@),
{
    let n = s.unicode_len();
    let mut a: usize = 0;
    while a < n && space_char(s.get_char(a))
        invariant
            a <= n == s@.len(),
            trim_start_at(s@, 0) == trim_start_at(s@, a as int),
        decreases n - a,
    {
        a += 1;
    }
    let mut b: usize = n;
    while b > 0 && space_char(s.get_char(b - 1))
        invariant
            b <= n == s@.len(),
            trim_end_at(s@, n as int) == trim_end_at(s@, b as int),
        decreases b,
    {
        b -= 1;
    }
    if a < b {
        substring_copy(s, a, b)
    } else {
        String::new()
    }
}

/// The `#`-prefixed tokens of `s` from position `i` on, in order. At each
/// `#`, the match runs to the first word boundary after at least one more
/// character, and is trimmed; scanning resumes at the match end.
pub open spec fn tag_tokens_from(s: Seq<char>, i: int) -> Seq<Seq<char>>
    decreases s.len() - i,
{
    if i < 0 || i >= s.len() {
        Seq::empty()
    } else if s[i] == '#' {
        match first_boundary(s, i + 2) {
            Some(e) => if i < e && e <= s.len() {
                seq![spec_trim(s.subrange(i, e))] + tag_tokens_from(s, e)
            } else {
                tag_tokens_from(s, i + 1)
            },
            None => tag_tokens_from(s, i + 1),
        }
    } else {
        tag_tokens_from(s, i + 1)
    }
}

/// Keep the first occurrence of each distinct element.
pub open spec fn dedup_first(ts: Seq<Seq<char>>) -> Seq<Seq<char>>
    decreases ts.len(),
{
    if ts.len() == 0 {
        Seq::empty()
    } else {
        let rest = dedup_first(ts.drop_last());
        if rest.contains(ts.last()) {
            rest
        } else {
            rest.push(ts.last())
        }
    }
}

/// The token list is in non-decreasing lexicographic order.
pub open spec fn tokens_sorted(ts: Seq<Seq<char>>) -> bool {
    forall|i: int, j: int| 0 <= i < j < ts.len() ==> lex_le(#[trigger] ts[i], #[trigger] ts[j])
}

/// `x` inserted in front of the first element it is not above.
pub open spec fn insert_sorted(x: Seq<char>, ts: Seq<Seq<char>>) -> Seq<Seq<char>>
    decreases ts.len(),
{
    if ts.len() == 0 {
        seq![x]
    } else if lex_le(x, ts[0]) {
        seq![x] + ts
    } else {
        seq![ts[0]] + insert_sorted(x, ts.drop_first())
    }
}

/// The tokens rearranged into ascending lexicographic order.
pub open spec fn sort_tokens(ts: Seq<Seq<char>>) -> Seq<Seq<char>>
    decreases ts.len(),
{
    if ts.len() == 0 {
        Seq::empty()
    } else {
        insert_sorted(ts.last(), sort_tokens(ts.drop_last()))
    }
}

/// Inserting into a sorted list keeps it sorted, adds exactly the new
/// element to the membership, and preserves freedom from duplicates.
pub proof fn lemma_insert_sorted_props(x: Seq<char>, ts: Seq<Seq<char>>)
    requires
        tokens_sorted(ts),
    ensures
        tokens_sorted(insert_sorted(x, ts)),
        forall|y: Seq<char>|
            #[trigger] insert_sorted(x, ts).contains(y) <==> (ts.contains(y) || y == x),
        insert_sorted(x, ts).len() == ts.len() + 1,
        !ts.contains(x) && ts.no_duplicates() ==> insert_sorted(x, ts).no_duplicates(),
    decreases ts.len(),
{
    let r = insert_sorted(x, ts);
    if ts.len() == 0 {
        assert forall|y: Seq<char>| #[trigger] r.contains(y) implies (ts.contains(y) || y == x) by {
            let k = choose|k: int| 0 <= k < r.len() && r[k] == y;
        }
        assert(r.contains(x)) by {
            assert(r[0] == x);
        }
    } else if lex_le(x, ts[0]) {
        assert forall|y: Seq<char>| #[trigger] r.contains(y) implies (ts.contains(y) || y == x) by {
            let k = choose|k: int| 0 <= k < r.len() && r[k] == y;
            if k > 0 {
                assert(ts[k - 1] == y);
            }
        }
        assert forall|y: Seq<char>| ts.contains(y) || y == x implies #[trigger] r.contains(y) by {
            if y == x {
                assert(r[0] == y);
            } else {
                let k = choose|k: int| 0 <= k < ts.len() && ts[k] == y;
                assert(r[k + 1] == y);
            }
        }
        assert forall|i: int, j: int| 0 <= i < j < r.len() implies lex_le(
            #[trigger] r[i],
            #[trigger] r[j],
        ) by {
            if i == 0 {
                assert(r[j] == ts[j - 1]);
                if j > 1 {
                    lemma_lex_le_trans(x, ts[0], ts[j - 1]);
                }
            } else {
                assert(r[i] == ts[i - 1] && r[j] == ts[j - 1]);
            }
        }
        if !ts.contains(x) && ts.no_duplicates() {
            assert forall|i: int, j: int| 0 <= i < j < r.len() implies r[i] != r[j] by {
                if i == 0 {
                    assert(ts.contains(ts[j - 1]));
                } else {
                    assert(r[i] == ts[i - 1] && r[j] == ts[j - 1]);
                }
            }
            assert(r.no_duplicates());
        }
    } else {
        let h = ts[0];
        let rest = ts.drop_first();
        assert(tokens_sorted(rest)) by {
            assert(forall|i: int, j: int|
                0 <= i < j < rest.len() ==> rest[i] == ts[i + 1] && rest[j] == ts[j + 1]);
        }
        lemma_insert_sorted_props(x, rest);
        let inner = insert_sorted(x, rest);
        assert(r == seq![h] + inner);
        lemma_lex_le_total(x, h);
        assert(lex_le(h, x));
        // Membership.
        assert forall|y: Seq<char>| #[trigger] r.contains(y) implies (ts.contains(y) || y == x) by {
            let k = choose|k: int| 0 <= k < r.len() && r[k] == y;
            if k == 0 {
                assert(ts[0] == y);
            } else {
                assert(inner[k - 1] == y);
                assert(inner.contains(y));
                if rest.contains(y) {
                    let m = choose|m: int| 0 <= m < rest.len() && rest[m] == y;
                    assert(ts[m + 1] == y);
                }
            }
        }
        assert forall|y: Seq<char>| ts.contains(y) || y == x implies #[trigger] r.contains(y) by {
            if y == x || rest.contains(y) {
                assert(inner.contains(y));
                let m = choose|m: int| 0 <= m < inner.len() && inner[m] == y;
                assert(r[m + 1] == y);
            } else {
                let k = choose|k: int| 0 <= k < ts.len() && ts[k] == y;
                if k == 0 {
                    assert(r[0] == y);
                } else {
                    assert(rest[k - 1] == y);
                }
            }
        }
        // The head is below everything that follows it.
        assert forall|i: int, j: int| 0 <= i < j < r.len() implies lex_le(
            #[trigger] r[i],
            #[trigger] r[j],
        ) by {
            if i == 0 {
                assert(r[j] == inner[j - 1]);
                assert(inner.contains(inner[j - 1]));
                if inner[j - 1] == x {
                } else {
                    let m = choose|m: int| 0 <= m < rest.len() && rest[m] == inner[j - 1];
                    assert(ts[m + 1] == inner[j - 1]);
                    assert(lex_le(ts[0], ts[m + 1]));
                }
            } else {
                assert(r[i] == inner[i - 1] && r[j] == inner[j - 1]);
            }
        }
        if !ts.contains(x) && ts.no_duplicates() {
            assert(!rest.contains(x)) by {
                if rest.contains(x) {
                    let m = choose|m: int| 0 <= m < rest.len() && rest[m] == x;
                    assert(ts[m + 1] == x);
                    assert(ts.contains(x));
                }
            }
            assert(rest.no_duplicates()) by {
                assert(forall|i: int, j: int|
                    0 <= i < j < rest.len() ==> rest[i] == ts[i + 1] && rest[j] == ts[j + 1]);
            }
            assert(inner.no_duplicates());
            assert forall|i: int, j: int| 0 <= i < j < r.len() implies r[i] != r[j] by {
                if i == 0 {
                    assert(r[j] == inner[j - 1]);
                    assert(inner.contains(inner[j - 1]));
                    if inner[j - 1] == x {
                        assert(ts.contains(ts[0]));
                    } else {
                        let m = choose|m: int| 0 <= m < rest.len() && rest[m] == inner[j - 1];
                        assert(ts[m + 1] == inner[j - 1]);
                    }
                } else {
                    assert(r[i] == inner[i - 1] && r[j] == inner[j - 1]);
                }
            }
            assert(r.no_duplicates());
        }
    }
}

/// Sorting keeps membership and length, yields an ordered list, and
/// preserves freedom from duplicates.
pub proof fn lemma_sort_tokens_props(ts: Seq<Seq<char>>)
    ensures
        tokens_sorted(sort_tokens(ts)),
        forall|y: Seq<char>| #[trigger] sort_tokens(ts).contains(y) <==> ts.contains(y),
        sort_tokens(ts).len() == ts.len(),
        ts.no_duplicates() ==> sort_tokens(ts).no_duplicates(),
    decreases ts.len(),
{
    if ts.len() > 0 {
        let head = ts.drop_last();
        lemma_sort_tokens_props(head);
        lemma_insert_sorted_props(ts.last(), sort_tokens(head));
        assert forall|y: Seq<char>| #[trigger] sort_tokens(ts).contains(y) implies ts.contains(
            y,
        ) by {
            if sort_tokens(head).contains(y) {
                let m = choose|m: int| 0 <= m < head.len() && head[m] == y;
                assert(ts[m] == y);
            } else {
                assert(y == ts.last());
                assert(ts[ts.len() - 1] == y);
            }
        }
        assert forall|y: Seq<char>| ts.contains(y) implies #[trigger] sort_tokens(ts).contains(
            y,
        ) by {
            let k = choose|k: int| 0 <= k < ts.len() && ts[k] == y;
            if k < ts.len() - 1 {
                assert(head[k] == y);
            }
        }
        if ts.no_duplicates() {
            assert(head.no_duplicates()) by {
                assert(forall|i: int, j: int|
                    0 <= i < j < head.len() ==> head[i] == ts[i] && head[j] == ts[j]);
            }
            assert(!head.contains(ts.last())) by {
                if head.contains(ts.last()) {
                    let m = choose|m: int| 0 <= m < head.len() && head[m] == ts.last();
                    assert(ts[m] == ts[ts.len() - 1]);
                }
            }
        }
    }
}

/// Where the first position not below `x` sits, the insertion happens.
pub proof fn lemma_insert_sorted_at(x: Seq<char>, ts: Seq<Seq<char>>, idx: int)
    requires
        0 <= idx <= ts.len(),
        forall|k: int| 0 <= k < idx ==> !lex_le(x, #[trigger] ts[k]),
        idx < ts.len() ==> lex_le(x, ts[idx]),
    ensures
        insert_sorted(x, ts) == ts.subrange(0, idx) + seq![x] + ts.subrange(idx, ts.len() as int),
    decreases ts.len(),
{
    if ts.len() == 0 {
        assert(insert_sorted(x, ts) =~= ts.subrange(0, idx) + seq![x] + ts.subrange(
            idx,
            ts.len() as int,
        ));
    } else if idx == 0 {
        assert(lex_le(x, ts[0]));
        assert(ts.subrange(0, 0) + seq![x] + ts.subrange(0, ts.len() as int) =~= seq![x] + ts);
    } else {
        assert(!lex_le(x, ts[0]));
        let rest = ts.drop_first();
        assert(forall|k: int| 0 <= k < idx - 1 ==> rest[k] == ts[k + 1]);
        assert(idx - 1 < rest.len() ==> rest[idx - 1] == ts[idx]);
        lemma_insert_sorted_at(x, rest, idx - 1);
        assert(seq![ts[0]] + (rest.subrange(0, idx - 1) + seq![x] + rest.subrange(
            idx - 1,
            rest.len() as int,
        )) =~= ts.subrange(0, idx) + seq![x] + ts.subrange(idx, ts.len() as int));
    }
}

/// What the tag field yields: its `#`-tokens, each kept once, in ascending
/// lexicographic order, so that equal tag sets always give equal lists.
pub open spec fn spec_tags(s: Seq<char>) -> Seq<Seq<char>> {
    sort_tokens(dedup_first(tag_tokens_from(s, 0)))
}

/// Keeping first occurrences leaves no duplicates and the same membership.
pub proof fn lemma_dedup_first_props(ts: Seq<Seq<char>>)
    ensures
        dedup_first(ts).no_duplicates(),
        forall|y: Seq<char>| #[trigger] dedup_first(ts).contains(y) <==> ts.contains(y),
    decreases ts.len(),
{
    if ts.len() > 0 {
        let head = ts.drop_last();
        lemma_dedup_first_props(head);
        let d = dedup_first(head);
        assert forall|y: Seq<char>| #[trigger] dedup_first(ts).contains(y) implies ts.contains(
            y,
        ) by {
            if d.contains(y) {
                let m = choose|m: int| 0 <= m < head.len() && head[m] == y;
                assert(ts[m] == y);
            } else {
                assert(y == ts.last());
                assert(ts[ts.len() - 1] == y);
            }
        }
        assert forall|y: Seq<char>| ts.contains(y) implies #[trigger] dedup_first(ts).contains(
            y,
        ) by {
            let k = choose|k: int| 0 <= k < ts.len() && ts[k] == y;
            if k < ts.len() - 1 {
                assert(head[k] == y);
                assert(d.contains(y));
                if !d.contains(ts.last()) {
                    let m = choose|m: int| 0 <= m < d.len() && d[m] == y;
                    assert(dedup_first(ts)[m] == y);
                }
            } else {
                if d.contains(y) {
                    let m = choose|m: int| 0 <= m < d.len() && d[m] == y;
                    if !d.contains(ts.last()) {
                        assert(dedup_first(ts)[m] == y);
                    }
                } else {
                    assert(dedup_first(ts) == d.push(ts.last()));
                    assert(dedup_first(ts)[d.len() as int] == y);
                }
            }
        }
        if !d.contains(ts.last()) {
            assert forall|i: int, j: int|
                0 <= i < j < dedup_first(ts).len() implies dedup_first(ts)[i] != dedup_first(
                ts,
            )[j] by {
                if j < dedup_first(ts).len() - 1 {
                    assert(dedup_first(ts)[i] == d[i] && dedup_first(ts)[j] == d[j]);
                } else {
                    assert(dedup_first(ts)[i] == d[i]);
                    assert(d.contains(d[i]));
                }
            }
            assert(dedup_first(ts).no_duplicates());
        }
    }
}

/// The tag list of any tag field is sorted ascending, free of duplicates,
/// and holds exactly the `#`-tokens the field matches.
pub proof fn lemma_spec_tags_canonical(s: Seq<char>)
    ensures
        tokens_sorted(spec_tags(s)),
        spec_tags(s).no_duplicates(),
        forall|y: Seq<char>| #[trigger] spec_tags(s).contains(y) <==> tag_tokens_from(
            s,
            0,
        ).contains(y),
{
    lemma_dedup_first_props(tag_tokens_from(s, 0));
    lemma_sort_tokens_props(dedup_first(tag_tokens_from(s, 0)));
}

/// Decide whether a word boundary sits at position `j`.
fn is_boundary(s: &str, j: usize) -> (r: bool)
    requires
        1 <= j <= s@.len(),
    ensures
        r == tag_boundary(s@, j as int),
{
    let n = s.unicode_len();
    let left = word_char(s.get_char(j - 1));
    if j == n {
        left
    } else {
        let right = word_char(s.get_char(j));
        left != right
    }
}

/// Find the first word boundary at or after `e`.
fn boundary_from(s: &str, e: usize) -> (r: Option<usize>)
    requires
        1 <= e,
    ensures
        r is Some <==> first_boundary(s@, e as int) is Some,
        r is Some ==> r->0 as int == first_boundary(s@, e as int)->0,
        r is Some ==> e <= r->0 <= s@.len(),
{
    let n = s.unicode_len();
    if e > n {
        return None;
    }
    let mut j = e;
    while j < n
        invariant
            1 <= e <= j <= n == s@.len(),
            first_boundary(s@, e as int) == first_boundary(s@, j as int),
        decreases n - j,
    {
        if is_boundary(s, j) {
            return Some(j);
        }
        j += 1;
    }
    proof {
        if tag_boundary(s@, n as int) {
            assert(first_boundary(s@, n as int) == Some(n as int));
        } else {
            assert(first_boundary(s@, n as int) == first_boundary(s@, n as int + 1));
            assert(first_boundary(s@, n as int + 1) is None);
        }
    }
    if is_boundary(s, n) {
        Some(n)
    } else {
        None
    }
}

/// Whether some element of `v` has exactly the content of `t`.
fn vec_contains_str(v: &Vec<String>, t: &String) -> (r: bool)
    ensures
        r == v.deep_view().contains(t@),
{
    let mut i: usize = 0;
    while i < v.len()
        invariant
            i <= v@.len(),
            forall|k: int| 0 <= k < i ==> v.deep_view()[k] != t@,
        decreases v@.len() - i,
    {
        if crate::strutil::str_eq(v[i].as_str(), t.as_str()) {
            proof {
                assert(v.deep_view()[i as int] == t@);
            }
            return true;
        }
        proof {
            assert(v.deep_view()[i as int] == v@[i as int]@);
        }
        i += 1;
    }
    proof {
        if v.deep_view().contains(t@) {
            let k = choose|k: int| 0 <= k < v.deep_view().len() && v.deep_view()[k] == t@;
            assert(v.deep_view()[k] != t@);
        }
    }
    false
}

/// Extract the `#`-prefixed tags of a tag field: each token once, in
/// ascending lexicographic order.
pub fn extract_tags(s: &str) -> (r: Vec<String>)
    ensures
        r.deep_view() == spec_tags(s@),
{
    let n = s.unicode_len();
    let mut tokens: Vec<String> = Vec::new();
    let mut i: usize = 0;
    while i < n
        invariant
            i <= n == s@.len(),
            tag_tokens_from(s@, 0) == tokens.deep_view() + tag_tokens_from(s@, i as int),
        decreases n - i,
    {
        let ghost pre = tokens.deep_view();
        let c = s.get_char(i);
        if c == '#' && n - i >= 2 {
            match boundary_from(s, i + 2) {
                Some(e) => {
                    let raw = substring_copy(s, i, e);
                    let token = trim_copy(raw.as_str());
                    tokens.push(token);
                    proof {
                        assert(tokens.deep_view() =~= pre.push(
                            spec_trim(s@.subrange(i as int, e as int)),
                        ));
                        assert(pre.push(spec_trim(s@.subrange(i as int, e as int)))
                            + tag_tokens_from(s@, e as int) =~= pre + (seq![
                            spec_trim(s@.subrange(i as int, e as int)),
                        ] + tag_tokens_from(s@, e as int)));
                    }
                    i = e;
                },
                None => {
                    i += 1;
                },
            }
        } else {
            proof {
                if c == '#' {
                    assert(first_boundary(s@, i + 2) is None);
                }
            }
            i += 1;
        }
    }
    proof {
        assert(tag_tokens_from(s@, n as int) =~= Seq::<Seq<char>>::empty());
        assert(tokens.deep_view() + Seq::<Seq<char>>::empty() =~= tokens.deep_view());
    }
    // Keep the first occurrence of each distinct token.
    let mut out: Vec<String> = Vec::new();
    let mut k: usize = 0;
    while k < tokens.len()
        invariant
            k <= tokens@.len(),
            out.deep_view() == dedup_first(tokens.deep_view().subrange(0, k as int)),
        decreases tokens@.len() - k,
    {
        let ghost dpre = out.deep_view();
        let t = &tokens[k];
        proof {
            let sub = tokens.deep_view().subrange(0, (k + 1) as int);
            assert(sub.drop_last() =~= tokens.deep_view().subrange(0, k as int));
            assert(sub.last() == tokens.deep_view()[k as int]);
            assert(tokens.deep_view()[k as int] == tokens@[k as int]@);
        }
        if !vec_contains_str(&out, t) {
            out.push(t.clone());
            proof {
                assert(out.deep_view() =~= dpre.push(tokens@[k as int]@));
            }
        }
        k += 1;
    }
    proof {
        assert(tokens.deep_view().subrange(0, tokens.deep_view().len() as int)
            =~= tokens.deep_view());
    }
    // Ascending lexicographic order makes the list canonical: equal tag
    // sets always yield equal lists.
    let mut sorted: Vec<String> = Vec::new();
    let mut q: usize = 0;
    proof {
        assert(out.deep_view().subrange(0, 0) =~= Seq::<Seq<char>>::empty());
        assert(sort_tokens(Seq::<Seq<char>>::empty()) =~= Seq::<Seq<char>>::empty());
    }
    while q < out.len()
        invariant
            q <= out@.len(),
            sorted.deep_view() == sort_tokens(out.deep_view().subrange(0, q as int)),
        decreases out@.len() - q,
    {
        let t = &out[q];
        let ghost cur = sorted.deep_view();
        let mut pos: usize = 0;
        while pos < sorted.len() && !str_le(t.as_str(), sorted[pos].as_str())
            invariant
                pos <= sorted@.len(),
                cur == sorted.deep_view(),
                cur.len() == sorted@.len(),
                forall|k2: int| 0 <= k2 < pos ==> !lex_le(t@, #[trigger] cur[k2]),
            decreases sorted@.len() - pos,
        {
            proof {
                assert(cur[pos as int] == sorted@[pos as int]@);
            }
            pos += 1;
        }
        proof {
            if pos < sorted@.len() {
                assert(cur[pos as int] == sorted@[pos as int]@);
            }
            lemma_insert_sorted_at(t@, cur, pos as int);
        }
        sorted.insert(pos, t.clone());
        proof {
            let target = cur.subrange(0, pos as int) + seq![t@] + cur.subrange(
                pos as int,
                cur.len() as int,
            );
            assert forall|j: int| 0 <= j < sorted@.len() implies #[trigger] sorted.deep_view()[j]
                == target[j] by {
                assert(sorted.deep_view()[j] == sorted@[j]@);
                if j < pos {
                    assert(sorted@[j]@ == cur[j]);
                } else if j == pos {
                    assert(sorted@[j]@ == t@);
                } else {
                    assert(sorted@[j]@ == cur[j - 1]);
                }
            }
            assert(sorted.deep_view() =~= target);
            let ext = out.deep_view().subrange(0, (q + 1) as int);
            assert(ext.drop_last() =~= out.deep_view().subrange(0, q as int));
            assert(ext.last() == out.deep_view()[q as int]);
            assert(out.deep_view()[q as int] == out@[q as int]@);
            assert(sort_tokens(ext) == insert_sorted(ext.last(), sort_tokens(ext.drop_last())));
        }
        q += 1;
    }
    proof {
        assert(out.deep_view().subrange(0, out.deep_view().len() as int) =~= out.deep_view());
    }
    sorted
}

} // verus!
