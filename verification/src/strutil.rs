//! Shared verified helpers for working with strings as sequences of
//! characters: character classes, case folding, searching, splitting,
//! trimming and lexicographic comparison.
use vstd::prelude::*;

verus! {

/// Characters the dependency grammar treats as whitespace when trimming.
pub open spec fn is_space_char(c: char) -> bool {
    c == ' ' || c == '\t' || c == '\n' || c == '\r' || c == '\u{b}' || c == '\u{c}'
}

/// Characters allowed in a package name: letters, digits, `-`, `_` and `.`.
pub open spec fn is_name_char(c: char) -> bool {
    ('A' <= c && c <= 'Z') || ('a' <= c && c <= 'z') || ('0' <= c && c <= '9') || c == '-' || c
        == '_' || c == '.'
}

/// Characters allowed in a version token: letters, digits, `-`, `_` and `.`.
pub open spec fn is_version_char(c: char) -> bool {
    is_name_char(c)
}

/// ASCII decimal digits.
pub open spec fn is_digit_char(c: char) -> bool {
    '0' <= c && c <= '9'
}

/// ASCII lower-casing of a single character; everything outside `A`..`Z`
/// is left unchanged.
pub open spec fn lower_char(c: char) -> char {
    if 'A' <= c && c <= 'Z' {
        ((c as u32) + 32) as char
    } else {
        c
    }
}

/// ASCII lower-casing of a whole character sequence.
pub open spec fn lower(s: Seq<char>) -> Seq<char> {
    s.map_values(|c: char| lower_char(c))
}

/// Executable test for `is_name_char`.
pub fn name_char(c: char) -> (r: bool)
    ensures
        r == is_name_char(c),
{
    ('A' <= c && c <= 'Z') || ('a' <= c && c <= 'z') || ('0' <= c && c <= '9') || c == '-' || c
        == '_' || c == '.'
}

/// Executable test for `is_version_char`.
pub fn version_char(c: char) -> (r: bool)
    ensures
        r == is_version_char(c),
{
    name_char(c)
}

/// Executable test for `is_space_char`.
pub fn space_char(c: char) -> (r: bool)
    ensures
        r == is_space_char(c),
{
    c == ' ' || c == '\t' || c == '\n' || c == '\r' || c == '\u{b}' || c == '\u{c}'
}

/// Executable test for `is_digit_char`.
pub fn digit_char(c: char) -> (r: bool)
    ensures
        r == is_digit_char(c),
{
    '0' <= c && c <= '9'
}

/// Compares two characters up to ASCII case.
pub fn chars_eq_ci(a: char, b: char) -> (r: bool)
    ensures
        r == (lower_char(a) == lower_char(b)),
{
    let x: u32 = a as u32;
    let y: u32 = b as u32;
    let xl: u32 = if 65 <= x && x <= 90 {
        x + 32
    } else {
        x
    };
    let yl: u32 = if 65 <= y && y <= 90 {
        y + 32
    } else {
        y
    };
    proof {
        vstd::utf8::char_is_scalar(a);
        vstd::utf8::char_is_scalar(b);
        assert(lower_char(a) as u32 == xl);
        assert(lower_char(b) as u32 == yl);
        vstd::utf8::char_u32_cast(lower_char(a), lower_char(a) as u32);
        vstd::utf8::char_u32_cast(lower_char(b), lower_char(b) as u32);
    }
    xl == yl
}

/// String equality on views.
pub fn str_eq(a: &str, b: &str) -> (r: bool)
    ensures
        r == (a@ == b@),
{
    let an = a.unicode_len();
    let bn = b.unicode_len();
    if an != bn {
        assert(a@ != b@);
        return false;
    }
    let mut i: usize = 0;
    while i < an
        invariant
            an == a@.len(),
            an == b@.len(),
            0 <= i <= an,
            forall|j: int| 0 <= j < i ==> a@[j] == b@[j],
        decreases an - i,
    {
        if a.get_char(i) != b.get_char(i) {
            return false;
        }
        i += 1;
    }
    proof {
        assert(a@ =~= b@);
    }
    true
}

/// Case-insensitive (ASCII) string equality on views.
pub fn str_eq_ci(a: &str, b: &str) -> (r: bool)
    ensures
        r == (lower(a@) == lower(b@)),
{
    let an = a.unicode_len();
    let bn = b.unicode_len();
    if an != bn {
        assert(lower(a@).len() != lower(b@).len());
        return false;
    }
    let mut i: usize = 0;
    while i < an
        invariant
            an == a@.len(),
            an == b@.len(),
            0 <= i <= an,
            forall|j: int| 0 <= j < i ==> lower_char(a@[j]) == lower_char(b@[j]),
        decreases an - i,
    {
        if !chars_eq_ci(a.get_char(i), b.get_char(i)) {
            assert(lower(a@)[i as int] != lower(b@)[i as int]);
            return false;
        }
        i += 1;
    }
    proof {
        assert(lower(a@) =~= lower(b@));
    }
    true
}

/// Whether a vector of strings holds one whose view is `s@`.
pub fn contains_str(v: &Vec<String>, s: &str) -> (r: bool)
    ensures
        r == v@.map_values(|t: String| t@).contains(s@),
{
    let ghost views = v@.map_values(|t: String| t@);
    let mut i: usize = 0;
    while i < v.len()
        invariant
            views == v@.map_values(|t: String| t@),
            0 <= i <= v.len(),
            views.len() == v.len(),
            forall|j: int| 0 <= j < i ==> views[j] != s@,
        decreases v.len() - i,
    {
        if str_eq(v[i].as_str(), s) {
            assert(views[i as int] == s@);
            return true;
        }
        i += 1;
    }
    false
}

/// End of the run of characters satisfying `pred` that starts at `i`:
/// the first index at or after `i` whose character fails `pred`, or the
/// length of `s` if the run reaches the end.
pub open spec fn span_end(s: Seq<char>, i: int, pred: spec_fn(char) -> bool) -> int
    decreases s.len() - i
        when 0 <= i <= s.len()
{
    if i < s.len() && pred(s[i]) {
        span_end(s, i + 1, pred)
    } else {
        i
    }
}

/// `span_end` stays within bounds and spans exactly a maximal run.
pub proof fn lemma_span_end(s: Seq<char>, i: int, pred: spec_fn(char) -> bool)
    requires
        0 <= i <= s.len(),
    ensures
        i <= span_end(s, i, pred) <= s.len(),
        forall|k: int| i <= k < span_end(s, i, pred) ==> pred(s[k]),
        span_end(s, i, pred) < s.len() ==> !pred(s[span_end(s, i, pred)]),
    decreases s.len() - i,
{
    if i < s.len() && pred(s[i]) {
        lemma_span_end(s, i + 1, pred);
    }
}

/// A run known to stretch exactly from `i` to `j` determines `span_end`.
pub proof fn lemma_span_end_determined(s: Seq<char>, i: int, j: int, pred: spec_fn(char) -> bool)
    requires
        0 <= i <= j <= s.len(),
        forall|k: int| i <= k < j ==> pred(s[k]),
        j < s.len() ==> !pred(s[j]),
    ensures
        span_end(s, i, pred) == j,
    decreases j - i,
{
    if i < j {
        lemma_span_end_determined(s, i + 1, j, pred);
    }
}

/// First index at or after `i` where `c` occurs, or the length of `s`
/// if it does not occur there.
pub open spec fn find_from(s: Seq<char>, i: int, c: char) -> int
    decreases s.len() - i
        when 0 <= i <= s.len()
{
    if i < s.len() {
        if s[i] == c {
            i
        } else {
            find_from(s, i + 1, c)
        }
    } else {
        i
    }
}

/// `find_from` stays within bounds and finds the first occurrence.
pub proof fn lemma_find_from(s: Seq<char>, i: int, c: char)
    requires
        0 <= i <= s.len(),
    ensures
        i <= find_from(s, i, c) <= s.len(),
        forall|k: int| i <= k < find_from(s, i, c) ==> s[k] != c,
        find_from(s, i, c) < s.len() ==> s[find_from(s, i, c)] == c,
    decreases s.len() - i,
{
    if i < s.len() && s[i] != c {
        lemma_find_from(s, i + 1, c);
    }
}

/// An occurrence at `j` with none before it determines `find_from`.
pub proof fn lemma_find_from_determined(s: Seq<char>, i: int, j: int, c: char)
    requires
        0 <= i <= j <= s.len(),
        forall|k: int| i <= k < j ==> s[k] != c,
        j < s.len() ==> s[j] == c,
    ensures
        find_from(s, i, c) == j,
    decreases j - i,
{
    if i < j {
        lemma_find_from_determined(s, i + 1, j, c);
    }
}

/// Splits `s` at every occurrence of `c`; splitting the empty sequence
/// or a sequence without `c` yields one piece.
pub open spec fn split_on(s: Seq<char>, c: char) -> Seq<Seq<char>>
    decreases s.len(),
    via split_on_decreases
{
    let k = find_from(s, 0, c);
    if 0 <= k < s.len() {
        seq![s.take(k)] + split_on(s.skip(k + 1), c)
    } else {
        seq![s]
    }
}

#[via_fn]
proof fn split_on_decreases(s: Seq<char>, c: char) {
    lemma_find_from(s, 0, c);
}

/// Joins pieces with `c` between consecutive ones.
pub open spec fn join_with(es: Seq<Seq<char>>, c: char) -> Seq<char>
    decreases es.len(),
{
    if es.len() == 0 {
        Seq::empty()
    } else if es.len() == 1 {
        es[0]
    } else {
        es[0] + seq![c] + join_with(es.drop_first(), c)
    }
}

/// Every character of a join is the separator or comes from a piece.
pub proof fn lemma_join_with_chars(es: Seq<Seq<char>>, c: char)
    ensures
        forall|x: char|
            join_with(es, c).contains(x) ==> x == c || exists|i: int|
                0 <= i < es.len() && (#[trigger] es[i]).contains(x),
    decreases es.len(),
{
    if es.len() > 1 {
        lemma_join_with_chars(es.drop_first(), c);
        let s = join_with(es, c);
        let head = es[0];
        let rest = join_with(es.drop_first(), c);
        assert(s == head + seq![c] + rest);
        assert forall|x: char| s.contains(x) implies x == c || exists|i: int|
            0 <= i < es.len() && (#[trigger] es[i]).contains(x) by {
            let j = choose|j: int| 0 <= j < s.len() && s[j] == x;
            if j < head.len() {
                assert(head[j] == x);
                assert(es[0].contains(x));
            } else if j == head.len() {
                assert(x == c);
            } else {
                assert(rest[j - head.len() - 1] == x);
                assert(rest.contains(x));
                if x != c {
                    let i = choose|i: int|
                        0 <= i < es.drop_first().len() && (#[trigger] es.drop_first()[
                            i]).contains(x);
                    assert(es[i + 1].contains(x));
                }
            }
        }
    }
}

/// Appending one more piece to a join.
pub proof fn lemma_join_push(es: Seq<Seq<char>>, c: char, x: Seq<char>)
    ensures
        join_with(es.push(x), c) == if es.len() == 0 {
            x
        } else {
            join_with(es, c) + seq![c] + x
        },
    decreases es.len(),
{
    let p = es.push(x);
    if es.len() == 0 {
        assert(p.len() == 1);
        assert(p[0] == x);
    } else {
        assert(p.len() >= 2);
        assert(p[0] == es[0]);
        assert(p.drop_first() =~= es.drop_first().push(x));
        lemma_join_push(es.drop_first(), c, x);
        if es.len() == 1 {
            assert(es.drop_first().len() == 0);
            assert(join_with(p, c) == es[0] + seq![c] + x);
            assert(join_with(es, c) == es[0]);
        } else {
            assert(join_with(p, c) == p[0] + seq![c] + (join_with(es.drop_first(), c) + seq![c]
                + x));
            assert(join_with(es, c) == es[0] + seq![c] + join_with(es.drop_first(), c));
            assert(es[0] + seq![c] + (join_with(es.drop_first(), c) + seq![c] + x) =~= (es[0]
                + seq![c] + join_with(es.drop_first(), c)) + seq![c] + x);
        }
    }
}

/// Joining a split restores the sequence.
pub proof fn lemma_join_split(s: Seq<char>, c: char)
    ensures
        join_with(split_on(s, c), c) == s,
    decreases s.len(),
{
    lemma_find_from(s, 0, c);
    let k = find_from(s, 0, c);
    if 0 <= k < s.len() {
        let head = s.take(k);
        let rest = s.skip(k + 1);
        lemma_join_split(rest, c);
        let parts = seq![head] + split_on(rest, c);
        assert(split_on(s, c) == parts);
        assert(parts.len() >= 2) by {
            assert(split_on(rest, c).len() >= 1);
        }
        assert(parts[0] == head);
        assert(parts.drop_first() =~= split_on(rest, c));
        assert(join_with(parts, c) == head + seq![c] + join_with(split_on(rest, c), c));
        assert(head + seq![c] + rest =~= s);
    } else {
        assert(split_on(s, c) =~= seq![s]);
    }
}

/// Splitting a join restores the pieces, provided no piece holds the
/// separator and there is at least one piece.
pub proof fn lemma_split_join(es: Seq<Seq<char>>, c: char)
    requires
        es.len() > 0,
        forall|i: int| 0 <= i < es.len() ==> !(#[trigger] es[i]).contains(c),
    ensures
        split_on(join_with(es, c), c) == es,
    decreases es.len(),
{
    let s = join_with(es, c);
    if es.len() == 1 {
        assert(s == es[0]);
        assert(forall|k: int| 0 <= k < s.len() ==> s[k] != c) by {
            assert(forall|k: int| 0 <= k < es[0].len() ==> es[0][k] == s[k]);
        }
        lemma_find_from_determined(s, 0, s.len() as int, c);
        assert(split_on(s, c) =~= seq![s]);
    } else {
        let h = es[0];
        let rest = join_with(es.drop_first(), c);
        assert(s =~= h + seq![c] + rest);
        assert(forall|k: int| 0 <= k < h.len() ==> s[k] != c) by {
            assert(forall|k: int| 0 <= k < h.len() ==> s[k] == h[k]);
        }
        assert(s[h.len() as int] == c);
        lemma_find_from_determined(s, 0, h.len() as int, c);
        assert(s.take(h.len() as int) =~= h);
        assert(s.skip(h.len() as int + 1) =~= rest);
        lemma_split_join(es.drop_first(), c);
        assert(split_on(s, c) =~= seq![h] + split_on(rest, c));
        assert(seq![h] + es.drop_first() =~= es);
    }
}

/// Pieces of a split never hold the separator, and hold only
/// characters of the split sequence.
pub proof fn lemma_split_on_elements(s: Seq<char>, c: char)
    ensures
        forall|i: int|
            0 <= i < split_on(s, c).len() ==> !(#[trigger] split_on(s, c)[i]).contains(c),
        forall|i: int, x: char|
            #![trigger split_on(s, c)[i].contains(x)]
            0 <= i < split_on(s, c).len() && split_on(s, c)[i].contains(x) ==> s.contains(x),
    decreases s.len(),
{
    lemma_find_from(s, 0, c);
    let k = find_from(s, 0, c);
    if 0 <= k < s.len() {
        let head = s.take(k);
        let rest = s.skip(k + 1);
        lemma_split_on_elements(rest, c);
        assert forall|i: int| 0 <= i < split_on(s, c).len() implies !(#[trigger] split_on(s, c)[
            i]).contains(c) by {
            if i == 0 {
                assert(split_on(s, c)[0] == head);
                if head.contains(c) {
                    let j = choose|j: int| 0 <= j < head.len() && head[j] == c;
                    assert(s[j] == c);
                }
            } else {
                assert(split_on(s, c)[i] == split_on(rest, c)[i - 1]);
            }
        }
        assert forall|i: int, x: char|
            #![trigger split_on(s, c)[i].contains(x)]
            0 <= i < split_on(s, c).len() && split_on(s, c)[i].contains(x) implies s.contains(
            x) by {
            if i == 0 {
                let j = choose|j: int| 0 <= j < head.len() && head[j] == x;
                assert(s[j] == x);
            } else {
                assert(split_on(s, c)[i] == split_on(rest, c)[i - 1]);
                assert(rest.contains(x));
                let j = choose|j: int| 0 <= j < rest.len() && rest[j] == x;
                assert(s[k + 1 + j] == x);
            }
        }
    } else {
        assert(split_on(s, c) =~= seq![s]);
        assert forall|i: int| 0 <= i < split_on(s, c).len() implies !(#[trigger] split_on(s, c)[
            i]).contains(c) by {
            assert(split_on(s, c)[i] == s);
            if s.contains(c) {
                let j = choose|j: int| 0 <= j < s.len() && s[j] == c;
                assert(false);
            }
        }
    }
}

/// Drops leading and trailing whitespace.
pub open spec fn trim(s: Seq<char>) -> Seq<char>
    decreases s.len(),
{
    if s.len() > 0 && is_space_char(s[0]) {
        trim(s.drop_first())
    } else if s.len() > 0 && is_space_char(s.last()) {
        trim(s.drop_last())
    } else {
        s
    }
}

/// A sequence without leading or trailing whitespace is its own trim.
pub proof fn lemma_trim_fixed(s: Seq<char>)
    requires
        s.len() > 0 ==> !is_space_char(s[0]),
        s.len() > 0 ==> !is_space_char(s.last()),
    ensures
        trim(s) == s,
{
}

/// The result of `trim` is bounded by the first and last non-space
/// characters: it equals the subrange between them.
pub proof fn lemma_trim_range(s: Seq<char>, lo: int, hi: int)
    requires
        0 <= lo <= hi <= s.len(),
        forall|k: int| 0 <= k < lo ==> is_space_char(s[k]),
        forall|k: int| hi <= k < s.len() ==> is_space_char(s[k]),
        lo < hi ==> !is_space_char(s[lo]),
        lo < hi ==> !is_space_char(s[hi - 1]),
        lo == hi ==> lo == 0 && hi == s.len(),
    ensures
        trim(s) == s.subrange(lo, hi),
    decreases s.len(),
{
    if s.len() == 0 {
        assert(trim(s) =~= s.subrange(lo, hi));
    } else if is_space_char(s[0]) {
        assert(lo > 0 || (lo == 0 && hi == s.len() && hi > 0));
        if lo == 0 {
            assert(is_space_char(s[hi - 1]) || hi == 0);
            assert(false);
        }
        let t = s.drop_first();
        assert(forall|k: int| 0 <= k < lo - 1 ==> is_space_char(t[k]));
        assert(forall|k: int| hi - 1 <= k < t.len() ==> is_space_char(t[k]));
        lemma_trim_range(t, lo - 1, hi - 1);
        assert(t.subrange(lo - 1, hi - 1) =~= s.subrange(lo, hi));
    } else if is_space_char(s.last()) {
        assert(hi < s.len() || (lo == 0 && hi == s.len()));
        if hi == s.len() {
            assert(!is_space_char(s[hi - 1]) || lo == hi);
            assert(false);
        }
        let t = s.drop_last();
        assert(forall|k: int| 0 <= k < lo ==> is_space_char(t[k]));
        assert(forall|k: int| hi <= k < t.len() ==> is_space_char(t[k]));
        lemma_trim_range(t, lo, hi);
        assert(t.subrange(lo, hi) =~= s.subrange(lo, hi));
    } else {
        assert(lo == 0 && hi == s.len());
        assert(trim(s) =~= s.subrange(lo, hi));
    }
}

/// Trimming whitespace only leaves nothing.
pub proof fn lemma_trim_all_space(s: Seq<char>)
    requires
        forall|k: int| 0 <= k < s.len() ==> is_space_char(#[trigger] s[k]),
    ensures
        trim(s) == Seq::<char>::empty(),
    decreases s.len(),
{
    if s.len() > 0 {
        lemma_trim_all_space(s.drop_first());
    } else {
        assert(trim(s) =~= Seq::<char>::empty());
    }
}

/// A trimmed sequence has no whitespace at either edge, so `trim` is
/// idempotent.
pub proof fn lemma_trim_trimmed(s: Seq<char>)
    ensures
        trim(s).len() > 0 ==> !is_space_char(trim(s)[0]),
        trim(s).len() > 0 ==> !is_space_char(trim(s).last()),
        trim(trim(s)) == trim(s),
    decreases s.len(),
{
    if s.len() > 0 && is_space_char(s[0]) {
        lemma_trim_trimmed(s.drop_first());
    } else if s.len() > 0 && is_space_char(s.last()) {
        lemma_trim_trimmed(s.drop_last());
    }
}

/// `trim` only removes characters; it introduces none.
pub proof fn lemma_trim_chars(s: Seq<char>)
    ensures
        forall|x: char| trim(s).contains(x) ==> s.contains(x),
    decreases s.len(),
{
    if s.len() > 0 && is_space_char(s[0]) {
        lemma_trim_chars(s.drop_first());
        assert forall|x: char| trim(s).contains(x) implies s.contains(x) by {
            if s.drop_first().contains(x) {
                let j = choose|j: int| 0 <= j < s.drop_first().len() && s.drop_first()[j] == x;
                assert(s[j + 1] == x);
            }
        }
    } else if s.len() > 0 && is_space_char(s.last()) {
        lemma_trim_chars(s.drop_last());
        assert forall|x: char| trim(s).contains(x) implies s.contains(x) by {
            if s.drop_last().contains(x) {
                let j = choose|j: int| 0 <= j < s.drop_last().len() && s.drop_last()[j] == x;
                assert(s[j] == x);
            }
        }
    }
}

/// Keeps the first occurrence of each element, in order of first
/// appearance.
pub open spec fn dedup<A>(es: Seq<A>) -> Seq<A>
    decreases es.len(),
{
    if es.len() == 0 {
        es
    } else {
        let r = dedup(es.drop_last());
        if r.contains(es.last()) {
            r
        } else {
            r.push(es.last())
        }
    }
}

/// A duplicate-free sequence is its own dedup.
pub proof fn lemma_dedup_no_duplicates<A>(es: Seq<A>)
    requires
        es.no_duplicates(),
    ensures
        dedup(es) == es,
    decreases es.len(),
{
    if es.len() > 0 {
        lemma_dedup_no_duplicates(es.drop_last());
        assert(!es.drop_last().contains(es.last())) by {
            if es.drop_last().contains(es.last()) {
                let i = choose|i: int|
                    0 <= i < es.drop_last().len() && es.drop_last()[i] == es.last();
                assert(es[i] == es[es.len() - 1]);
            }
        }
        assert(dedup(es) =~= es);
    }
}

/// What `dedup` returns: exactly the elements of the input, without
/// duplicates.
pub proof fn lemma_dedup_elements<A>(es: Seq<A>)
    ensures
        dedup(es).no_duplicates(),
        forall|x: A| dedup(es).contains(x) <==> es.contains(x),
    decreases es.len(),
{
    if es.len() > 0 {
        lemma_dedup_elements(es.drop_last());
        assert forall|x: A| dedup(es).contains(x) implies es.contains(x) by {
            if dedup(es.drop_last()).contains(x) {
                assert(es.drop_last().contains(x));
                let i = choose|i: int|
                    0 <= i < es.drop_last().len() && es.drop_last()[i] == x;
                assert(es[i] == x);
            } else {
                assert(x == es.last());
                assert(es[es.len() - 1] == x);
            }
        }
        assert forall|x: A| es.contains(x) implies dedup(es).contains(x) by {
            let i = choose|i: int| 0 <= i < es.len() && es[i] == x;
            if i < es.len() - 1 {
                assert(es.drop_last()[i] == x);
                assert(es.drop_last().contains(x));
                let r = dedup(es.drop_last());
                assert(r.contains(x));
                let j = choose|j: int| 0 <= j < r.len() && r[j] == x;
                if !r.contains(es.last()) {
                    assert(dedup(es) == r.push(es.last()));
                    assert(dedup(es)[j] == x);
                }
            } else {
                assert(x == es.last());
                let r = dedup(es.drop_last());
                if r.contains(es.last()) {
                    assert(dedup(es) == r);
                } else {
                    assert(dedup(es) == r.push(es.last()));
                    assert(dedup(es)[r.len() as int] == x);
                }
            }
        }
    }
}


/// The view of a string, as a function value.
pub open spec fn str_view() -> spec_fn(String) -> Seq<char> {
    |s: String| s@
}

/// Splits the range `[lo, hi)` of `s` at every occurrence of `sep`.
pub fn split_char_range(s: &str, lo: usize, hi: usize, sep: char) -> (r: Vec<String>)
    requires
        lo <= hi <= s@.len(),
    ensures
        r@.map_values(str_view()) == split_on(s@.subrange(lo as int, hi as int), sep),
    decreases hi - lo,
{
    let ghost inner = s@.subrange(lo as int, hi as int);
    let mut j = lo;
    while j < hi && s.get_char(j) != sep
        invariant
            lo <= j <= hi <= s@.len(),
            inner == s@.subrange(lo as int, hi as int),
            forall|k: int| lo <= k < j ==> s@[k] != sep,
        decreases hi - j,
    {
        j += 1;
    }
    proof {
        assert(forall|k: int| 0 <= k < inner.len() ==> inner[k] == s@[lo + k]);
        lemma_find_from_determined(inner, 0, j - lo, sep);
    }
    if j < hi {
        let piece = String::from_str(s.substring_char(lo, j));
        let mut out = split_char_range(s, j + 1, hi, sep);
        out.insert(0, piece);
        proof {
            assert(piece@ =~= inner.take(j - lo));
            assert(s@.subrange(j + 1, hi as int) =~= inner.skip(j - lo + 1));
            assert(out@.map_values(str_view()) =~= split_on(inner, sep));
        }
        out
    } else {
        let piece = String::from_str(s.substring_char(lo, hi));
        let mut out: Vec<String> = Vec::new();
        out.push(piece);
        proof {
            assert(piece@ =~= inner);
            assert(out@.map_values(str_view()) =~= seq![inner]);
            assert(split_on(inner, sep) == seq![inner]);
        }
        out
    }
}

/// Drops later duplicates, keeping first occurrences in order.
pub fn dedup_strings(v: &Vec<String>) -> (r: Vec<String>)
    ensures
        r@.map_values(str_view()) == dedup(v@.map_values(str_view())),
{
    let ghost vs = v@.map_values(str_view());
    let mut out: Vec<String> = Vec::new();
    let mut i: usize = 0;
    while i < v.len()
        invariant
            0 <= i <= v.len(),
            vs == v@.map_values(str_view()),
            out@.map_values(str_view()) == dedup(vs.take(i as int)),
        decreases v.len() - i,
    {
        proof {
            assert(vs.take(i + 1).drop_last() =~= vs.take(i as int));
            assert(vs.take(i + 1).last() == vs[i as int]);
        }
        if !contains_str(&out, v[i].as_str()) {
            out.push(v[i].clone());
            proof {
                assert(out@.map_values(str_view()) =~= dedup(vs.take(i as int)).push(
                    vs[i as int]));
            }
        }
        i += 1;
    }
    proof {
        assert(vs.take(v.len() as int) =~= vs);
    }
    out
}

/// Lexicographic (by character code) "less than or equal" on sequences.
pub open spec fn lex_leq(a: Seq<char>, b: Seq<char>) -> bool
    decreases a.len(),
{
    if a.len() == 0 {
        true
    } else if b.len() == 0 {
        false
    } else if a[0] != b[0] {
        a[0] < b[0]
    } else {
        lex_leq(a.drop_first(), b.drop_first())
    }
}

/// Lexicographic order, as a function value.
pub open spec fn lex_leq_fn() -> spec_fn(Seq<char>, Seq<char>) -> bool {
    |a: Seq<char>, b: Seq<char>| lex_leq(a, b)
}

/// Strict form of `lex_leq`.
pub open spec fn lex_lt(a: Seq<char>, b: Seq<char>) -> bool {
    lex_leq(a, b) && a != b
}

/// `lex_leq` is reflexive.
pub proof fn lemma_lex_leq_refl(a: Seq<char>)
    ensures
        lex_leq(a, a),
    decreases a.len(),
{
    if a.len() > 0 {
        lemma_lex_leq_refl(a.drop_first());
    }
}

/// `lex_leq` is antisymmetric.
pub proof fn lemma_lex_leq_antisym(a: Seq<char>, b: Seq<char>)
    requires
        lex_leq(a, b),
        lex_leq(b, a),
    ensures
        a == b,
    decreases a.len(),
{
    if a.len() == 0 {
        assert(b.len() == 0);
        assert(a =~= b);
    } else {
        assert(b.len() > 0);
        assert(a[0] == b[0]);
        lemma_lex_leq_antisym(a.drop_first(), b.drop_first());
        assert(a =~= seq![a[0]] + a.drop_first());
        assert(b =~= seq![b[0]] + b.drop_first());
    }
}

/// `lex_leq` is transitive.
pub proof fn lemma_lex_leq_trans(a: Seq<char>, b: Seq<char>, c: Seq<char>)
    requires
        lex_leq(a, b),
        lex_leq(b, c),
    ensures
        lex_leq(a, c),
    decreases a.len(),
{
    if a.len() == 0 || b.len() == 0 || c.len() == 0 {
    } else {
        if a[0] == b[0] && b[0] == c[0] {
            lemma_lex_leq_trans(a.drop_first(), b.drop_first(), c.drop_first());
        }
    }
}

/// `lex_leq` relates every pair of sequences one way or the other.
pub proof fn lemma_lex_leq_connected(a: Seq<char>, b: Seq<char>)
    ensures
        lex_leq(a, b) || lex_leq(b, a),
    decreases a.len(),
{
    if a.len() > 0 && b.len() > 0 && a[0] == b[0] {
        lemma_lex_leq_connected(a.drop_first(), b.drop_first());
    }
}

/// `lex_leq` is a total ordering in the sense of `vstd::relations`.
pub proof fn lemma_lex_leq_total_ordering()
    ensures
        vstd::relations::total_ordering(lex_leq_fn()),
{
    let leq = lex_leq_fn();
    assert forall|a: Seq<char>| #[trigger] leq(a, a) by {
        lemma_lex_leq_refl(a);
    }
    assert forall|a: Seq<char>, b: Seq<char>| #[trigger] leq(a, b) && #[trigger] leq(b, a)
        implies a == b by {
        lemma_lex_leq_antisym(a, b);
    }
    assert forall|a: Seq<char>, b: Seq<char>, c: Seq<char>|
        #[trigger] leq(a, b) && #[trigger] leq(b, c) implies leq(a, c) by {
        lemma_lex_leq_trans(a, b, c);
    }
    assert forall|a: Seq<char>, b: Seq<char>| #[trigger] leq(a, b) || #[trigger] leq(b, a) by {
        lemma_lex_leq_connected(a, b);
    }
}

/// Equal prefixes do not affect the comparison of what follows them.
pub proof fn lemma_lex_leq_skip(a: Seq<char>, b: Seq<char>, i: int)
    requires
        0 <= i <= a.len(),
        0 <= i <= b.len(),
        forall|j: int| 0 <= j < i ==> a[j] == b[j],
    ensures
        lex_leq(a, b) == lex_leq(a.skip(i), b.skip(i)),
    decreases i,
{
    if i > 0 {
        assert(a.len() > 0 && b.len() > 0 && a[0] == b[0]);
        assert(a.drop_first().skip(i - 1) =~= a.skip(i));
        assert(b.drop_first().skip(i - 1) =~= b.skip(i));
        lemma_lex_leq_skip(a.drop_first(), b.drop_first(), i - 1);
    } else {
        assert(a.skip(0) =~= a);
        assert(b.skip(0) =~= b);
    }
}

/// Executable lexicographic comparison.
pub fn str_lex_leq(a: &str, b: &str) -> (r: bool)
    ensures
        r == lex_leq(a@, b@),
{
    let an = a.unicode_len();
    let bn = b.unicode_len();
    let mut i: usize = 0;
    loop
        invariant
            an == a@.len(),
            bn == b@.len(),
            0 <= i <= an,
            0 <= i <= bn,
            forall|j: int| 0 <= j < i ==> a@[j] == b@[j],
        decreases an - i,
    {
        proof {
            lemma_lex_leq_skip(a@, b@, i as int);
        }
        if i >= an {
            assert(a@.skip(i as int).len() == 0);
            return true;
        }
        if i >= bn {
            assert(b@.skip(i as int).len() == 0);
            assert(a@.skip(i as int).len() > 0);
            return false;
        }
        let ca = a.get_char(i);
        let cb = b.get_char(i);
        if ca != cb {
            assert(a@.skip(i as int)[0] == ca && b@.skip(i as int)[0] == cb);
            return ca < cb;
        }
        i += 1;
    }
}

} // verus!
