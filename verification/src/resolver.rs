//! Index resolution: querying an ordered list of package indexes for a
//! dependency, scraping version tokens out of a listing page, picking
//! the latest version by numeric, dot-separated comparison, and pinning
//! it as a compatible-release constraint.
use vstd::prelude::*;
use vstd::arithmetic::power::pow;

use crate::dependency::{str_view, DepModel, Dependency};
use crate::strutil::{
    find_from, is_digit_char, join_with, lex_leq, span_end, split_char_range, split_on, str_eq,
    str_lex_leq, lemma_join_push, digit_char,
};

verus! {

/// The numeric value of a decimal digit character.
pub open spec fn digit_val(c: char) -> int {
    (c as u32) - 48
}

/// The number a run of decimal digits denotes.
pub open spec fn digits_value(s: Seq<char>) -> int
    decreases s.len(),
{
    if s.len() == 0 {
        0
    } else {
        digits_value(s.drop_last()) * 10 + digit_val(s.last())
    }
}

/// A numeric segment: non-empty, decimal digits only.
pub open spec fn is_numeric_seg(s: Seq<char>) -> bool {
    s.len() > 0 && forall|j: int| 0 <= j < s.len() ==> is_digit_char(#[trigger] s[j])
}

/// A leading zero does not change the denoted number.
proof fn lemma_digits_drop_zero(s: Seq<char>)
    requires
        s.len() > 0,
        s[0] == '0',
    ensures
        digits_value(s) == digits_value(s.drop_first()),
    decreases s.len(),
{
    if s.len() == 1 {
        assert(s.drop_first() =~= Seq::<char>::empty());
        assert(s.drop_last() =~= Seq::<char>::empty());
        assert(s.last() == '0');
        assert(digits_value(s.drop_last()) == 0);
        assert(digits_value(s) == digit_val('0'));
    } else {
        lemma_digits_drop_zero(s.drop_last());
        assert(s.drop_last().drop_first() =~= s.drop_first().drop_last());
        assert(s.drop_first().last() == s.last());
    }
}

/// The denoted number is below ten to the number of digits.
proof fn lemma_digits_upper(s: Seq<char>)
    requires
        forall|j: int| 0 <= j < s.len() ==> is_digit_char(#[trigger] s[j]),
    ensures
        digits_value(s) < pow(10, s.len() as nat),
    decreases s.len(),
{
    reveal(pow);
    if s.len() == 0 {
        assert(pow(10, 0) == 1);
    } else {
        lemma_digits_upper(s.drop_last());
        assert(pow(10, s.len() as nat) == 10 * pow(10, (s.len() - 1) as nat));
        assert(digit_val(s.last()) <= 9);
    }
}

/// Without a leading zero, the denoted number reaches ten to one less
/// than the number of digits.
proof fn lemma_digits_lower(s: Seq<char>)
    requires
        is_numeric_seg(s),
        s[0] != '0',
    ensures
        digits_value(s) >= pow(10, (s.len() - 1) as nat),
    decreases s.len(),
{
    reveal(pow);
    if s.len() == 1 {
        assert(pow(10, 0) == 1);
        assert(s.last() == s[0]);
        assert(s.drop_last() =~= Seq::<char>::empty());
        assert(digits_value(s.drop_last()) == 0);
        assert(is_digit_char(s[0]) && s[0] != '0');
        assert(digit_val(s[0]) >= 1);
    } else {
        lemma_digits_lower(s.drop_last());
        assert(pow(10, (s.len() - 1) as nat) == 10 * pow(10, (s.len() - 2) as nat));
        assert(digit_val(s.last()) >= 0);
    }
}

/// For equal-length digit runs, the first differing digit decides.
proof fn lemma_digits_lex(a: Seq<char>, b: Seq<char>, j: int)
    requires
        a.len() == b.len(),
        forall|k: int| 0 <= k < a.len() ==> is_digit_char(#[trigger] a[k]),
        forall|k: int| 0 <= k < b.len() ==> is_digit_char(#[trigger] b[k]),
        0 <= j < a.len(),
        forall|k: int| 0 <= k < j ==> a[k] == b[k],
        digit_val(a[j]) < digit_val(b[j]),
    ensures
        digits_value(a) < digits_value(b),
    decreases a.len(),
{
    if j == a.len() - 1 {
        assert(a.drop_last() =~= b.drop_last());
    } else {
        lemma_digits_lex(a.drop_last(), b.drop_last(), j);
        assert(digit_val(a.last()) <= 9);
        assert(digit_val(b.last()) >= 0);
    }
}

/// Descending lexicographic comparison: the larger sequence sorts
/// first (result `-1` puts the left argument first).
pub open spec fn lex_cmp_desc(a: Seq<char>, b: Seq<char>) -> int {
    if a == b {
        0
    } else if lex_leq(b, a) {
        -1
    } else {
        1
    }
}

/// One step of the version comparison, on the segments from `i` on.
/// Corresponding numeric segments compare by value, the larger one
/// winning; a non-numeric segment on either side falls back to
/// descending lexicographic comparison of the whole remaining tails;
/// when every compared segment ties, the longer version string wins.
pub open spec fn version_cmp_from(
    a: Seq<char>,
    b: Seq<char>,
    asegs: Seq<Seq<char>>,
    bsegs: Seq<Seq<char>>,
    i: int,
) -> int
    decreases asegs.len() - i
        when 0 <= i <= asegs.len()
{
    if i >= asegs.len() || i >= bsegs.len() {
        if a.len() > b.len() {
            -1
        } else if a.len() < b.len() {
            1
        } else {
            0
        }
    } else if is_numeric_seg(asegs[i]) && is_numeric_seg(bsegs[i]) {
        if digits_value(asegs[i]) > digits_value(bsegs[i]) {
            -1
        } else if digits_value(asegs[i]) < digits_value(bsegs[i]) {
            1
        } else {
            version_cmp_from(a, b, asegs, bsegs, i + 1)
        }
    } else {
        lex_cmp_desc(join_with(asegs.skip(i), '.'), join_with(bsegs.skip(i), '.'))
    }
}

/// The version comparator: `-1` sorts `a` first (`a` is the later
/// version), `1` sorts `b` first, `0` is a tie.
pub open spec fn version_cmp(a: Seq<char>, b: Seq<char>) -> int {
    version_cmp_from(a, b, split_on(a, '.'), split_on(b, '.'), 0)
}

/// Whether a string is a non-empty run of decimal digits.
fn seg_is_numeric(s: &str) -> (r: bool)
    ensures
        r == is_numeric_seg(s@),
{
    let n = s.unicode_len();
    if n == 0 {
        return false;
    }
    let mut i: usize = 0;
    while i < n
        invariant
            n == s@.len(),
            0 <= i <= n,
            forall|j: int| 0 <= j < i ==> is_digit_char(#[trigger] s@[j]),
        decreases n - i,
    {
        if !digit_char(s.get_char(i)) {
            return false;
        }
        i += 1;
    }
    true
}

/// Compares two numeric segments by denoted value; `-1` when the left
/// one is larger.
fn cmp_numeric_segs(a: &str, b: &str) -> (r: i32)
    requires
        is_numeric_seg(a@),
        is_numeric_seg(b@),
    ensures
        r as int == if digits_value(a@) > digits_value(b@) {
            -1int
        } else if digits_value(a@) < digits_value(b@) {
            1int
        } else {
            0int
        },
{
    let an = a.unicode_len();
    let bn = b.unicode_len();
    proof {
        assert(a@.skip(0) =~= a@);
        assert(b@.skip(0) =~= b@);
    }
    let mut la: usize = 0;
    while la < an && a.get_char(la) == '0'
        invariant
            an == a@.len(),
            0 <= la <= an,
            digits_value(a@) == digits_value(a@.skip(la as int)),
        decreases an - la,
    {
        proof {
            assert(a@.skip(la as int)[0] == '0');
            lemma_digits_drop_zero(a@.skip(la as int));
            assert(a@.skip(la as int).drop_first() =~= a@.skip(la + 1));
        }
        la += 1;
    }
    let mut lb: usize = 0;
    while lb < bn && b.get_char(lb) == '0'
        invariant
            bn == b@.len(),
            0 <= lb <= bn,
            digits_value(b@) == digits_value(b@.skip(lb as int)),
        decreases bn - lb,
    {
        proof {
            assert(b@.skip(lb as int)[0] == '0');
            lemma_digits_drop_zero(b@.skip(lb as int));
            assert(b@.skip(lb as int).drop_first() =~= b@.skip(lb + 1));
        }
        lb += 1;
    }
    let ea = an - la;
    let eb = bn - lb;
    let ghost effa = a@.skip(la as int);
    let ghost effb = b@.skip(lb as int);
    proof {
        assert(forall|k: int| 0 <= k < effa.len() ==> is_digit_char(#[trigger] effa[k]));
        assert(forall|k: int| 0 <= k < effb.len() ==> is_digit_char(#[trigger] effb[k]));
    }
    if ea > eb {
        proof {
            assert(la < an && a@[la as int] != '0');
            lemma_digits_lower(effa);
            lemma_digits_upper(effb);
            vstd::arithmetic::power::lemma_pow_increases(10, eb as nat, (ea - 1) as nat);
        }
        return -1;
    }
    if ea < eb {
        proof {
            assert(lb < bn && b@[lb as int] != '0');
            lemma_digits_lower(effb);
            lemma_digits_upper(effa);
            vstd::arithmetic::power::lemma_pow_increases(10, ea as nat, (eb - 1) as nat);
        }
        return 1;
    }
    let mut k: usize = 0;
    while k < ea
        invariant
            an == a@.len(),
            bn == b@.len(),
            la <= an,
            lb <= bn,
            ea == an - la,
            eb == bn - lb,
            ea == eb,
            effa == a@.skip(la as int),
            effb == b@.skip(lb as int),
            digits_value(a@) == digits_value(effa),
            digits_value(b@) == digits_value(effb),
            forall|t: int| 0 <= t < effa.len() ==> is_digit_char(#[trigger] effa[t]),
            forall|t: int| 0 <= t < effb.len() ==> is_digit_char(#[trigger] effb[t]),
            0 <= k <= ea,
            forall|t: int| 0 <= t < k ==> effa[t] == effb[t],
        decreases ea - k,
    {
        let ca = a.get_char(la + k);
        let cb = b.get_char(lb + k);
        if ca != cb {
            proof {
                assert(effa[k as int] == ca && effb[k as int] == cb);
                vstd::utf8::char_u32_cast(ca, ca as u32);
                vstd::utf8::char_u32_cast(cb, cb as u32);
                if (ca as u32) < (cb as u32) {
                    lemma_digits_lex(effa, effb, k as int);
                } else {
                    assert((cb as u32) < (ca as u32));
                    lemma_digits_lex(effb, effa, k as int);
                }
            }
            if (ca as u32) < (cb as u32) {
                return 1;
            } else {
                return -1;
            }
        }
        k += 1;
    }
    proof {
        assert(effa =~= effb);
    }
    0
}

/// Joins the segments from `i` on with dots: the remaining tail of the
/// version string.
fn join_tail(segs: &Vec<String>, i: usize) -> (r: String)
    requires
        i <= segs.len(),
    ensures
        r@ == join_with(segs@.map_values(str_view()).skip(i as int), '.'),
{
    let ghost tail = segs@.map_values(str_view()).skip(i as int);
    let mut out = String::new();
    let mut k = i;
    proof {
        assert(tail.take(0) =~= Seq::<Seq<char>>::empty());
    }
    while k < segs.len()
        invariant
            i <= k <= segs.len(),
            tail == segs@.map_values(str_view()).skip(i as int),
            out@ == join_with(tail.take(k - i), '.'),
        decreases segs.len() - k,
    {
        if k > i {
            out.append(".");
            proof {
                reveal_strlit(".");
                assert("."@ =~= seq!['.']);
            }
        }
        out.append(segs[k].as_str());
        proof {
            lemma_join_push(tail.take(k - i), '.', tail[k - i]);
            assert(tail.take(k - i + 1) =~= tail.take(k - i).push(tail[k - i]));
            assert(segs@.map_values(str_view())[k as int] == segs@[k as int]@);
            assert(out@ =~= join_with(tail.take(k - i + 1), '.'));
        }
        k += 1;
    }
    proof {
        assert(tail.take(segs.len() - i) =~= tail);
    }
    out
}

/// Compares two version strings; `-1` sorts the left one first, that
/// is, the left one is the later version.
pub fn compare_versions(a: &str, b: &str) -> (r: i32)
    ensures
        r as int == version_cmp(a@, b@),
{
    let an = a.unicode_len();
    let bn = b.unicode_len();
    let asegs = split_char_range(a, 0, an, '.');
    let bsegs = split_char_range(b, 0, bn, '.');
    let ghost av = asegs@.map_values(str_view());
    let ghost bv = bsegs@.map_values(str_view());
    proof {
        assert(a@.subrange(0, an as int) =~= a@);
        assert(b@.subrange(0, bn as int) =~= b@);
    }
    let mut i: usize = 0;
    loop
        invariant
            an == a@.len(),
            bn == b@.len(),
            av == asegs@.map_values(str_view()),
            bv == bsegs@.map_values(str_view()),
            av == split_on(a@, '.'),
            bv == split_on(b@, '.'),
            asegs.len() == av.len(),
            bsegs.len() == bv.len(),
            0 <= i <= asegs.len(),
            version_cmp(a@, b@) == version_cmp_from(a@, b@, av, bv, i as int),
        decreases asegs.len() - i,
    {
        if i >= asegs.len() || i >= bsegs.len() {
            if an > bn {
                return -1;
            } else if an < bn {
                return 1;
            } else {
                return 0;
            }
        }
        let na = seg_is_numeric(asegs[i].as_str());
        let nb = seg_is_numeric(bsegs[i].as_str());
        if na && nb {
            let c = cmp_numeric_segs(asegs[i].as_str(), bsegs[i].as_str());
            if c != 0 {
                return c;
            }
            proof {
                assert(version_cmp_from(a@, b@, av, bv, i as int) == version_cmp_from(
                    a@,
                    b@,
                    av,
                    bv,
                    i + 1,
                ));
            }
            i += 1;
        } else {
            let ta = join_tail(&asegs, i);
            let tb = join_tail(&bsegs, i);
            if str_eq(ta.as_str(), tb.as_str()) {
                return 0;
            }
            if str_lex_leq(tb.as_str(), ta.as_str()) {
                return -1;
            }
            return 1;
        }
    }
}

/// The latest version of a list: a left fold with the comparator, an
/// earlier element kept on ties.
pub open spec fn latest_spec(versions: Seq<Seq<char>>) -> Option<Seq<char>>
    decreases versions.len(),
{
    if versions.len() == 0 {
        None
    } else if versions.len() == 1 {
        Some(versions[0])
    } else {
        let prior = latest_spec(versions.drop_last())->Some_0;
        if version_cmp(versions.last(), prior) < 0 {
            Some(versions.last())
        } else {
            Some(prior)
        }
    }
}

/// Whether pattern `p` occurs in `s` at position `i`.
pub open spec fn sub_at(s: Seq<char>, i: int, p: Seq<char>) -> bool {
    0 <= i && i + p.len() <= s.len() && s.subrange(i, i + p.len()) == p
}

/// First position at or after `i` where `p` occurs in `s`.
pub open spec fn find_sub_from(s: Seq<char>, p: Seq<char>, i: int) -> Option<int>
    decreases s.len() + 1 - i
        when 0 <= i
{
    if i + p.len() <= s.len() {
        if sub_at(s, i, p) {
            Some(i)
        } else {
            find_sub_from(s, p, i + 1)
        }
    } else {
        None
    }
}

/// An occurrence at `j` with none before it determines `find_sub_from`.
proof fn lemma_find_sub_found(s: Seq<char>, p: Seq<char>, i: int, j: int)
    requires
        0 <= i <= j,
        sub_at(s, j, p),
        forall|k: int| i <= k < j ==> !sub_at(s, k, p),
    ensures
        find_sub_from(s, p, i) == Some(j),
    decreases j - i,
{
    if i < j {
        lemma_find_sub_found(s, p, i + 1, j);
    }
}

/// No occurrence at or after `i` determines `find_sub_from`.
proof fn lemma_find_sub_none(s: Seq<char>, p: Seq<char>, i: int)
    requires
        0 <= i,
        forall|k: int| i <= k ==> !sub_at(s, k, p),
    ensures
        find_sub_from(s, p, i) is None,
    decreases s.len() + 1 - i,
{
    if i + p.len() <= s.len() {
        lemma_find_sub_none(s, p, i + 1);
    }
}

/// Whether `p` matches `s` at position `i`.
fn match_at(s: &str, i: usize, p: &str) -> (r: bool)
    requires
        i + p@.len() <= s@.len(),
    ensures
        r == sub_at(s@, i as int, p@),
{
    let n = s.unicode_len();
    let m = p.unicode_len();
    let mut t: usize = 0;
    while t < m
        invariant
            n == s@.len(),
            m == p@.len(),
            i + m <= n,
            0 <= t <= m,
            forall|k: int| 0 <= k < t ==> s@[i + k] == p@[k],
        decreases m - t,
    {
        if s.get_char(i + t) != p.get_char(t) {
            assert(s@.subrange(i as int, i + m) != p@) by {
                assert(s@.subrange(i as int, i + m)[t as int] != p@[t as int]);
            }
            return false;
        }
        t += 1;
    }
    proof {
        assert(s@.subrange(i as int, i + m) =~= p@);
    }
    true
}

/// First occurrence of `p` at or after `from` in `s`.
fn find_sub(s: &str, from: usize, p: &str) -> (r: Option<usize>)
    requires
        from <= s@.len(),
    ensures
        match r {
            Some(i) => find_sub_from(s@, p@, from as int) == Some(i as int) && from <= i
                && i + p@.len() <= s@.len(),
            None => find_sub_from(s@, p@, from as int) is None,
        },
{
    let n = s.unicode_len();
    let m = p.unicode_len();
    if m == 0 {
        proof {
            assert(s@.subrange(from as int, from as int) =~= p@);
            assert(sub_at(s@, from as int, p@));
            lemma_find_sub_found(s@, p@, from as int, from as int);
        }
        return Some(from);
    }
    let mut i = from;
    while n - i >= m
        invariant
            n == s@.len(),
            m == p@.len(),
            1 <= m,
            from <= i <= n,
            forall|k: int| from <= k < i ==> !sub_at(s@, k, p@),
        decreases n - i,
    {
        if match_at(s, i, p) {
            proof {
                lemma_find_sub_found(s@, p@, from as int, i as int);
            }
            return Some(i);
        }
        i += 1;
    }
    proof {
        assert forall|k: int| from <= k implies !sub_at(s@, k, p@) by {
            if k >= i {
                assert(k + m > n);
            }
        }
        lemma_find_sub_none(s@, p@, from as int);
    }
    None
}

/// A version character as scraped from a listing: a digit or a dot.
pub open spec fn is_scraped_char(c: char) -> bool {
    is_digit_char(c) || c == '.'
}

/// The version token a listing link carries for package `name`, if
/// any: in the part of the link after the last slash, the text between
/// the first `<name>-` and the first following `.tar.gz`, accepted
/// only when it is digits and dots throughout.
pub open spec fn version_of_href(name: Seq<char>, href: Seq<char>) -> Option<Seq<char>> {
    let filename = split_on(href, '/').last();
    let pat = name + seq!['-'];
    match find_sub_from(filename, pat, 0) {
        Some(st) => {
            let rest = filename.skip(st + pat.len());
            match find_sub_from(rest, ".tar.gz"@, 0) {
                Some(e) => {
                    let v = rest.take(e);
                    if forall|k: int| 0 <= k < v.len() ==> is_scraped_char(#[trigger] v[k]) {
                        Some(v)
                    } else {
                        None
                    }
                },
                None => None,
            }
        },
        None => None,
    }
}

/// The version tokens of a sequence of listing links, in order.
pub open spec fn versions_from_hrefs(name: Seq<char>, hrefs: Seq<Seq<char>>) -> Seq<Seq<char>>
    decreases hrefs.len(),
{
    if hrefs.len() == 0 {
        Seq::empty()
    } else {
        versions_from_hrefs(name, hrefs.drop_last()) + (match version_of_href(
            name,
            hrefs.last(),
        ) {
            Some(v) => seq![v],
            None => Seq::empty(),
        })
    }
}

/// Every scraped version token is digits and dots throughout.
pub proof fn lemma_versions_chars(name: Seq<char>, hrefs: Seq<Seq<char>>)
    ensures
        forall|i: int, k: int|
            #![trigger versions_from_hrefs(name, hrefs)[i][k]]
            0 <= i < versions_from_hrefs(name, hrefs).len() && 0 <= k < versions_from_hrefs(
                name,
                hrefs,
            )[i].len() ==> is_scraped_char(versions_from_hrefs(name, hrefs)[i][k]),
    decreases hrefs.len(),
{
    if hrefs.len() > 0 {
        lemma_versions_chars(name, hrefs.drop_last());
        let vs = versions_from_hrefs(name, hrefs);
        let pre = versions_from_hrefs(name, hrefs.drop_last());
        assert forall|i: int, k: int|
            0 <= i < vs.len() && 0 <= k < vs[i].len() implies is_scraped_char(
            #[trigger] vs[i][k]) by {
            if i < pre.len() {
                assert(vs[i] == pre[i]);
                assert(is_scraped_char(pre[i][k]));
            } else {
                match version_of_href(name, hrefs.last()) {
                    Some(v) => {
                        assert(vs[i] == v);
                    },
                    None => {
                        assert(false);
                    },
                }
            }
        }
    }
}

/// The latest version of a non-empty list is one of the list.
pub proof fn lemma_latest_is_element(versions: Seq<Seq<char>>)
    requires
        versions.len() > 0,
    ensures
        latest_spec(versions) is Some,
        versions.contains(latest_spec(versions)->Some_0),
    decreases versions.len(),
{
    if versions.len() == 1 {
        assert(versions[0] == latest_spec(versions)->Some_0);
    } else {
        lemma_latest_is_element(versions.drop_last());
        let prior = latest_spec(versions.drop_last())->Some_0;
        if version_cmp(versions.last(), prior) < 0 {
            assert(versions[versions.len() - 1] == versions.last());
        } else {
            let i = choose|i: int|
                0 <= i < versions.drop_last().len() && versions.drop_last()[i] == prior;
            assert(versions[i] == prior);
        }
    }
}

/// Extracts the version tokens that a page's links carry for `name`.
pub fn extract_versions(name: &str, hrefs: &Vec<String>) -> (r: Vec<String>)
    ensures
        r@.map_values(str_view()) == versions_from_hrefs(
            name@,
            hrefs@.map_values(str_view()),
        ),
{
    let ghost hv = hrefs@.map_values(str_view());
    let mut pat = String::new();
    pat.append(name);
    pat.append("-");
    proof {
        reveal_strlit("-");
        assert("-"@ =~= seq!['-']);
        assert(pat@ =~= name@ + seq!['-']);
    }
    let mut out: Vec<String> = Vec::new();
    proof {
        assert(hv.take(0) =~= Seq::<Seq<char>>::empty());
    }
    let mut i: usize = 0;
    while i < hrefs.len()
        invariant
            hv == hrefs@.map_values(str_view()),
            pat@ == name@ + seq!['-'],
            0 <= i <= hrefs.len(),
            out@.map_values(str_view()) == versions_from_hrefs(name@, hv.take(i as int)),
        decreases hrefs.len() - i,
    {
        let ghost prior = out@.map_values(str_view());
        proof {
            assert(hv.take(i + 1).drop_last() =~= hv.take(i as int));
            assert(hv.take(i + 1).last() == hv[i as int]);
        }
        let href = &hrefs[i];
        proof {
            assert(hv.len() == hrefs.len());
            assert(hv[i as int] == href@);
        }
        let hn = href.as_str().unicode_len();
        let segs = split_char_range(href.as_str(), 0, hn, '/');
        proof {
            assert(href@.subrange(0, hn as int) =~= href@);
            assert(segs@.map_values(str_view()).len() >= 1);
        }
        let filename = &segs[segs.len() - 1];
        proof {
            assert(filename@ == split_on(href@, '/').last());
        }
        match find_sub(filename.as_str(), 0, pat.as_str()) {
            Some(st) => {
                let fn_len = filename.as_str().unicode_len();
                let rest_start = st + pat.as_str().unicode_len();
                let rest = filename.as_str().substring_char(rest_start, fn_len);
                proof {
                    assert(rest@ =~= filename@.skip(rest_start as int));
                }
                match find_sub(rest, 0, ".tar.gz") {
                    Some(e) => {
                        let v = rest.substring_char(0, e);
                        proof {
                            assert(v@ =~= rest@.take(e as int));
                        }
                        let vn = v.unicode_len();
                        let mut ok = true;
                        let mut k: usize = 0;
                        while k < vn
                            invariant
                                vn == v@.len(),
                                0 <= k <= vn,
                                ok == forall|t: int|
                                    0 <= t < k ==> is_scraped_char(#[trigger] v@[t]),
                            decreases vn - k,
                        {
                            let c = v.get_char(k);
                            if !(digit_char(c) || c == '.') {
                                ok = false;
                            }
                            k += 1;
                        }
                        if ok {
                            out.push(String::from_str(v));
                            proof {
                                assert(version_of_href(name@, hv[i as int]) == Some(v@));
                                assert(out@.map_values(str_view()) =~= prior.push(v@));
                                assert(out@.map_values(str_view()) =~= versions_from_hrefs(
                                    name@,
                                    hv.take(i + 1),
                                ));
                            }
                        } else {
                            proof {
                                assert(version_of_href(name@, hv[i as int]) is None);
                            }
                        }
                    },
                    None => {
                        proof {
                            assert(version_of_href(name@, hv[i as int]) is None);
                        }
                    },
                }
            },
            None => {
                proof {
                    assert(version_of_href(name@, hv[i as int]) is None);
                }
            },
        }
        i += 1;
    }
    proof {
        assert(hv.take(hrefs.len() as int) =~= hv);
    }
    out
}

/// The key that marks the current-version field of a direct record.
pub open spec fn version_key() -> Seq<char> {
    "\"version\":"@
}

/// The version a direct record response carries: the first quoted
/// token after the first `"version":` key, accepted when it is a
/// non-empty run of version characters.  A response that is no such
/// record carries none.
pub open spec fn record_version_spec(body: Seq<char>) -> Option<Seq<char>> {
    match find_sub_from(body, version_key(), 0) {
        Some(k) => {
            let q = span_end(body, k + version_key().len(), crate::dependency::space_pred());
            if q < body.len() && body[q] == '"' {
                let e = find_from(body, q + 1, '"');
                if e < body.len() {
                    let v = body.subrange(q + 1, e);
                    if v.len() > 0 && (forall|t: int|
                        0 <= t < v.len() ==> crate::strutil::is_version_char(#[trigger] v[t])) {
                        Some(v)
                    } else {
                        None
                    }
                } else {
                    None
                }
            } else {
                None
            }
        },
        None => None,
    }
}

/// Reads the current-version field of a direct record response.
pub fn record_version(body: &str) -> (r: Option<String>)
    ensures
        match r {
            Some(v) => record_version_spec(body@) == Some(v@),
            None => record_version_spec(body@) is None,
        },
{
    let n = body.unicode_len();
    let key = "\"version\":";
    let m = key.unicode_len();
    match find_sub(body, 0, key) {
        Some(k) => {
            let mut q = k + m;
            while q < n && crate::strutil::space_char(body.get_char(q))
                invariant
                    n == body@.len(),
                    k + m <= q <= n,
                    forall|t: int|
                        k + m <= t < q ==> crate::strutil::is_space_char(#[trigger] body@[t]),
                decreases n - q,
            {
                q += 1;
            }
            proof {
                assert(forall|t: int|
                    k + m <= t < q ==> crate::dependency::space_pred()(#[trigger] body@[t]));
                crate::strutil::lemma_span_end_determined(
                    body@,
                    k + m,
                    q as int,
                    crate::dependency::space_pred(),
                );
            }
            if q < n && body.get_char(q) == '"' {
                let mut e = q + 1;
                while e < n && body.get_char(e) != '"'
                    invariant
                        n == body@.len(),
                        q + 1 <= e <= n,
                        forall|t: int| q + 1 <= t < e ==> body@[t] != '"',
                    decreases n - e,
                {
                    e += 1;
                }
                proof {
                    crate::strutil::lemma_find_from_determined(body@, q + 1, e as int, '"');
                }
                if e < n {
                    let v = body.substring_char(q + 1, e);
                    let vn = v.unicode_len();
                    proof {
                        assert(v@ =~= body@.subrange(q + 1, e as int));
                    }
                    if vn == 0 {
                        return None;
                    }
                    let mut t: usize = 0;
                    #[verifier::loop_isolation(false)]
                    while t < vn
                        invariant
                            vn == v@.len(),
                            0 <= t <= vn,
                            q + 1 <= e <= body@.len(),
                            v@ == body@.subrange(q + 1, e as int),
                            forall|u: int|
                                0 <= u < t ==> crate::strutil::is_version_char(
                                    #[trigger] v@[u]),
                        decreases vn - t,
                    {
                        if !crate::strutil::version_char(v.get_char(t)) {
                            proof {
                                assert(!crate::strutil::is_version_char(
                                    body@.subrange(q + 1, e as int)[t as int]));
                            }
                            return None;
                        }
                        t += 1;
                    }
                    return Some(String::from_str(v));
                }
            }
            None
        },
        None => None,
    }
}

/// The `href` attributes of the anchor elements of an HTML document,
/// in document order: what the scraper finds in an index listing page.
pub uninterp spec fn anchor_hrefs_of(html: Seq<char>) -> Seq<Seq<char>>;

/// Relies on scraper's `Html::parse_document`, `Selector::parse` and
/// `Element::attr`: collects the `href` attribute of every anchor
/// element of the document, in document order.  Parsing and selection
/// are deterministic, so the result is a function of the document text
/// alone, named `anchor_hrefs_of`.
#[verifier::external_body]
fn collect_anchor_hrefs(html: &str) -> (r: Vec<String>)
    ensures
        r@.map_values(str_view()) == anchor_hrefs_of(html@),
{
    let doc = scraper::Html::parse_document(html);
    let mut out: Vec<String> = Vec::new();
    if let Ok(sel) = scraper::Selector::parse("a") {
        for el in doc.select(&sel) {
            if let Some(href) = el.value().attr("href") {
                out.push(href.to_string());
            }
        }
    }
    out
}

/// The version tokens an index listing page offers for a dependency:
/// one for each anchor link that packages it as `<name>-<version>.tar.gz`.
pub fn parse_versions_on_index(dep: &Dependency, html: &str) -> (r: Vec<String>)
    ensures
        r@.map_values(str_view()) == versions_from_hrefs(dep@.name, anchor_hrefs_of(html@)),
{
    let name = dep.name();
    let hrefs = collect_anchor_hrefs(html);
    extract_versions(name.as_str(), &hrefs)
}

/// The version a response yields for `name`: the latest of the
/// listing's version tokens, or, when the listing offers none, the
/// current-version field of a direct record.
pub open spec fn latest_on_page(name: Seq<char>, html: Seq<char>) -> Option<Seq<char>> {
    match latest_spec(versions_from_hrefs(name, anchor_hrefs_of(html))) {
        Some(v) => Some(v),
        None => record_version_spec(html),
    }
}

/// The latest version offered by a response, if there was one and it
/// offers any.
pub open spec fn latest_of_response(name: Seq<char>, response: Option<Seq<char>>) -> Option<
    Seq<char>,
> {
    match response {
        Some(html) => latest_on_page(name, html),
        None => None,
    }
}

/// The specifier a resolution produces: the same name, pinned to the
/// found version with the compatible-release operator, without extras
/// or marker.  An empty version token pins nothing.
pub open spec fn resolved_model(d: DepModel, v: Seq<char>) -> DepModel {
    DepModel {
        name: d.name,
        extras: Seq::empty(),
        version: if v.len() == 0 {
            None
        } else {
            Some((seq!['~', '='], v))
        },
        marker: None,
    }
}

/// The location queried for a dependency on an index: the index base
/// and the package name, slash-separated.
pub open spec fn query_url_spec(index: Seq<char>, name: Seq<char>) -> Seq<char> {
    index + seq!['/'] + name
}

/// What a resolution step asks its driver to do next: fetch a location
/// and hand the body back, or stop with the outcome.
pub enum ResolveStep {
    /// Fetch this location (index number `pos`) and call `resolve`
    /// again with the body, or with nothing on a fetch failure.
    Fetch { pos: usize, url: String },
    /// A version was found and pinned.
    Resolved { dep: Dependency },
    /// Every index failed; the specifier is returned unchanged.
    Unresolved { dep: Dependency },
}

/// The resolver: an ordered list of index locations, the preferred one
/// first, then the default public index, then the extra ones.
pub struct PackageResolver {
    indexes: Vec<String>,
}

impl View for PackageResolver {
    type V = Seq<Seq<char>>;

    closed spec fn view(&self) -> Seq<Seq<char>> {
        self.indexes@.map_values(str_view())
    }
}

impl Clone for PackageResolver {
    /// A clone holds the same index list.
    fn clone(&self) -> (r: Self)
        ensures
            r@ == self@,
    {
        let indexes = self.indexes.clone();
        proof {
            assert(indexes@ =~= self.indexes@);
        }
        PackageResolver { indexes }
    }
}

impl PackageResolver {
    /// A resolver always holds at least one index.
    pub open spec fn wf(&self) -> bool {
        self@.len() >= 1
    }

    /// Builds the index list: the preferred index if one is given, the
    /// default public index, then the extra indexes in caller order.
    pub fn new(extra_indexes: Vec<String>, preferred_index: Option<String>) -> (r: Self)
        ensures
            r@ == (match preferred_index {
                Some(p) => seq![p@],
                None => Seq::<Seq<char>>::empty(),
            }) + seq!["https://pypi.org/simple"@] + extra_indexes@.map_values(str_view()),
            r.wf(),
    {
        let ghost extra_views = extra_indexes@.map_values(str_view());
        let mut v: Vec<String> = Vec::new();
        let ghost po = preferred_index;
        let ghost pref = match po {
            Some(p) => seq![p@],
            None => Seq::<Seq<char>>::empty(),
        };
        match preferred_index {
            Some(p) => {
                v.push(p);
            },
            None => {},
        }
        proof {
            assert(v@.map_values(str_view()) =~= pref);
        }
        v.push(String::from_str("https://pypi.org/simple"));
        let mut extras = extra_indexes;
        v.append(&mut extras);
        let r = PackageResolver { indexes: v };
        proof {
            assert(r@ =~= pref + seq!["https://pypi.org/simple"@] + extra_views);
        }
        r
    }

    /// How many indexes the resolver consults.
    pub fn index_count(&self) -> (n: usize)
        ensures
            n == self@.len(),
    {
        proof {
            assert(self@.len() == self.indexes@.len());
        }
        self.indexes.len()
    }

    /// The location to query for `dep` on index number `pos`.
    fn query_url(&self, pos: usize, dep: &Dependency) -> (r: String)
        requires
            pos < self@.len(),
        ensures
            r@ == query_url_spec(self@[pos as int], dep@.name),
    {
        let mut url = self.indexes[pos].clone();
        url.append("/");
        proof {
            reveal_strlit("/");
            assert("/"@ =~= seq!['/']);
        }
        let name = dep.name();
        url.append(name.as_str());
        proof {
            assert(url@ =~= query_url_spec(self@[pos as int], dep@.name));
        }
        url
    }

    /// Opens a resolution: asks for the first index to be fetched.
    pub fn start_resolve(&self, dep: &Dependency) -> (r: ResolveStep)
        requires
            self.wf(),
        ensures
            match r {
                ResolveStep::Fetch { pos, url } => pos == 0 && url@ == query_url_spec(
                    self@[0],
                    dep@.name,
                ),
                _ => false,
            },
    {
        ResolveStep::Fetch { pos: 0, url: self.query_url(0, dep) }
    }

    /// One resolution step: `response` is the body fetched from index
    /// number `pos` for `dep`, or nothing if the fetch failed.  The
    /// first index whose page offers a version wins and resolution
    /// stops there; an index that offers none is passed over for the
    /// next one; when the last index has failed, the specifier comes
    /// back unchanged.
    pub fn resolve(&self, dep: &Dependency, pos: usize, response: Option<&str>) -> (r: ResolveStep)
        requires
            self.wf(),
            pos < self@.len(),
        ensures
            ({
                let rv = latest_of_response(
                    dep@.name,
                    match response {
                        Some(h) => Some(h@),
                        None => None,
                    },
                );
                match r {
                    ResolveStep::Resolved { dep: d } => rv is Some && d@ == resolved_model(
                        dep@,
                        rv->Some_0,
                    ) && (dep@.wf() ==> d@.wf()),
                    ResolveStep::Fetch { pos: p, url } => rv is None && p == pos + 1 && p
                        < self@.len() && url@ == query_url_spec(self@[p as int], dep@.name),
                    ResolveStep::Unresolved { dep: d } => rv is None && pos + 1 == self@.len()
                        && d@ == dep@,
                }
            }),
    {
        let found: Option<String> = match response {
            Some(html) => {
                let versions = parse_versions_on_index(dep, html);
                let latest = Self::get_latest_version_from_version_str(versions);
                proof {
                    if latest is Some {
                        let ghost vs = versions_from_hrefs(
                            dep@.name,
                            anchor_hrefs_of(response->Some_0@),
                        );
                        lemma_versions_chars(dep@.name, anchor_hrefs_of(response->Some_0@));
                        lemma_latest_is_element(vs);
                    }
                }
                match latest {
                    Some(v) => Some(v),
                    None => record_version(html),
                }
            },
            None => None,
        };
        match found {
            Some(v) => {
                proof {
                    let ghost vv = v@;
                    let ghost vs = versions_from_hrefs(
                        dep@.name,
                        anchor_hrefs_of(response->Some_0@),
                    );
                    if vv.len() > 0 {
                        assert(crate::dependency::wf_version(vv)) by {
                            if latest_spec(vs) is Some {
                                let i = choose|i: int| 0 <= i < vs.len() && vs[i] == vv;
                                assert(forall|k: int|
                                    0 <= k < vv.len() ==> is_scraped_char(#[trigger] vs[i][k]));
                            } else {
                                assert(record_version_spec(response->Some_0@) == Some(vv));
                            }
                        }
                    }
                }
                ResolveStep::Resolved { dep: dep.pinned(v) }
            },
            None => {
                let n = self.indexes.len();
                proof {
                    assert(self@.len() == n);
                    assert(pos < n);
                }
                if pos + 1 < n {
                    ResolveStep::Fetch { pos: pos + 1, url: self.query_url(pos + 1, dep) }
                } else {
                    ResolveStep::Unresolved { dep: dep.clone() }
                }
            },
        }
    }

    /// The latest of a list of version strings: a left fold with the
    /// version comparator, keeping an earlier element on ties.
    pub fn get_latest_version_from_version_str(versions: Vec<String>) -> (r: Option<String>)
        ensures
            match r {
                Some(v) => latest_spec(versions@.map_values(str_view())) == Some(v@),
                None => versions@.len() == 0,
            },
    {
        let ghost vs = versions@.map_values(str_view());
        if versions.len() == 0 {
            return None;
        }
        let mut best = versions[0].clone();
        proof {
            assert(vs.take(1) =~= seq![vs[0]]);
            assert(latest_spec(vs.take(1)) == Some(vs[0]));
        }
        let mut i: usize = 1;
        while i < versions.len()
            invariant
                vs == versions@.map_values(str_view()),
                1 <= i <= versions.len(),
                latest_spec(vs.take(i as int)) == Some(best@),
            decreases versions.len() - i,
        {
            proof {
                assert(vs.take(i + 1).drop_last() =~= vs.take(i as int));
                assert(vs.take(i + 1).last() == vs[i as int]);
                assert(vs.take(i + 1).len() >= 2);
            }
            if compare_versions(versions[i].as_str(), best.as_str()) < 0 {
                best = versions[i].clone();
            }
            i += 1;
        }
        proof {
            assert(vs.take(versions.len() as int) =~= vs);
        }
        Some(best)
    }
}

} // verus!
