//! The dependency specifier: a package name, an optional bracketed list
//! of extras, an optional version constraint and an optional environment
//! marker.  A specifier is parsed from a declaration string and can be
//! serialized back; two specifiers are the same dependency exactly when
//! their names agree up to ASCII case.
use vstd::prelude::*;
use vstd::std_specs::cmp::PartialEqSpec;

use crate::strutil::{
    dedup, find_from, is_name_char, is_space_char, is_version_char, lex_leq, lex_leq_fn, lower,
    name_char, space_char, span_end, split_on, trim, version_char, lemma_dedup_elements,
    lemma_dedup_no_duplicates, lemma_find_from, lemma_find_from_determined, lemma_span_end,
    lemma_span_end_determined, lemma_split_on_elements, lemma_trim_chars, lemma_trim_fixed,
    lemma_trim_range, lemma_trim_trimmed,
};

pub use crate::strutil::str_view;

verus! {

/// The mathematical value of a specifier.
#[verifier::ext_equal]
pub struct DepModel {
    pub name: Seq<char>,
    pub extras: Seq<Seq<char>>,
    pub version: Option<(Seq<char>, Seq<char>)>,
    pub marker: Option<Seq<char>>,
}

/// The predicate for name characters, as a function value.
pub open spec fn name_pred() -> spec_fn(char) -> bool {
    |c: char| is_name_char(c)
}

/// The predicate for whitespace, as a function value.
pub open spec fn space_pred() -> spec_fn(char) -> bool {
    |c: char| is_space_char(c)
}

/// The predicate for version characters, as a function value.
pub open spec fn version_pred() -> spec_fn(char) -> bool {
    |c: char| is_version_char(c)
}

/// Trimming, as a function value.
pub open spec fn trim_fn() -> spec_fn(Seq<char>) -> Seq<char> {
    |e: Seq<char>| trim(e)
}

/// The comparator operators the grammar accepts.
pub open spec fn is_op_token(op: Seq<char>) -> bool {
    ||| op == seq!['~', '=']
    ||| op == seq!['=', '=']
    ||| op == seq!['=', '=', '=']
    ||| op == seq!['!', '=']
    ||| op == seq!['<', '=']
    ||| op == seq!['>', '=']
    ||| op == seq!['<']
    ||| op == seq!['>']
    ||| op == seq!['^']
}

/// A well-formed extra: free of the list delimiters and already trimmed.
pub open spec fn wf_extra(e: Seq<char>) -> bool {
    &&& !e.contains(',')
    &&& !e.contains(']')
    &&& trim(e) == e
}

/// A well-formed version token: non-empty, version characters only.
pub open spec fn wf_version(v: Seq<char>) -> bool {
    &&& v.len() > 0
    &&& forall|j: int| 0 <= j < v.len() ==> is_version_char(#[trigger] v[j])
}

impl DepModel {
    /// Structural well-formedness: what parsing guarantees and what
    /// serialization relies on.
    pub open spec fn wf(self) -> bool {
        &&& self.name.len() > 0
        &&& forall|j: int| 0 <= j < self.name.len() ==> is_name_char(#[trigger] self.name[j])
        &&& forall|i: int| 0 <= i < self.extras.len() ==> wf_extra(#[trigger] self.extras[i])
        &&& self.extras.no_duplicates()
        &&& match self.version {
            Some((op, v)) => is_op_token(op) && wf_version(v),
            None => true,
        }
        &&& match self.marker {
            Some(m) => m.len() > 0 && trim(m) == m,
            None => true,
        }
    }

    /// The identity of a dependency: its name, lower-cased.
    pub open spec fn key(self) -> Seq<char> {
        lower(self.name)
    }
}

/// Length of the comparator operator found at position `q`, if any.
/// The three-character operator is tried first, then the two-character
/// ones, then the single-character ones.
pub open spec fn op_len_at(s: Seq<char>, q: int) -> Option<int> {
    if q + 3 <= s.len() && s[q] == '=' && s[q + 1] == '=' && s[q + 2] == '=' {
        Some(3)
    } else if q + 2 <= s.len() && s[q + 1] == '=' && (s[q] == '~' || s[q] == '=' || s[q] == '!'
        || s[q] == '<' || s[q] == '>') {
        Some(2)
    } else if q + 1 <= s.len() && (s[q] == '<' || s[q] == '>' || s[q] == '^') {
        Some(1)
    } else {
        None
    }
}

/// The extras clause starting at `i`: a bracketed, comma-separated list
/// immediately after the name.  Returns the extras (each trimmed, first
/// occurrences kept) and the position after the closing bracket.  An
/// unclosed bracket yields no extras and leaves the position unchanged.
pub open spec fn parse_extras_spec(s: Seq<char>, i: int) -> (Seq<Seq<char>>, int) {
    if 0 <= i < s.len() && s[i] == '[' {
        let close = find_from(s, i + 1, ']');
        if close < s.len() {
            (dedup(split_on(s.subrange(i + 1, close), ',').map_values(trim_fn())), close + 1)
        } else {
            (Seq::empty(), i)
        }
    } else {
        (Seq::empty(), i)
    }
}

/// The version clause starting at `i`: optional whitespace, an operator,
/// optional whitespace, then a non-empty version token.  If the token is
/// missing the clause is not taken and the position is unchanged.
pub open spec fn parse_version_spec(s: Seq<char>, i: int) -> (Option<(Seq<char>, Seq<char>)>, int) {
    let q = span_end(s, i, space_pred());
    match op_len_at(s, q) {
        Some(oplen) => {
            let r = span_end(s, q + oplen, space_pred());
            let e = span_end(s, r, version_pred());
            if e > r {
                (Some((s.subrange(q, q + oplen), s.subrange(r, e))), e)
            } else {
                (None, i)
            }
        },
        None => (None, i),
    }
}

/// The marker clause starting at `i`: optional whitespace, a literal
/// `;`, then everything to the end of the string, trimmed.  A marker
/// that trims to nothing is treated as absent.
pub open spec fn parse_marker_spec(s: Seq<char>, i: int) -> Option<Seq<char>> {
    let q = span_end(s, i, space_pred());
    if q < s.len() && s[q] == ';' {
        let m = trim(s.skip(q + 1));
        if m.len() > 0 {
            Some(m)
        } else {
            None
        }
    } else {
        None
    }
}

/// Parses a dependency declaration.  The string must begin with a
/// maximal non-empty run of name characters; everything the clauses
/// after the name do not match is ignored.
pub open spec fn parse_spec(s: Seq<char>) -> Option<DepModel> {
    let ne = span_end(s, 0, name_pred());
    if ne == 0 {
        None
    } else {
        let (extras, p1) = parse_extras_spec(s, ne);
        let (version, p2) = parse_version_spec(s, p1);
        let marker = parse_marker_spec(s, p2);
        Some(DepModel { name: s.take(ne), extras, version, marker })
    }
}

/// Parsing succeeds exactly when the string starts with a name character.
pub proof fn lemma_parse_some_iff(s: Seq<char>)
    ensures
        parse_spec(s) is Some <==> s.len() > 0 && is_name_char(s[0]),
{
    lemma_span_end(s, 0, name_pred());
    if s.len() > 0 && is_name_char(s[0]) {
        assert(name_pred()(s[0]));
        assert(span_end(s, 0, name_pred()) > 0);
    }
}

/// Everything `parse_spec` returns is well formed.
pub proof fn lemma_parse_wf(s: Seq<char>)
    requires
        parse_spec(s) is Some,
    ensures
        parse_spec(s)->Some_0.wf(),
{
    let d = parse_spec(s)->Some_0;
    let ne = span_end(s, 0, name_pred());
    lemma_span_end(s, 0, name_pred());
    assert(forall|j: int| 0 <= j < ne ==> is_name_char(#[trigger] s.take(ne)[j]));

    // extras
    if 0 <= ne < s.len() && s[ne] == '[' && find_from(s, ne + 1, ']') < s.len() {
        lemma_find_from(s, ne + 1, ']');
        let close = find_from(s, ne + 1, ']');
        let inner = s.subrange(ne + 1, close);
        assert(!inner.contains(']')) by {
            if inner.contains(']') {
                let j = choose|j: int| 0 <= j < inner.len() && inner[j] == ']';
                assert(s[ne + 1 + j] == ']');
            }
        }
        let raw = split_on(inner, ',');
        lemma_split_on_elements(inner, ',');
        let trimmed = raw.map_values(trim_fn());
        assert forall|i: int| 0 <= i < trimmed.len() implies wf_extra(#[trigger] trimmed[i]) by {
            assert(trimmed[i] == trim(raw[i]));
            lemma_trim_chars(raw[i]);
            lemma_trim_trimmed(raw[i]);
            assert(!raw[i].contains(','));
            if trim(raw[i]).contains(',') {
                assert(raw[i].contains(','));
            }
            if trim(raw[i]).contains(']') {
                assert(raw[i].contains(']'));
                assert(inner.contains(']'));
            }
        }
        lemma_dedup_elements(trimmed);
        assert forall|i: int| 0 <= i < d.extras.len() implies wf_extra(#[trigger] d.extras[i]) by {
            assert(d.extras == dedup(trimmed));
            assert(d.extras.contains(d.extras[i]));
            assert(trimmed.contains(d.extras[i]));
            let j = choose|j: int| 0 <= j < trimmed.len() && trimmed[j] == d.extras[i];
            assert(wf_extra(trimmed[j]));
        }
    }

    // version
    let (extras, p1) = parse_extras_spec(s, ne);
    let (version, p2) = parse_version_spec(s, p1);
    assert(0 <= p1 <= s.len()) by {
        if 0 <= ne < s.len() && s[ne] == '[' {
            lemma_find_from(s, ne + 1, ']');
        }
    }
    match version {
        Some((op, v)) => {
            let q = span_end(s, p1, space_pred());
            lemma_span_end(s, p1, space_pred());
            let oplen = op_len_at(s, q)->Some_0;
            let r = span_end(s, q + oplen, space_pred());
            lemma_span_end(s, q + oplen, space_pred());
            let e = span_end(s, r, version_pred());
            lemma_span_end(s, r, version_pred());
            assert(is_op_token(op)) by {
                if oplen == 3 {
                    assert(op =~= seq!['=', '=', '=']);
                } else if oplen == 2 {
                    if s[q] == '~' {
                        assert(op =~= seq!['~', '=']);
                    } else if s[q] == '=' {
                        assert(op =~= seq!['=', '=']);
                    } else if s[q] == '!' {
                        assert(op =~= seq!['!', '=']);
                    } else if s[q] == '<' {
                        assert(op =~= seq!['<', '=']);
                    } else {
                        assert(op =~= seq!['>', '=']);
                    }
                } else {
                    if s[q] == '<' {
                        assert(op =~= seq!['<']);
                    } else if s[q] == '>' {
                        assert(op =~= seq!['>']);
                    } else {
                        assert(op =~= seq!['^']);
                    }
                }
            }
            assert(wf_version(v)) by {
                assert(forall|j: int| 0 <= j < v.len() ==> version_pred()(#[trigger] v[j]));
            }
        },
        None => {},
    }

    // marker
    match d.marker {
        Some(m) => {
            let q = span_end(s, p2, space_pred());
            lemma_trim_trimmed(s.skip(q + 1));
            lemma_trim_fixed(m);
        },
        None => {},
    }
}

/// The extras clause of a serialized specifier: nothing, or the extras
/// sorted ascending, comma-joined, in brackets.
pub open spec fn extras_clause(extras: Seq<Seq<char>>) -> Seq<char> {
    if extras.len() == 0 {
        Seq::empty()
    } else {
        seq!['['] + crate::strutil::join_with(extras.sort_by(lex_leq_fn()), ',') + seq![']']
    }
}

/// The version clause of a serialized specifier: nothing, or the
/// operator directly followed by the version.
pub open spec fn version_clause(version: Option<(Seq<char>, Seq<char>)>) -> Seq<char> {
    match version {
        Some((op, v)) => op + v,
        None => Seq::empty(),
    }
}

/// The marker clause of a serialized specifier: nothing, or `; ` and
/// the marker.
pub open spec fn marker_clause(marker: Option<Seq<char>>) -> Seq<char> {
    match marker {
        Some(m) => seq![';', ' '] + m,
        None => Seq::empty(),
    }
}

/// Serialization: the exact inverse composition of the grammar.
pub open spec fn repr_spec(d: DepModel) -> Seq<char> {
    d.name + extras_clause(d.extras) + version_clause(d.version) + marker_clause(d.marker)
}

/// Sorts a vector of strings lexicographically by insertion.
fn sort_strings(v: &Vec<String>) -> (r: Vec<String>)
    ensures
        r@.map_values(str_view()) == v@.map_values(str_view()).sort_by(lex_leq_fn()),
{
    let ghost vs = v@.map_values(str_view());
    let ghost leq = lex_leq_fn();
    let mut out: Vec<String> = Vec::new();
    proof {
        assert(out@.map_values(str_view()) =~= vs.take(0));
    }
    let mut i: usize = 0;
    while i < v.len()
        invariant
            0 <= i <= v.len(),
            vs == v@.map_values(str_view()),
            leq == lex_leq_fn(),
            vstd::relations::sorted_by(out@.map_values(str_view()), leq),
            out@.map_values(str_view()).to_multiset() == vs.take(i as int).to_multiset(),
        decreases v.len() - i,
    {
        let ghost old_views = out@.map_values(str_view());
        let x = v[i].clone();
        let mut j: usize = 0;
        loop
            invariant
                0 <= j <= out.len(),
                old_views == out@.map_values(str_view()),
                old_views.len() == out.len(),
                x@ == vs[i as int],
                0 <= i < vs.len(),
                forall|k: int| 0 <= k < j ==> lex_leq(#[trigger] old_views[k], x@),
            ensures
                0 <= j <= out.len(),
                old_views == out@.map_values(str_view()),
                x@ == vs[i as int],
                forall|k: int| 0 <= k < j ==> lex_leq(#[trigger] old_views[k], x@),
                j < out.len() ==> !lex_leq(old_views[j as int], x@),
            decreases out.len() - j,
        {
            if j >= out.len() {
                break;
            }
            if !crate::strutil::str_lex_leq(out[j].as_str(), x.as_str()) {
                break;
            }
            j += 1;
        }
        out.insert(j, x);
        proof {
            let new_views = out@.map_values(str_view());
            assert(new_views =~= old_views.insert(j as int, x@));
            assert forall|p: int, q: int| 0 <= p < q < new_views.len() implies leq(
                new_views[p],
                new_views[q],
            ) by {
                if q < j {
                    assert(leq(old_views[p], old_views[q]));
                } else if p >= j + 1 {
                    assert(new_views[p] == old_views[p - 1]);
                    assert(new_views[q] == old_views[q - 1]);
                    assert(leq(old_views[p - 1], old_views[q - 1]));
                } else if p < j && q == j {
                    assert(new_views[p] == old_views[p]);
                    assert(new_views[q] == x@);
                    assert(lex_leq(old_views[p], x@));
                    assert(leq(old_views[p], x@) == lex_leq(old_views[p], x@));
                } else if p == j && q > j {
                    assert(new_views[p] == x@);
                    assert(new_views[q] == old_views[q - 1]);
                    assert(j < old_views.len());
                    assert(!lex_leq(old_views[j as int], x@));
                    crate::strutil::lemma_lex_leq_connected(x@, old_views[j as int]);
                    assert(lex_leq(x@, old_views[j as int]));
                    if q - 1 > j {
                        assert(leq(old_views[j as int], old_views[q - 1]));
                        assert(lex_leq(old_views[j as int], old_views[q - 1])
                            == leq(old_views[j as int], old_views[q - 1]));
                        crate::strutil::lemma_lex_leq_trans(
                            x@,
                            old_views[j as int],
                            old_views[q - 1],
                        );
                    }
                    assert(lex_leq(x@, old_views[q - 1]));
                    assert(leq(x@, old_views[q - 1]) == lex_leq(x@, old_views[q - 1]));
                } else {
                    assert(p < j && q > j);
                    assert(new_views[p] == old_views[p]);
                    assert(new_views[q] == old_views[q - 1]);
                    assert(leq(old_views[p], old_views[q - 1]));
                }
            }
            vstd::seq_lib::to_multiset_insert(old_views, j as int, x@);
            vs.take(i as int).to_multiset_ensures();
            assert(vs.take(i + 1).drop_last() =~= vs.take(i as int));
            assert(vs.take(i + 1) =~= vs.take(i as int).push(vs[i as int]));
        }
        i += 1;
    }
    proof {
        assert(vs.take(v.len() as int) =~= vs);
        crate::strutil::lemma_lex_leq_total_ordering();
        vs.lemma_sort_by_ensures(leq);
        vstd::seq_lib::lemma_sorted_unique(out@.map_values(str_view()), vs.sort_by(leq), leq);
    }
    out
}

/// Format round-trip: re-parsing a well-formed specifier's serialized
/// form yields the specifier back, field for field, provided its extras
/// are listed in sorted order (serialization sorts them, so any other
/// order cannot survive a round trip verbatim).
#[verifier::rlimit(100)]
pub proof fn lemma_repr_parses_back(d: DepModel)
    requires
        d.wf(),
        vstd::relations::sorted_by(d.extras, lex_leq_fn()),
    ensures
        parse_spec(repr_spec(d)) == Some(d),
{
    let s = repr_spec(d);
    let nl = d.name.len() as int;
    let bs = extras_clause(d.extras);
    let vs = version_clause(d.version);
    let ms = marker_clause(d.marker);
    assert(s == d.name + bs + vs + ms);
    let tail = bs + vs + ms;
    assert(s =~= d.name + tail);

    // The serialized extras use the extras themselves: they are sorted.
    if d.extras.len() > 0 {
        crate::strutil::lemma_lex_leq_total_ordering();
        d.extras.lemma_sort_by_ensures(lex_leq_fn());
        vstd::seq_lib::lemma_sorted_unique(
            d.extras.sort_by(lex_leq_fn()),
            d.extras,
            lex_leq_fn(),
        );
        assert(d.extras.sort_by(lex_leq_fn()) == d.extras);
        assert(bs == seq!['['] + crate::strutil::join_with(d.extras, ',') + seq![']']);
    }

    // The first character after the name, if any, is never a name
    // character: `[`, an operator character, or `;`.
    assert(tail.len() > 0 ==> !is_name_char(tail[0])) by {
        if bs.len() > 0 {
            assert(tail[0] == '[');
        } else if vs.len() > 0 {
            match d.version {
                Some((op, v)) => {
                    assert(tail[0] == op[0]);
                    assert(is_op_token(op));
                    assert(!is_name_char(op[0]));
                },
                None => {},
            }
        } else if ms.len() > 0 {
            assert(tail[0] == ';');
        }
    }

    // Name.
    assert(forall|k: int| 0 <= k < nl ==> name_pred()(#[trigger] s[k]) == is_name_char(
        d.name[k]));
    lemma_span_end_determined(s, 0, nl, name_pred());
    assert(span_end(s, 0, name_pred()) == nl);
    assert(s.take(nl) =~= d.name);

    // Extras.
    let p1 = nl + bs.len() as int;
    assert(parse_extras_spec(s, nl) == (d.extras, p1)) by {
        if d.extras.len() > 0 {
            let jn = crate::strutil::join_with(d.extras, ',');
            assert(s[nl] == '[');
            crate::strutil::lemma_join_with_chars(d.extras, ',');
            assert(forall|k: int| nl + 1 <= k < nl + 1 + jn.len() ==> s[k] == jn[k - nl - 1]);
            assert forall|k: int| nl + 1 <= k < nl + 1 + jn.len() implies s[k] != ']' by {
                if jn[k - nl - 1] == ']' {
                    assert(jn.contains(']')) by {
                        assert(jn[k - nl - 1] == ']');
                    }
                    assert(!(']' == ','));
                    let i = choose|i: int|
                        0 <= i < d.extras.len() && (#[trigger] d.extras[i]).contains(']');
                    assert(wf_extra(d.extras[i]));
                }
            }
            let close = nl + 1 + jn.len() as int;
            assert(s[close] == ']');
            lemma_find_from_determined(s, nl + 1, close, ']');
            assert(s.subrange(nl + 1, close) =~= jn);
            crate::strutil::lemma_split_join(d.extras, ',');
            assert(split_on(jn, ',') == d.extras);
            assert(split_on(jn, ',').map_values(trim_fn()) =~= d.extras) by {
                assert forall|i: int| 0 <= i < d.extras.len() implies trim_fn()(
                    #[trigger] d.extras[i]) == d.extras[i] by {
                    assert(wf_extra(d.extras[i]));
                }
            }
            lemma_dedup_no_duplicates(d.extras);
            assert(close + 1 == p1);
        } else {
            assert(bs.len() == 0);
            if nl < s.len() {
                assert(s[nl] == tail[0]);
                assert(tail[0] != '[') by {
                    if vs.len() > 0 {
                        match d.version {
                            Some((op, v)) => {
                                assert(tail[0] == op[0]);
                                assert(op[0] != '[');
                            },
                            None => {},
                        }
                    } else if ms.len() > 0 {
                        assert(tail[0] == ';');
                    }
                }
            }
        }
    }

    // Version.
    let p2 = p1 + vs.len() as int;
    assert(parse_version_spec(s, p1) == (d.version, if vs.len() > 0 { p2 } else { p1 })) by {
        match d.version {
            Some((op, v)) => {
                let ol = op.len() as int;
                assert(forall|k: int| 0 <= k < ol ==> s[p1 + k] == op[k]);
                assert(forall|k: int| 0 <= k < v.len() ==> s[p1 + ol + k] == v[k]);
                assert(is_op_token(op) && wf_version(v));
                assert(!is_space_char(op[0]));
                lemma_span_end_determined(s, p1, p1, space_pred());
                assert(is_version_char(v[0]));
                assert(v[0] != '=' && !is_space_char(v[0]));
                assert(s[p1 + ol] == v[0]);
                assert(op_len_at(s, p1) == Some(ol)) by {
                    if op == seq!['=', '=', '='] {
                        assert(s[p1] == '=' && s[p1 + 1] == '=' && s[p1 + 2] == '=');
                    } else if op == seq!['=', '='] {
                        assert(s[p1] == '=' && s[p1 + 1] == '=');
                        assert(s[p1 + 2] == v[0]);
                    } else if op.len() == 2 {
                        assert(s[p1] != '=');
                        assert(s[p1 + 1] == '=');
                    } else {
                        assert(op == seq!['<'] || op == seq!['>'] || op == seq!['^']);
                        assert(s[p1] != '=');
                        assert(s[p1 + 1] == v[0]);
                    }
                }
                lemma_span_end_determined(s, p1 + ol, p1 + ol, space_pred());
                assert(forall|k: int|
                    p1 + ol <= k < p2 ==> version_pred()(#[trigger] s[k]) == is_version_char(
                        v[k - p1 - ol]));
                assert(p2 < s.len() ==> s[p2] == ms[0] && ms.len() > 0);
                assert(p2 < s.len() ==> !is_version_char(s[p2])) by {
                    if ms.len() > 0 {
                        assert(ms[0] == ';');
                    }
                }
                lemma_span_end_determined(s, p1 + ol, p2, version_pred());
                assert(s.subrange(p1, p1 + ol) =~= op);
                assert(s.subrange(p1 + ol, p2) =~= v);
            },
            None => {
                assert(vs.len() == 0);
                if p1 < s.len() {
                    assert(s[p1] == ms[0] && ms.len() > 0);
                    assert(s[p1] == ';');
                    lemma_span_end_determined(s, p1, p1, space_pred());
                    assert(op_len_at(s, p1) is None);
                } else {
                    lemma_span_end_determined(s, p1, p1, space_pred());
                    assert(op_len_at(s, p1) is None);
                }
            },
        }
    }
    let p2a = if vs.len() > 0 { p2 } else { p1 };
    assert(p2a == nl + bs.len() + vs.len());

    // Marker.
    assert(parse_marker_spec(s, p2a) == d.marker) by {
        match d.marker {
            Some(m) => {
                assert(ms == seq![';', ' '] + m);
                assert(s[p2a] == ';');
                lemma_span_end_determined(s, p2a, p2a, space_pred());
                assert(s.skip(p2a + 1) =~= seq![' '] + m);
                let sm = seq![' '] + m;
                assert(is_space_char(sm[0]));
                assert(sm.drop_first() =~= m);
                assert(trim(sm) == trim(m));
                assert(trim(sm) == m);
            },
            None => {
                assert(ms.len() == 0);
                assert(p2a == s.len());
                lemma_span_end_determined(s, p2a, p2a, space_pred());
            },
        }
    }

    assert(parse_spec(s) == Some(DepModel {
        name: s.take(nl),
        extras: d.extras,
        version: d.version,
        marker: d.marker,
    }));
    assert(parse_spec(s)->Some_0 =~= d);
}

/// For a string in canonical serialized form (sorted extras), parsing
/// succeeds and re-serializing the result yields the string unchanged.
pub proof fn lemma_parse_then_repr(s: Seq<char>, d: DepModel)
    requires
        d.wf(),
        vstd::relations::sorted_by(d.extras, lex_leq_fn()),
        s == repr_spec(d),
    ensures
        parse_spec(s) is Some,
        repr_spec(parse_spec(s)->Some_0) == s,
{
    lemma_repr_parses_back(d);
}

/// Two specifiers whose names differ only in ASCII case are equal, and
/// share one identity key (the lower-cased name, which is what equality
/// and hashing go by).
pub proof fn lemma_eq_ignores_case(a: &Dependency, b: &Dependency)
    requires
        lower(a@.name) == lower(b@.name),
    ensures
        a.eq_spec(b),
        b.eq_spec(a),
        a@.key() == b@.key(),
{
}

/// Copies the trimmed middle of a string.
fn trim_str(s: &str) -> (r: String)
    ensures
        r@ == trim(s@),
{
    let n = s.unicode_len();
    let mut lo: usize = 0;
    while lo < n && space_char(s.get_char(lo))
        invariant
            n == s@.len(),
            0 <= lo <= n,
            forall|k: int| 0 <= k < lo ==> is_space_char(#[trigger] s@[k]),
        decreases n - lo,
    {
        lo += 1;
    }
    if lo == n {
        proof {
            crate::strutil::lemma_trim_all_space(s@);
        }
        return String::new();
    }
    let mut hi: usize = n;
    while hi > lo && space_char(s.get_char(hi - 1))
        invariant
            n == s@.len(),
            lo <= hi <= n,
            lo < n,
            !is_space_char(s@[lo as int]),
            forall|k: int| hi <= k < n ==> is_space_char(#[trigger] s@[k]),
        decreases hi,
    {
        hi -= 1;
    }
    assert(hi > lo);
    proof {
        lemma_trim_range(s@, lo as int, hi as int);
    }
    String::from_str(s.substring_char(lo, hi))
}

/// Trims every string of a vector.
fn trim_all(v: &Vec<String>) -> (r: Vec<String>)
    ensures
        r@.map_values(str_view()) == v@.map_values(str_view()).map_values(trim_fn()),
{
    let mut out: Vec<String> = Vec::new();
    let mut i: usize = 0;
    while i < v.len()
        invariant
            0 <= i <= v.len(),
            out.len() == i,
            out@.map_values(str_view()) == v@.map_values(str_view()).map_values(
                trim_fn(),
            ).take(i as int),
        decreases v.len() - i,
    {
        let ghost old_out = out@;
        let t = trim_str(v[i].as_str());
        out.push(t);
        proof {
            let mapped = v@.map_values(str_view()).map_values(trim_fn());
            assert(v@.map_values(str_view())[i as int] == v@[i as int]@);
            assert(mapped[i as int] == trim_fn()(v@.map_values(str_view())[i as int]));
            assert(t@ == mapped[i as int]);
            assert(out@ == old_out.push(t));
            assert(out@.map_values(str_view()) =~= old_out.map_values(str_view()).push(t@));
            assert(mapped.take(i as int + 1) =~= mapped.take(i as int).push(mapped[i as int]));
        }
        i += 1;
    }
    proof {
        assert(v@.map_values(str_view()).map_values(trim_fn()).take(v.len() as int) =~= v@
            .map_values(str_view()).map_values(trim_fn()));
    }
    out
}

/// Length of the comparator operator at `q`, if any.
fn op_len_exec(s: &str, q: usize, n: usize) -> (r: Option<usize>)
    requires
        n == s@.len(),
        q <= n,
    ensures
        match r {
            Some(l) => op_len_at(s@, q as int) == Some(l as int) && 1 <= l && q + l <= n,
            None => op_len_at(s@, q as int) is None,
        },
{
    if n - q >= 3 && s.get_char(q) == '=' && s.get_char(q + 1) == '=' && s.get_char(q + 2) == '=' {
        return Some(3);
    }
    if n - q >= 2 && s.get_char(q + 1) == '=' {
        let c = s.get_char(q);
        if c == '~' || c == '=' || c == '!' || c == '<' || c == '>' {
            return Some(2);
        }
    }
    if n - q >= 1 {
        let c = s.get_char(q);
        if c == '<' || c == '>' || c == '^' {
            return Some(1);
        }
    }
    None
}

/// A dependency specifier.
#[derive(Debug)]
pub struct Dependency {
    name: String,
    extras: Vec<String>,
    version_spec: Option<(String, String)>,
    markers: Option<String>,
}

impl View for Dependency {
    type V = DepModel;

    closed spec fn view(&self) -> DepModel {
        DepModel {
            name: self.name@,
            extras: self.extras@.map_values(str_view()),
            version: match self.version_spec {
                Some(v) => Some((v.0@, v.1@)),
                None => None,
            },
            marker: match self.markers {
                Some(m) => Some(m@),
                None => None,
            },
        }
    }
}

impl Clone for Dependency {
    /// A clone carries the same value.
    fn clone(&self) -> (r: Self)
        ensures
            r@ == self@,
    {
        let extras = self.extras.clone();
        proof {
            assert(extras@ =~= self.extras@);
        }
        let r = Dependency {
            name: self.name.clone(),
            extras,
            version_spec: match &self.version_spec {
                Some(v) => Some((v.0.clone(), v.1.clone())),
                None => None,
            },
            markers: match &self.markers {
                Some(m) => Some(m.clone()),
                None => None,
            },
        };
        proof {
            assert(r@ =~= self@);
        }
        r
    }
}

impl PartialEq for Dependency {
    /// Two specifiers are the same dependency exactly when their names
    /// agree up to ASCII case; extras, version and marker do not count.
    fn eq(&self, other: &Self) -> (r: bool) {
        crate::strutil::str_eq_ci(self.name.as_str(), other.name.as_str())
    }
}

impl vstd::std_specs::cmp::PartialEqSpecImpl for Dependency {
    open spec fn obeys_eq_spec() -> bool {
        true
    }

    open spec fn eq_spec(&self, other: &Dependency) -> bool {
        self@.key() == other@.key()
    }
}

impl Dependency {
    /// The package name, in its original case.
    pub fn name(&self) -> (r: String)
        ensures
            r@ == self@.name,
    {
        self.name.clone()
    }

    /// The extras, in order of first appearance in the declaration.
    pub fn extras(&self) -> (r: &Vec<String>)
        ensures
            r@.map_values(str_view()) == self@.extras,
    {
        &self.extras
    }

    /// The version constraint, as an (operator, version) pair.
    pub fn version_spec(&self) -> (r: &Option<(String, String)>)
        ensures
            match r {
                Some(v) => self@.version == Some((v.0@, v.1@)),
                None => self@.version is None,
            },
    {
        &self.version_spec
    }

    /// The environment marker, stored verbatim (trimmed).
    pub fn markers(&self) -> (r: &Option<String>)
        ensures
            match r {
                Some(m) => self@.marker == Some(m@),
                None => self@.marker is None,
            },
    {
        &self.markers
    }

    /// Serializes the specifier: name, bracketed sorted extras if any,
    /// operator and version if any, then `; ` and the marker if any.
    pub fn to_dependency_repr(&self) -> (r: String)
        ensures
            r@ == repr_spec(self@),
    {
        let mut out = self.name.clone();
        if self.extras.len() > 0 {
            let sorted = sort_strings(&self.extras);
            let ghost sorted_views = self.extras@.map_values(str_view()).sort_by(lex_leq_fn());
            out.append("[");
            proof {
                reveal_strlit("[");
                assert("["@ =~= seq!['[']);
            }
            let mut i: usize = 0;
            while i < sorted.len()
                invariant
                    sorted@.map_values(str_view()) == sorted_views,
                    sorted.len() == sorted_views.len(),
                    0 <= i <= sorted.len(),
                    out@ == self@.name + seq!['['] + crate::strutil::join_with(
                        sorted_views.take(i as int),
                        ',',
                    ),
                decreases sorted.len() - i,
            {
                if i > 0 {
                    out.append(",");
                    proof {
                        reveal_strlit(",");
                        assert(","@ =~= seq![',']);
                    }
                }
                out.append(sorted[i].as_str());
                proof {
                    crate::strutil::lemma_join_push(
                        sorted_views.take(i as int),
                        ',',
                        sorted_views[i as int],
                    );
                    assert(sorted_views.take(i + 1) =~= sorted_views.take(i as int).push(
                        sorted_views[i as int]));
                    assert(sorted@.map_values(str_view())[i as int] == sorted@[i as int]@);
                    assert(out@ =~= self@.name + seq!['['] + crate::strutil::join_with(
                        sorted_views.take(i + 1),
                        ',',
                    ));
                }
                i += 1;
            }
            out.append("]");
            proof {
                reveal_strlit("]");
                assert("]"@ =~= seq![']']);
                assert(sorted_views.take(sorted_views.len() as int) =~= sorted_views);
                assert(self@.extras.len() > 0);
                assert(out@ =~= self@.name + extras_clause(self@.extras));
            }
        } else {
            proof {
                assert(self@.extras.len() == 0);
                assert(out@ =~= self@.name + extras_clause(self@.extras));
            }
        }
        let ghost head = self@.name + extras_clause(self@.extras);
        match &self.version_spec {
            Some(v) => {
                out.append(v.0.as_str());
                out.append(v.1.as_str());
                proof {
                    assert(out@ =~= head + version_clause(self@.version));
                }
            },
            None => {
                proof {
                    assert(out@ =~= head + version_clause(self@.version));
                }
            },
        }
        let ghost head2 = head + version_clause(self@.version);
        match &self.markers {
            Some(m) => {
                out.append("; ");
                out.append(m.as_str());
                proof {
                    reveal_strlit("; ");
                    assert("; "@ =~= seq![';', ' ']);
                    assert(out@ =~= head2 + marker_clause(self@.marker));
                }
            },
            None => {
                proof {
                    assert(out@ =~= head2 + marker_clause(self@.marker));
                }
            },
        }
        proof {
            assert(out@ =~= repr_spec(self@));
        }
        out
    }

    /// A fresh specifier for the same package pinning `version` with
    /// the compatible-release operator; extras and markers are not
    /// carried over.  An empty version yields an unconstrained
    /// specifier.
    pub fn pinned(&self, version: String) -> (r: Dependency)
        ensures
            r@ == (DepModel {
                name: self@.name,
                extras: Seq::empty(),
                version: if version@.len() == 0 {
                    None
                } else {
                    Some((seq!['~', '='], version@))
                },
                marker: None,
            }),
            self@.wf() && (version@.len() > 0 ==> wf_version(version@)) ==> r@.wf(),
    {
        let name = self.name.clone();
        let r = if version.as_str().unicode_len() == 0 {
            Dependency { name, extras: Vec::new(), version_spec: None, markers: None }
        } else {
            let op = String::from_str("~=");
            proof {
                reveal_strlit("~=");
                assert("~="@ =~= seq!['~', '=']);
            }
            Dependency { name, extras: Vec::new(), version_spec: Some((op, version)), markers: None }
        };
        proof {
            assert(r@.extras =~= Seq::<Seq<char>>::empty());
            assert(r@.extras.no_duplicates());
        }
        r
    }

    /// Parses a dependency declaration string.
    pub fn parse(input: &str) -> (r: Option<Dependency>)
        ensures
            match r {
                Some(d) => parse_spec(input@) == Some(d@) && d@.wf(),
                None => parse_spec(input@) is None,
            },
    {
        let n = input.unicode_len();
        // Name: a maximal non-empty run of name characters at the start.
        let mut ne: usize = 0;
        while ne < n && name_char(input.get_char(ne))
            invariant
                n == input@.len(),
                0 <= ne <= n,
                forall|k: int| 0 <= k < ne ==> is_name_char(#[trigger] input@[k]),
            decreases n - ne,
        {
            ne += 1;
        }
        proof {
            assert(forall|k: int| 0 <= k < ne ==> name_pred()(#[trigger] input@[k]));
            lemma_span_end_determined(input@, 0, ne as int, name_pred());
        }
        if ne == 0 {
            return None;
        }
        let name = String::from_str(input.substring_char(0, ne));
        let mut pos: usize = ne;

        // Extras: a bracketed comma-separated list immediately after the name.
        let mut extras: Vec<String> = Vec::new();
        if pos < n && input.get_char(pos) == '[' {
            let mut j = pos + 1;
            while j < n && input.get_char(j) != ']'
                invariant
                    n == input@.len(),
                    pos + 1 <= j <= n,
                    forall|k: int| pos + 1 <= k < j ==> input@[k] != ']',
                decreases n - j,
            {
                j += 1;
            }
            proof {
                lemma_find_from_determined(input@, pos + 1, j as int, ']');
            }
            if j < n {
                let raw = crate::strutil::split_char_range(input, pos + 1, j, ',');
                let trimmed = trim_all(&raw);
                extras = crate::strutil::dedup_strings(&trimmed);
                pos = j + 1;
            }
        }

        // Version: optional whitespace, an operator, optional whitespace,
        // then a non-empty version token; otherwise nothing is consumed.
        let ghost p1 = pos as int;
        let mut version_spec: Option<(String, String)> = None;
        let mut q = pos;
        while q < n && space_char(input.get_char(q))
            invariant
                n == input@.len(),
                pos <= q <= n,
                forall|k: int| pos <= k < q ==> is_space_char(#[trigger] input@[k]),
            decreases n - q,
        {
            q += 1;
        }
        proof {
            assert(forall|k: int| p1 <= k < q ==> space_pred()(#[trigger] input@[k]));
            lemma_span_end_determined(input@, p1, q as int, space_pred());
        }
        match op_len_exec(input, q, n) {
            Some(oplen) => {
                let mut r = q + oplen;
                while r < n && space_char(input.get_char(r))
                    invariant
                        n == input@.len(),
                        q + oplen <= r <= n,
                        forall|k: int| q + oplen <= k < r ==> is_space_char(#[trigger] input@[k]),
                    decreases n - r,
                {
                    r += 1;
                }
                proof {
                    assert(forall|k: int|
                        q + oplen <= k < r ==> space_pred()(#[trigger] input@[k]));
                    lemma_span_end_determined(input@, q + oplen, r as int, space_pred());
                }
                let mut e = r;
                while e < n && version_char(input.get_char(e))
                    invariant
                        n == input@.len(),
                        r <= e <= n,
                        forall|k: int| r <= k < e ==> is_version_char(#[trigger] input@[k]),
                    decreases n - e,
                {
                    e += 1;
                }
                proof {
                    assert(forall|k: int| r <= k < e ==> version_pred()(#[trigger] input@[k]));
                    lemma_span_end_determined(input@, r as int, e as int, version_pred());
                }
                if e > r {
                    let op = String::from_str(input.substring_char(q, q + oplen));
                    let ver = String::from_str(input.substring_char(r, e));
                    version_spec = Some((op, ver));
                    pos = e;
                }
            },
            None => {},
        }

        // Marker: optional whitespace, `;`, then the rest, trimmed.
        let ghost p2 = pos as int;
        let mut markers: Option<String> = None;
        let mut m = pos;
        while m < n && space_char(input.get_char(m))
            invariant
                n == input@.len(),
                pos <= m <= n,
                forall|k: int| pos <= k < m ==> is_space_char(#[trigger] input@[k]),
            decreases n - m,
        {
            m += 1;
        }
        proof {
            assert(forall|k: int| p2 <= k < m ==> space_pred()(#[trigger] input@[k]));
            lemma_span_end_determined(input@, p2, m as int, space_pred());
        }
        if m < n && input.get_char(m) == ';' {
            let tail = trim_str(input.substring_char(m + 1, n));
            if tail.as_str().unicode_len() > 0 {
                proof {
                    assert(input@.subrange(m + 1, n as int) =~= input@.skip(m + 1));
                }
                markers = Some(tail);
            } else {
                proof {
                    assert(input@.subrange(m + 1, n as int) =~= input@.skip(m + 1));
                }
            }
        }

        let d = Dependency { name, extras, version_spec, markers };
        proof {
            assert(d@ =~= parse_spec(input@)->Some_0);
            lemma_parse_wf(input@);
        }
        Some(d)
    }
}

} // verus!
