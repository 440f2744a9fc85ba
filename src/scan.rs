//! Choosing the candidate files of a directory listing, in a fixed order.
use vstd::multiset::Multiset;
use vstd::prelude::*;

use crate::config::FileRule;
use crate::engine::selected_rule;
use crate::text::{chars_of, names_view};

verus! {

broadcast use vstd::seq_lib::group_to_multiset_ensures;

/// The name of the rule file, which is never a candidate.
pub const CONFIG_FILE_NAME: &'static str = ".mover.json";

/// One entry of a directory listing.
#[derive(Clone, Debug)]
pub struct DirEntry {
    /// The entry's name; `None` where it is not valid text.
    pub name: Option<String>,
    /// Whether the entry is a regular file.
    pub is_file: bool,
}

/// Whether the entry is a candidate: a regular file with a name in text
/// that is not the rule file's.
pub open spec fn is_candidate(e: DirEntry) -> bool {
    e.is_file && e.name is Some && e.name->0@ != CONFIG_FILE_NAME@
}

/// The names of the candidate entries, in listing order.
pub open spec fn candidates(entries: Seq<DirEntry>) -> Seq<Seq<char>>
    decreases entries.len(),
{
    if entries.len() == 0 {
        Seq::empty()
    } else {
        let earlier = candidates(entries.drop_last());
        if is_candidate(entries.last()) {
            earlier.push(entries.last().name->0@)
        } else {
            earlier
        }
    }
}

/// `a` comes before `b`, or equals it, comparing characters by code point
/// (the order of their UTF-8 bytes).
pub open spec fn lex_le(a: Seq<char>, b: Seq<char>) -> bool
    decreases a.len(),
{
    if a.len() == 0 {
        true
    } else if b.len() == 0 {
        false
    } else if a[0] != b[0] {
        a[0] < b[0]
    } else {
        lex_le(a.drop_first(), b.drop_first())
    }
}

/// The names are in ascending order.
pub open spec fn sorted_names(s: Seq<Seq<char>>) -> bool {
    forall|i: int, j: int| 0 <= i < j < s.len() ==> lex_le(#[trigger] s[i], #[trigger] s[j])
}

pub proof fn lemma_lex_le_reflexive(a: Seq<char>)
    ensures
        lex_le(a, a),
    decreases a.len(),
{
    if a.len() > 0 {
        lemma_lex_le_reflexive(a.drop_first());
    }
}

pub proof fn lemma_lex_le_total(a: Seq<char>, b: Seq<char>)
    ensures
        lex_le(a, b) || lex_le(b, a),
    decreases a.len(),
{
    if a.len() > 0 && b.len() > 0 && a[0] == b[0] {
        lemma_lex_le_total(a.drop_first(), b.drop_first());
    }
}

pub proof fn lemma_lex_le_transitive(a: Seq<char>, b: Seq<char>, c: Seq<char>)
    requires
        lex_le(a, b),
        lex_le(b, c),
    ensures
        lex_le(a, c),
    decreases a.len(),
{
    if a.len() > 0 && b.len() > 0 && c.len() > 0 && a[0] == b[0] && b[0] == c[0] {
        lemma_lex_le_transitive(a.drop_first(), b.drop_first(), c.drop_first());
    }
}

pub proof fn lemma_lex_le_antisymmetric(a: Seq<char>, b: Seq<char>)
    requires
        lex_le(a, b),
        lex_le(b, a),
    ensures
        a == b,
    decreases a.len(),
{
    if a.len() > 0 && b.len() > 0 {
        lemma_lex_le_antisymmetric(a.drop_first(), b.drop_first());
        assert(a =~= seq![a[0]] + a.drop_first());
        assert(b =~= seq![b[0]] + b.drop_first());
    } else {
        assert(a.len() == 0 && b.len() == 0);
        assert(a =~= b);
    }
}

/// Two ascending sequences of the same names are the same sequence.
pub proof fn lemma_sorted_names_unique(s1: Seq<Seq<char>>, s2: Seq<Seq<char>>)
    requires
        sorted_names(s1),
        sorted_names(s2),
        s1.to_multiset() == s2.to_multiset(),
    ensures
        s1 == s2,
    decreases s1.len(),
{
    if s1.len() == 0 {
        assert(s2.to_multiset().len() == 0);
        assert(s1 =~= s2);
    } else {
        assert(s2.len() == s2.to_multiset().len());
        assert(s1.len() == s1.to_multiset().len());
        assert(s1.to_multiset().count(s1[0]) > 0) by {
            assert(s1.contains(s1[0]));
        }
        assert(s2.contains(s1[0]));
        let k = choose|k: int| 0 <= k < s2.len() && s2[k] == s1[0];
        assert(s2.to_multiset().count(s2[0]) > 0) by {
            assert(s2.contains(s2[0]));
        }
        assert(s1.contains(s2[0]));
        let m = choose|m: int| 0 <= m < s1.len() && s1[m] == s2[0];
        lemma_lex_le_reflexive(s1[0]);
        lemma_lex_le_reflexive(s2[0]);
        assert(lex_le(s1[0], s2[0])) by {
            if m > 0 {
                assert(lex_le(s1[0], s1[m]));
            }
        }
        assert(lex_le(s2[0], s1[0])) by {
            if k > 0 {
                assert(lex_le(s2[0], s2[k]));
            }
        }
        lemma_lex_le_antisymmetric(s1[0], s2[0]);
        assert(s1.remove(0) =~= s1.drop_first());
        assert(s2.remove(0) =~= s2.drop_first());
        let r1 = s1.drop_first();
        let r2 = s2.drop_first();
        assert(sorted_names(r1)) by {
            assert forall|i: int, j: int| 0 <= i < j < r1.len() implies lex_le(r1[i], r1[j]) by {
                assert(lex_le(s1[i + 1], s1[j + 1]));
            }
        }
        assert(sorted_names(r2)) by {
            assert forall|i: int, j: int| 0 <= i < j < r2.len() implies lex_le(r2[i], r2[j]) by {
                assert(lex_le(s2[i + 1], s2[j + 1]));
            }
        }
        lemma_sorted_names_unique(r1, r2);
        assert(s1 =~= seq![s1[0]] + r1);
        assert(s2 =~= seq![s2[0]] + r2);
    }
}

/// Whether `e` is a candidate named `n`.
pub open spec fn is_candidate_named(e: DirEntry, n: Seq<char>) -> bool {
    is_candidate(e) && e.name->0@ == n
}

proof fn lemma_candidate_count(entries: Seq<DirEntry>, n: Seq<char>)
    ensures
        candidates(entries).to_multiset().count(n) == entries.to_multiset().filter(
            |e: DirEntry| is_candidate_named(e, n),
        ).len(),
    decreases entries.len(),
{
    broadcast use vstd::multiset::group_multiset_axioms;

    let p = |e: DirEntry| is_candidate_named(e, n);
    if entries.len() == 0 {
        assert(entries.to_multiset() =~= Multiset::empty());
        assert(entries.to_multiset().filter(p) =~= Multiset::empty());
    } else {
        let rest = entries.drop_last();
        let x = entries.last();
        lemma_candidate_count(rest, n);
        assert(entries =~= rest.push(x));
        let m = rest.to_multiset();
        assert(entries.to_multiset() == m.insert(x));
        if p(x) {
            assert(m.insert(x).filter(p) =~= m.filter(p).insert(x));
        } else {
            assert(m.insert(x).filter(p) =~= m.filter(p));
        }
    }
}

/// The candidates of two listings of the same entries, in whatever order,
/// are the same names.
pub proof fn lemma_candidates_of_same_entries(first: Seq<DirEntry>, second: Seq<DirEntry>)
    requires
        first.to_multiset() == second.to_multiset(),
    ensures
        candidates(first).to_multiset() == candidates(second).to_multiset(),
{
    assert forall|n: Seq<char>|
        candidates(first).to_multiset().count(n) == candidates(second).to_multiset().count(
            n,
        ) by {
        lemma_candidate_count(first, n);
        lemma_candidate_count(second, n);
    }
    assert(candidates(first).to_multiset() =~= candidates(second).to_multiset());
}

/// Rescanning an unchanged directory gives the same candidates in the same
/// order, however the listing was ordered, and so the same rule decisions.
///
/// `first` and `second` stand for what the scan returned on the listings
/// `listed_first` and `listed_second` of the same entries.
pub proof fn lemma_rescan_is_stable(
    listed_first: Seq<DirEntry>,
    listed_second: Seq<DirEntry>,
    first: Seq<Seq<char>>,
    second: Seq<Seq<char>>,
    rules: Seq<FileRule>,
)
    requires
        listed_first.to_multiset() == listed_second.to_multiset(),
        sorted_names(first),
        first.to_multiset() == candidates(listed_first).to_multiset(),
        sorted_names(second),
        second.to_multiset() == candidates(listed_second).to_multiset(),
    ensures
        first == second,
        forall|i: int|
            0 <= i < first.len() ==> selected_rule(rules, #[trigger] first[i]) == selected_rule(
                rules,
                second[i],
            ),
{
    lemma_candidates_of_same_entries(listed_first, listed_second);
    lemma_sorted_names_unique(first, second);
}

/// Whether the two character sequences are equal.
fn same_chars(a: &Vec<char>, b: &Vec<char>) -> (r: bool)
    ensures
        r == (a@ == b@),
{
    if a.len() != b.len() {
        return false;
    }
    let mut k: usize = 0;
    while k < a.len()
        invariant
            a@.len() == b@.len(),
            k <= a@.len(),
            forall|j: int| 0 <= j < k ==> a@[j] == b@[j],
        decreases a@.len() - k,
    {
        if a[k] != b[k] {
            return false;
        }
        k = k + 1;
    }
    assert(a@ =~= b@);
    true
}

/// Whether `a` comes before `b` or equals it.
pub fn name_le(a: &str, b: &str) -> (r: bool)
    ensures
        r == lex_le(a@, b@),
{
    let x = chars_of(a);
    let y = chars_of(b);
    let mut k: usize = 0;
    assert(a@.skip(0) =~= a@);
    assert(b@.skip(0) =~= b@);
    while k < x.len() && k < y.len()
        invariant
            x@ == a@,
            y@ == b@,
            k <= x@.len(),
            k <= y@.len(),
            lex_le(a@, b@) == lex_le(a@.skip(k as int), b@.skip(k as int)),
        decreases x@.len() - k,
    {
        if x[k] != y[k] {
            return x[k] < y[k];
        }
        assert(a@.skip(k as int).drop_first() =~= a@.skip(k + 1));
        assert(b@.skip(k as int).drop_first() =~= b@.skip(k + 1));
        k = k + 1;
    }
    k == x.len()
}

/// The candidate names of a directory listing, in ascending order.
pub fn select_candidates(entries: &Vec<DirEntry>) -> (r: Vec<String>)
    ensures
        sorted_names(names_view(r@)),
        names_view(r@).to_multiset() == candidates(entries@).to_multiset(),
{
    let config_name = chars_of(CONFIG_FILE_NAME);
    let mut out: Vec<String> = Vec::new();
    let mut i: usize = 0;
    while i < entries.len()
        invariant
            config_name@ == CONFIG_FILE_NAME@,
            i <= entries@.len(),
            sorted_names(names_view(out@)),
            names_view(out@).to_multiset() == candidates(entries@.subrange(0, i as int)).to_multiset(),
        decreases entries@.len() - i,
    {
        let ghost seen = entries@.subrange(0, i as int + 1);
        assert(seen.drop_last() =~= entries@.subrange(0, i as int));
        assert(seen.last() == entries@[i as int]);
        let entry = &entries[i];
        if entry.is_file {
            match &entry.name {
                Some(n) => {
                    let name_chars = chars_of(n.as_str());
                    if !same_chars(&name_chars, &config_name) {
                        let mut p: usize = 0;
                        while p < out.len() && name_le(out[p].as_str(), n.as_str())
                            invariant
                                p <= out@.len(),
                                forall|j: int| 0 <= j < p ==> lex_le(#[trigger] out@[j]@, n@),
                            decreases out@.len() - p,
                        {
                            p = p + 1;
                        }
                        let ghost before = names_view(out@);
                        proof {
                            if p < out@.len() {
                                lemma_lex_le_total(out@[p as int]@, n@);
                            }
                        }
                        out.insert(p, n.clone());
                        assert(names_view(out@) =~= before.insert(p as int, n@));
                        assert(sorted_names(names_view(out@))) by {
                            let v = names_view(out@);
                            assert forall|a: int, b: int| 0 <= a < b < v.len() implies lex_le(
                                v[a],
                                v[b],
                            ) by {
                                if a < p && b == p {
                                } else if a == p && b > p {
                                    if b > p + 1 {
                                        assert(lex_le(before[p as int], before[b - 1]));
                                        lemma_lex_le_transitive(n@, before[p as int], before[b - 1]);
                                    }
                                } else if a < p && b > p {
                                    assert(lex_le(before[a], before[b - 1]));
                                } else if a > p {
                                    assert(lex_le(before[a - 1], before[b - 1]));
                                }
                            }
                        }
                    }
                },
                None => {},
            }
        }
        i = i + 1;
    }
    assert(entries@.subrange(0, i as int) =~= entries@);
    out
}

} // verus!
