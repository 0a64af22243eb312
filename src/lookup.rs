//! The pure parts of registry lookups: which names to ask for, what an answer
//! means, and joining the answers back onto the dependency records.
use vstd::prelude::*;
use crate::manifest::{texts, views};
use crate::text::{chars_of, is_space, is_space_char, string_of, text_eq};
use crate::types::{CrateInfo, Dependency, DependencyView};
use crate::version::opt_text;

verus! {

/// The names in `s`, each once, in the order of first appearance.
pub open spec fn distinct(s: Seq<Seq<char>>) -> Seq<Seq<char>>
    decreases s.len(),
{
    if s.len() == 0 {
        Seq::empty()
    } else {
        let r = distinct(s.drop_last());
        if r.contains(s.last()) {
            r
        } else {
            r.push(s.last())
        }
    }
}

pub open spec fn names_of(deps: Seq<DependencyView>) -> Seq<Seq<char>> {
    deps.map_values(|d: DependencyView| d.name)
}

pub proof fn lemma_distinct(s: Seq<Seq<char>>)
    ensures
        distinct(s).no_duplicates(),
        forall|x: Seq<char>| distinct(s).contains(x) <==> s.contains(x),
    decreases s.len(),
{
    if s.len() > 0 {
        let p = s.drop_last();
        lemma_distinct(p);
        assert forall|x: Seq<char>| distinct(s).contains(x) <==> s.contains(x) by {
            if p.contains(x) {
                let k = choose|k: int| 0 <= k < p.len() && p[k] == x;
                assert(s[k] == x);
            }
            if s.contains(x) {
                let k = choose|k: int| 0 <= k < s.len() && s[k] == x;
                if k < s.len() - 1 {
                    assert(p[k] == x);
                } else {
                    assert(x == s.last());
                }
            }
            if distinct(s).contains(x) && !distinct(p).contains(x) {
                let k = choose|k: int| 0 <= k < distinct(s).len() && distinct(s)[k] == x;
                assert(k == distinct(p).len());
            }
            if x == s.last() && !distinct(p).contains(x) {
                assert(distinct(s)[distinct(p).len() as int] == x);
            }
            if distinct(p).contains(x) {
                let k = choose|k: int| 0 <= k < distinct(p).len() && distinct(p)[k] == x;
                assert(distinct(s)[k] == x);
            }
        }
    }
}

fn contains_text(v: &Vec<String>, x: &str) -> (r: bool)
    ensures
        r == texts(v@).contains(x@),
{
    let mut i: usize = 0;
    while i < v.len()
        invariant
            i <= v@.len(),
            forall|k: int| 0 <= k < i ==> v@[k]@ != x@,
        decreases v@.len() - i,
    {
        if text_eq(v[i].as_str(), x) {
            assert(texts(v@)[i as int] == x@);
            return true;
        }
        i = i + 1;
    }
    assert(!texts(v@).contains(x@)) by {
        if texts(v@).contains(x@) {
            let k = choose|k: int| 0 <= k < texts(v@).len() && texts(v@)[k] == x@;
            assert(v@[k]@ == x@);
        }
    }
    false
}

/// The names to ask the registry for: every dependency's name, once each.
pub fn unique_names(deps: &Vec<Dependency>) -> (r: Vec<String>)
    ensures
        texts(r@) == distinct(names_of(views(deps@))),
{
    let ghost names = names_of(views(deps@));
    let mut out: Vec<String> = Vec::new();
    let mut i: usize = 0;
    assert(names.subrange(0, 0) =~= Seq::<Seq<char>>::empty());
    assert(texts(out@) =~= Seq::empty());
    while i < deps.len()
        invariant
            names == names_of(views(deps@)),
            names.len() == deps@.len(),
            i <= deps@.len(),
            texts(out@) == distinct(names.subrange(0, i as int)),
        decreases deps@.len() - i,
    {
        let name = &deps[i].name;
        let ghost next = names.subrange(0, i + 1);
        assert(next.drop_last() =~= names.subrange(0, i as int));
        assert(next.last() == name@);
        if !contains_text(&out, name.as_str()) {
            let ghost before = out@;
            out.push(name.clone());
            assert(texts(out@) =~= texts(before).push(name@));
        }
        i = i + 1;
    }
    assert(names.subrange(0, i as int) =~= names);
    out
}

/// The answer for `name` among `(name, answer)` pairs; none where it is missing.
pub open spec fn answer_for(results: Seq<(Seq<char>, Option<Seq<char>>)>, name: Seq<char>) -> Option<Seq<char>>
    decreases results.len(),
{
    if results.len() == 0 {
        None
    } else if results[0].0 == name {
        results[0].1
    } else {
        answer_for(results.drop_first(), name)
    }
}

pub open spec fn answers_view(results: Seq<(String, Option<String>)>) -> Seq<(Seq<char>, Option<Seq<char>>)> {
    results.map_values(|p: (String, Option<String>)| (p.0@, opt_text(p.1)))
}

/// `d` with the answer for its name as its latest version.
pub open spec fn merged(d: DependencyView, results: Seq<(Seq<char>, Option<Seq<char>>)>) -> DependencyView {
    DependencyView { latest_version: answer_for(results, d.name), ..d }
}

fn answer_of(results: &Vec<(String, Option<String>)>, name: &str) -> (r: Option<String>)
    ensures
        opt_text(r) == answer_for(answers_view(results@), name@),
{
    let ghost a = answers_view(results@);
    let mut i: usize = 0;
    assert(a.subrange(0, a.len() as int) =~= a);
    while i < results.len()
        invariant
            a == answers_view(results@),
            i <= results@.len(),
            answer_for(a, name@) == answer_for(a.subrange(i as int, a.len() as int), name@),
        decreases results@.len() - i,
    {
        assert(a.subrange(i as int, a.len() as int)[0] == a[i as int]);
        if text_eq(results[i].0.as_str(), name) {
            return results[i].1.clone();
        }
        assert(a.subrange(i as int, a.len() as int).drop_first() =~= a.subrange(i + 1, a.len() as int));
        i = i + 1;
    }
    None
}

/// Sets each record's latest version to the answer for its name.
pub fn merge_latest(deps: Vec<Dependency>, results: &Vec<(String, Option<String>)>) -> (r: Vec<Dependency>)
    ensures
        views(r@) == views(deps@).map_values(|d: DependencyView| merged(d, answers_view(results@))),
{
    let ghost a = answers_view(results@);
    let ghost target = views(deps@).map_values(|d: DependencyView| merged(d, a));
    let mut out: Vec<Dependency> = Vec::new();
    let ghost all = deps@;
    let mut i: usize = 0;
    let n = deps.len();
    while i < n
        invariant
            n == all.len(),
            i <= n,
            a == answers_view(results@),
            target == views(all).map_values(|d: DependencyView| merged(d, a)),
            deps@ == all,
            views(out@) == target.subrange(0, i as int),
        decreases n - i,
    {
        let d = &deps[i];
        let latest = answer_of(results, d.name.as_str());
        let m = Dependency {
            name: d.name.clone(),
            current_version: d.current_version.clone(),
            latest_version: latest,
            dep_type: d.dep_type,
            source: d.source.clone(),
        };
        let ghost before = out@;
        out.push(m);
        assert(views(out@) =~= views(before).push(m@));
        assert(views(out@) =~= target.subrange(0, i + 1));
        i = i + 1;
    }
    assert(target.subrange(0, n as int) =~= target);
    out
}

/// What one registry answer means: the newest version where the request
/// succeeded and the body was understood; unknown otherwise.
pub fn latest_from_response(success: bool, body: Option<CrateInfo>) -> (r: Option<String>)
    ensures
        match body {
            Some(info) => success ==> opt_text(r) == Some(info.crate_info.max_version@),
            None => r is None,
        },
        !success ==> r is None,
{
    if !success {
        return None;
    }
    match body {
        Some(info) => Some(info.crate_info.max_version),
        None => None,
    }
}

/// The first whitespace-separated word of `s`; all of `s` where it has none.
pub open spec fn first_word(s: Seq<char>) -> Seq<char> {
    let start = first_non_space(s, 0);
    if start >= s.len() {
        s
    } else {
        s.subrange(start, first_space(s, start))
    }
}

/// The first position at or after `i` that holds no whitespace (`s.len()` if none).
pub open spec fn first_non_space(s: Seq<char>, i: int) -> int
    decreases s.len() - i,
{
    if i >= s.len() || i < 0 {
        s.len() as int
    } else if !is_space(s[i]) {
        i
    } else {
        first_non_space(s, i + 1)
    }
}

/// The first position at or after `i` that holds whitespace (`s.len()` if none).
pub open spec fn first_space(s: Seq<char>, i: int) -> int
    decreases s.len() - i,
{
    if i >= s.len() || i < 0 {
        s.len() as int
    } else if is_space(s[i]) {
        i
    } else {
        first_space(s, i + 1)
    }
}

/// The name to query the registry with: the first word of a dependency's name.
pub fn query_name(name: &str) -> (r: String)
    ensures
        r@ == first_word(name@),
{
    let v = chars_of(name);
    let n = v.len();
    let mut i: usize = 0;
    while i < n && is_space_char(v[i])
        invariant
            n == v@.len(),
            v@ == name@,
            i <= n,
            first_non_space(name@, 0) == first_non_space(name@, i as int),
        decreases n - i,
    {
        i = i + 1;
    }
    if i >= n {
        return String::from_str(name);
    }
    let start = i;
    while i < n && !is_space_char(v[i])
        invariant
            n == v@.len(),
            v@ == name@,
            start <= i <= n,
            first_space(name@, start as int) == first_space(name@, i as int),
        decreases n - i,
    {
        i = i + 1;
    }
    string_of(name, start, i)
}

/// The registry address for a dependency's name.
pub fn registry_url(name: &str) -> (r: String)
    ensures
        r@ == "https://crates.io/api/v1/crates/"@ + first_word(name@),
{
    String::from_str("https://crates.io/api/v1/crates/").concat(query_name(name).as_str())
}

/// A name that several records share is asked for once, and every record
/// with that name gets the same latest version from the join.
pub proof fn lemma_one_query_per_name(
    deps: Seq<DependencyView>,
    results: Seq<(Seq<char>, Option<Seq<char>>)>,
    i: int,
    j: int,
)
    requires
        0 <= i < deps.len(),
        0 <= j < deps.len(),
        deps[i].name == deps[j].name,
    ensures
        distinct(names_of(deps)).contains(deps[i].name),
        forall|k: int, l: int|
            0 <= k < distinct(names_of(deps)).len() && 0 <= l < distinct(names_of(deps)).len()
                && distinct(names_of(deps))[k] == deps[i].name && distinct(names_of(deps))[l]
                == deps[i].name ==> k == l,
        deps.map_values(|d: DependencyView| merged(d, results))[i].latest_version == deps.map_values(
            |d: DependencyView| merged(d, results),
        )[j].latest_version,
{
    lemma_distinct(names_of(deps));
    assert(names_of(deps)[i] == deps[i].name);
    assert(names_of(deps).contains(deps[i].name));
}

} // verus!
