//! The version model: parsing a version string, ordering two versions, and
//! writing a version back out as text.
use vstd::prelude::*;
use crate::text::{
    before_first, chars_of, decimal, find_char, has_char, index_of, is_digit,
    flip, is_space, lemma_decimal, lemma_index_of, lemma_lex_cmp_order, lex_cmp, lex_compare, parse_u32, parse_u32_in,
    render_u32, string_of, trim, trim_bounds, trim_end, trim_start,
};
use core::cmp::Ordering;

verus! {

/// A parsed version. `minor` and `patch` are absent when the text did not give
/// them, which is not the same as zero.
#[derive(Debug, Clone, PartialEq, Eq)]
pub struct Version {
    pub major: u32,
    pub minor: Option<u32>,
    pub patch: Option<u32>,
    pub pre_release: Option<String>,
    pub build: Option<String>,
}

/// The mathematical value of a `Version`.
pub struct VersionView {
    pub major: u32,
    pub minor: Option<u32>,
    pub patch: Option<u32>,
    pub pre_release: Option<Seq<char>>,
    pub build: Option<Seq<char>>,
}

pub open spec fn opt_text(o: Option<String>) -> Option<Seq<char>> {
    match o {
        Some(s) => Some(s@),
        None => None,
    }
}

impl View for Version {
    type V = VersionView;

    open spec fn view(&self) -> VersionView {
        VersionView {
            major: self.major,
            minor: self.minor,
            patch: self.patch,
            pre_release: opt_text(self.pre_release),
            build: opt_text(self.build),
        }
    }
}

/// The numeric components of a core version `c`: one to three dot-separated
/// numbers, each as `u32::from_str` reads it.
pub open spec fn parse_core(c: Seq<char>) -> Option<(u32, Option<u32>, Option<u32>)> {
    let d1 = index_of(c, '.');
    if d1 < 0 {
        match parse_u32(c) {
            Some(a) => Some((a, None, None)),
            None => None,
        }
    } else {
        let rest = c.subrange(d1 + 1, c.len() as int);
        let d2 = index_of(rest, '.');
        if d2 < 0 {
            match (parse_u32(c.subrange(0, d1)), parse_u32(rest)) {
                (Some(a), Some(b)) => Some((a, Some(b), None)),
                _ => None,
            }
        } else {
            let tail = rest.subrange(d2 + 1, rest.len() as int);
            if index_of(tail, '.') >= 0 {
                None
            } else {
                match (parse_u32(c.subrange(0, d1)), parse_u32(rest.subrange(0, d2)), parse_u32(tail)) {
                    (Some(a), Some(b), Some(p)) => Some((a, Some(b), Some(p))),
                    _ => None,
                }
            }
        }
    }
}

/// Splits trimmed version text into its core, its pre-release and its build
/// metadata. The first `-` starts the pre-release, in which the first `+`
/// starts the build metadata; without a `-`, the first `+` starts it.
pub open spec fn split_version(s: Seq<char>) -> (Seq<char>, Option<Seq<char>>, Option<Seq<char>>) {
    let dash = index_of(s, '-');
    if dash >= 0 {
        let suffix = s.subrange(dash + 1, s.len() as int);
        let plus = index_of(suffix, '+');
        if plus >= 0 {
            (
                s.subrange(0, dash),
                Some(suffix.subrange(0, plus)),
                Some(suffix.subrange(plus + 1, suffix.len() as int)),
            )
        } else {
            (s.subrange(0, dash), Some(suffix), None)
        }
    } else {
        let plus = index_of(s, '+');
        if plus >= 0 {
            (s, None, Some(s.subrange(plus + 1, s.len() as int)))
        } else {
            (s, None, None)
        }
    }
}

/// The version that `text` spells, if any: the numeric part is the core up to
/// its first `+`.
pub open spec fn parse_version(text: Seq<char>) -> Option<VersionView> {
    let (core, pre, build) = split_version(trim(text));
    match parse_core(before_first(core, '+')) {
        Some((major, minor, patch)) => Some(
            VersionView { major, minor, patch, pre_release: pre, build },
        ),
        None => None,
    }
}

pub open spec fn num_cmp(a: u32, b: u32) -> Ordering {
    if a < b {
        Ordering::Less
    } else if a > b {
        Ordering::Greater
    } else {
        Ordering::Equal
    }
}

/// A release orders after any of its pre-releases; two pre-releases order as
/// their text does.
pub open spec fn pre_cmp(a: Option<Seq<char>>, b: Option<Seq<char>>) -> Ordering {
    match (a, b) {
        (None, None) => Ordering::Equal,
        (Some(_), None) => Ordering::Less,
        (None, Some(_)) => Ordering::Greater,
        (Some(x), Some(y)) => lex_cmp(x, y),
    }
}

/// The order of two versions. A component given on one side only decides
/// nothing, and leaves the two equal; build metadata never counts.
pub open spec fn version_cmp(a: VersionView, b: VersionView) -> Ordering {
    if a.major != b.major {
        num_cmp(a.major, b.major)
    } else {
        match (a.minor, b.minor) {
            (None, None) => pre_cmp(a.pre_release, b.pre_release),
            (Some(x), Some(y)) => {
                if x != y {
                    num_cmp(x, y)
                } else {
                    match (a.patch, b.patch) {
                        (None, None) => pre_cmp(a.pre_release, b.pre_release),
                        (Some(p), Some(q)) => {
                            if p != q {
                                num_cmp(p, q)
                            } else {
                                pre_cmp(a.pre_release, b.pre_release)
                            }
                        },
                        _ => Ordering::Equal,
                    }
                }
            },
            _ => Ordering::Equal,
        }
    }
}

/// `parse_core` of `v[from..to]`.
fn parse_core_in(v: &Vec<char>, from: usize, to: usize) -> (r: Option<(u32, Option<u32>, Option<u32>)>)
    requires
        from <= to <= v@.len(),
    ensures
        r == parse_core(v@.subrange(from as int, to as int)),
{
    let ghost c = v@.subrange(from as int, to as int);
    match find_char(v, from, to, '.') {
        None => {
            assert(index_of(c, '.') < 0);
            match parse_u32_in(v, from, to) {
                Some(a) => Some((a, None, None)),
                None => None,
            }
        },
        Some(d1) => {
            assert(index_of(c, '.') == d1 - from);
            let ghost rest = c.subrange(d1 - from + 1, c.len() as int);
            assert(rest =~= v@.subrange(d1 + 1, to as int));
            assert(c.subrange(0, d1 - from) =~= v@.subrange(from as int, d1 as int));
            let a = parse_u32_in(v, from, d1);
            match find_char(v, d1 + 1, to, '.') {
                None => {
                    assert(index_of(rest, '.') < 0);
                    let b = parse_u32_in(v, d1 + 1, to);
                    match (a, b) {
                        (Some(a), Some(b)) => Some((a, Some(b), None)),
                        _ => None,
                    }
                },
                Some(d2) => {
                    assert(index_of(rest, '.') == d2 - d1 - 1);
                    let ghost tail = rest.subrange(d2 - d1, rest.len() as int);
                    assert(tail =~= v@.subrange(d2 + 1, to as int));
                    assert(rest.subrange(0, d2 - d1 - 1) =~= v@.subrange(d1 + 1, d2 as int));
                    if find_char(v, d2 + 1, to, '.').is_some() {
                        assert(index_of(tail, '.') >= 0);
                        return None;
                    }
                    let b = parse_u32_in(v, d1 + 1, d2);
                    let p = parse_u32_in(v, d2 + 1, to);
                    match (a, b, p) {
                        (Some(a), Some(b), Some(p)) => Some((a, Some(b), Some(p))),
                        _ => None,
                    }
                },
            }
        },
    }
}

impl Version {
    /// Reads a version such as `1`, `1.2`, `1.2.3`, `1.2.3-rc.1+build.5` or
    /// `1.2.3+build.5`. Absent when a numeric component is not a number that
    /// fits in a `u32`, or when there are more than three of them.
    pub fn parse(version_str: &str) -> (r: Option<Version>)
        ensures
            match r {
                Some(v) => parse_version(version_str@) == Some(v@),
                None => parse_version(version_str@) is None,
            },
    {
        let all = chars_of(version_str);
        let (a, b) = trim_bounds(&all);
        let trimmed = version_str.substring_char(a, b);
        let t = chars_of(trimmed);
        let n = t.len();
        let ghost s = t@;
        assert(s == trim(version_str@));
        let mut core_end = n;
        let mut pre_release: Option<String> = None;
        let mut build: Option<String> = None;
        match find_char(&t, 0, n, '-') {
            Some(dash) => {
                assert(s.subrange(0, n as int) =~= s);
                core_end = dash;
                let ghost suffix = s.subrange(dash + 1, n as int);
                match find_char(&t, dash + 1, n, '+') {
                    Some(plus) => {
                        assert(suffix.subrange(0, plus - dash - 1) =~= s.subrange(dash + 1, plus as int));
                        assert(suffix.subrange(plus - dash, suffix.len() as int) =~= s.subrange(plus + 1, n as int));
                        pre_release = Some(string_of(trimmed, dash + 1, plus));
                        build = Some(string_of(trimmed, plus + 1, n));
                    },
                    None => {
                        pre_release = Some(string_of(trimmed, dash + 1, n));
                    },
                }
            },
            None => {
                assert(s.subrange(0, n as int) =~= s);
                match find_char(&t, 0, n, '+') {
                    Some(plus) => {
                        build = Some(string_of(trimmed, plus + 1, n));
                    },
                    None => {},
                }
            },
        }
        let ghost core = s.subrange(0, core_end as int);
        assert(core == split_version(s).0);
        let num_end = match find_char(&t, 0, core_end, '+') {
            Some(p) => p,
            None => core_end,
        };
        assert(core.subrange(0, num_end as int) =~= s.subrange(0, num_end as int));
        assert(num_end == core_end ==> core =~= s.subrange(0, num_end as int));
        assert(before_first(core, '+') == s.subrange(0, num_end as int));
        match parse_core_in(&t, 0, num_end) {
            Some((major, minor, patch)) => Some(Version { major, minor, patch, pre_release, build }),
            None => None,
        }
    }

    /// The order of `self` and `other` (see `version_cmp`).
    pub fn compare(&self, other: &Version) -> (r: Ordering)
        ensures
            r == version_cmp(self@, other@),
    {
        if self.major != other.major {
            return if self.major < other.major {
                Ordering::Less
            } else {
                Ordering::Greater
            };
        }
        match (self.minor, other.minor) {
            (None, None) => compare_pre(&self.pre_release, &other.pre_release),
            (Some(x), Some(y)) => {
                if x != y {
                    if x < y {
                        Ordering::Less
                    } else {
                        Ordering::Greater
                    }
                } else {
                    match (self.patch, other.patch) {
                        (None, None) => compare_pre(&self.pre_release, &other.pre_release),
                        (Some(p), Some(q)) => {
                            if p < q {
                                Ordering::Less
                            } else if p > q {
                                Ordering::Greater
                            } else {
                                compare_pre(&self.pre_release, &other.pre_release)
                            }
                        },
                        _ => Ordering::Equal,
                    }
                }
            },
            _ => Ordering::Equal,
        }
    }
}

fn compare_pre(a: &Option<String>, b: &Option<String>) -> (r: Ordering)
    ensures
        r == pre_cmp(opt_text(*a), opt_text(*b)),
{
    match (a, b) {
        (None, None) => Ordering::Equal,
        (Some(_), None) => Ordering::Less,
        (None, Some(_)) => Ordering::Greater,
        (Some(x), Some(y)) => lex_compare(x.as_str(), y.as_str()),
    }
}

/// The numeric part of a version as text: `major[.minor[.patch]]`; a patch is
/// written only after a minor.
pub open spec fn core_text(v: VersionView) -> Seq<char> {
    decimal(v.major as nat) + match v.minor {
        Some(m) => seq!['.'] + decimal(m as nat) + match v.patch {
            Some(p) => seq!['.'] + decimal(p as nat),
            None => Seq::empty(),
        },
        None => Seq::empty(),
    }
}

pub open spec fn pre_text(v: VersionView) -> Seq<char> {
    match v.pre_release {
        Some(p) => seq!['-'] + p,
        None => Seq::empty(),
    }
}

pub open spec fn build_text(v: VersionView) -> Seq<char> {
    match v.build {
        Some(b) => seq!['+'] + b,
        None => Seq::empty(),
    }
}

/// A version written out: `major[.minor[.patch]][-pre][+build]`.
pub open spec fn render_view(v: VersionView) -> Seq<char> {
    core_text(v) + pre_text(v) + build_text(v)
}

impl Version {
    /// The version as text (see `render_view`).
    pub fn render(&self) -> (r: String)
        ensures
            r@ == render_view(self@),
    {
        proof {
            reveal_strlit(".");
            reveal_strlit("-");
            reveal_strlit("+");
        }
        let mut r = render_u32(self.major);
        match self.minor {
            Some(m) => {
                r = r.concat(".").concat(render_u32(m).as_str());
                match self.patch {
                    Some(p) => {
                        r = r.concat(".").concat(render_u32(p).as_str());
                    },
                    None => {},
                }
            },
            None => {},
        }
        assert(r@ =~= core_text(self@));
        match &self.pre_release {
            Some(p) => {
                r = r.concat("-").concat(p.as_str());
            },
            None => {},
        }
        assert(r@ =~= core_text(self@) + pre_text(self@));
        match &self.build {
            Some(b) => {
                r = r.concat("+").concat(b.as_str());
            },
            None => {},
        }
        assert(r@ =~= render_view(self@));
        r
    }
}

proof fn lemma_index_of_is(s: Seq<char>, c: char, k: int)
    requires
        0 <= k < s.len(),
        s[k] == c,
        forall|j: int| 0 <= j < k ==> s[j] != c,
    ensures
        index_of(s, c) == k,
{
    lemma_index_of(s, c);
    assert(has_char(s, c));
    if index_of(s, c) > k {
        assert(s[k] != c);
    }
}

proof fn lemma_index_of_none(s: Seq<char>, c: char)
    requires
        forall|j: int| 0 <= j < s.len() ==> s[j] != c,
    ensures
        index_of(s, c) == -1,
{
    lemma_index_of(s, c);
    if has_char(s, c) {
        let j = choose|j: int| 0 <= j < s.len() && s[j] == c;
        assert(s[j] != c);
    }
}

proof fn lemma_parse_decimal(n: u32)
    ensures
        parse_u32(decimal(n as nat)) == Some(n),
        forall|i: int| 0 <= i < decimal(n as nat).len() ==> is_digit(#[trigger] decimal(n as nat)[i]),
{
    lemma_decimal(n as nat);
}

/// Every character of the core text is a digit or a dot.
pub open spec fn digits_and_dots(s: Seq<char>) -> bool {
    forall|i: int| 0 <= i < s.len() ==> is_digit(#[trigger] s[i]) || s[i] == '.'
}

proof fn lemma_core_text(v: VersionView)
    requires
        v.patch is Some ==> v.minor is Some,
    ensures
        digits_and_dots(core_text(v)),
        core_text(v).len() > 0,
        is_digit(core_text(v)[0]),
        parse_core(core_text(v)) == Some((v.major, v.minor, v.patch)),
{
    let a = decimal(v.major as nat);
    lemma_parse_decimal(v.major);
    lemma_decimal(v.major as nat);
    let c = core_text(v);
    match v.minor {
        None => {
            assert(c =~= a);
            lemma_index_of_none(c, '.');
        },
        Some(m) => {
            let mm = decimal(m as nat);
            lemma_parse_decimal(m);
            lemma_decimal(m as nat);
            match v.patch {
                None => {
                    assert(c =~= a + seq!['.'] + mm);
                    assert(c[a.len() as int] == '.');
                    lemma_index_of_is(c, '.', a.len() as int);
                    let rest = c.subrange(a.len() as int + 1, c.len() as int);
                    assert(rest =~= mm);
                    lemma_index_of_none(rest, '.');
                    assert(c.subrange(0, a.len() as int) =~= a);
                },
                Some(p) => {
                    let pp = decimal(p as nat);
                    lemma_parse_decimal(p);
                    lemma_decimal(p as nat);
                    assert(c =~= a + seq!['.'] + mm + seq!['.'] + pp);
                    assert(c[a.len() as int] == '.');
                    lemma_index_of_is(c, '.', a.len() as int);
                    let rest = c.subrange(a.len() as int + 1, c.len() as int);
                    assert(rest =~= mm + seq!['.'] + pp);
                    assert(rest[mm.len() as int] == '.');
                    lemma_index_of_is(rest, '.', mm.len() as int);
                    let tail = rest.subrange(mm.len() as int + 1, rest.len() as int);
                    assert(tail =~= pp);
                    lemma_index_of_none(tail, '.');
                    assert(c.subrange(0, a.len() as int) =~= a);
                    assert(rest.subrange(0, mm.len() as int) =~= mm);
                },
            }
        },
    }
}

/// The versions that text written by `render` gives back exactly: a patch only
/// with a minor; no `+` in the pre-release; no `-` in the build metadata when
/// there is no pre-release; and the text not ending in whitespace (which
/// parsing trims).
pub open spec fn renders_faithfully(v: VersionView) -> bool {
    &&& v.patch is Some ==> v.minor is Some
    &&& v.pre_release matches Some(p) ==> !has_char(p, '+')
    &&& v.pre_release is None && v.build is Some ==> !has_char(v.build->0, '-')
    &&& !is_space(render_view(v).last())
}

/// Writing a version out and parsing the text gives back the same major,
/// minor, patch, pre-release and build metadata.
pub proof fn lemma_render_parse_round_trip(v: VersionView)
    requires
        renders_faithfully(v),
    ensures
        parse_version(render_view(v)) == Some(v),
{
    let c = core_text(v);
    let t = render_view(v);
    lemma_core_text(v);
    assert(t.len() > 0);
    assert(t[0] == c[0]);
    assert(trim_start(t) == t);
    assert(trim_end(t) == t);
    assert(trim(t) == t);
    assert forall|i: int| 0 <= i < c.len() implies c[i] != '-' && c[i] != '+' by {
        assert(is_digit(c[i]) || c[i] == '.');
    }
    lemma_index_of_none(c, '+');
    assert(before_first(c, '+') == c);
    match v.pre_release {
        Some(p) => {
            assert(t =~= c + (seq!['-'] + p) + build_text(v));
            assert(t[c.len() as int] == '-');
            lemma_index_of_is(t, '-', c.len() as int);
            let suffix = t.subrange(c.len() as int + 1, t.len() as int);
            assert(suffix =~= p + build_text(v));
            assert(t.subrange(0, c.len() as int) =~= c);
            assert forall|j: int| 0 <= j < p.len() implies p[j] != '+' by {
                if p[j] == '+' {
                    assert(has_char(p, '+'));
                }
            }
            match v.build {
                Some(b) => {
                    assert(suffix[p.len() as int] == '+');
                    lemma_index_of_is(suffix, '+', p.len() as int);
                    assert(suffix.subrange(0, p.len() as int) =~= p);
                    assert(suffix.subrange(p.len() as int + 1, suffix.len() as int) =~= b);
                },
                None => {
                    assert(suffix =~= p);
                    lemma_index_of_none(suffix, '+');
                },
            }
        },
        None => {
            match v.build {
                Some(b) => {
                    assert(t =~= c + (seq!['+'] + b));
                    assert forall|j: int| 0 <= j < b.len() implies b[j] != '-' by {
                        if b[j] == '-' {
                            assert(has_char(b, '-'));
                        }
                    }
                    assert forall|j: int| 0 <= j < t.len() implies t[j] != '-' by {
                        if j < c.len() {
                            assert(t[j] == c[j]);
                        } else if j > c.len() {
                            assert(t[j] == b[j - c.len() - 1]);
                        }
                    }
                    lemma_index_of_none(t, '-');
                    assert(t[c.len() as int] == '+');
                    lemma_index_of_is(t, '+', c.len() as int);
                    assert(t.subrange(c.len() as int + 1, t.len() as int) =~= b);
                    assert(forall|j: int| 0 <= j < c.len() ==> t[j] != '+');
                    assert(t.subrange(0, c.len() as int) =~= c);
                    lemma_index_of(t, '+');
                    assert(before_first(t, '+') =~= c);
                },
                None => {
                    assert(t =~= c);
                    lemma_index_of_none(t, '-');
                    lemma_index_of_none(t, '+');
                },
            }
        },
    }
}

proof fn lemma_pre_cmp_order(a: Option<Seq<char>>, b: Option<Seq<char>>, c: Option<Seq<char>>)
    ensures
        pre_cmp(a, a) == Ordering::Equal,
        pre_cmp(a, b) == flip(pre_cmp(b, a)),
        pre_cmp(a, b) == Ordering::Equal ==> a == b,
        pre_cmp(a, b) == Ordering::Less && pre_cmp(b, c) == Ordering::Less ==> pre_cmp(a, c)
            == Ordering::Less,
{
    match (a, b, c) {
        (Some(x), Some(y), Some(z)) => lemma_lex_cmp_order(x, y, z),
        (Some(x), Some(y), None) => lemma_lex_cmp_order(x, y, y),
        (Some(x), None, _) => lemma_lex_cmp_order(x, x, x),
        (None, Some(y), _) => lemma_lex_cmp_order(y, y, y),
        _ => {},
    }
}

/// `compare` orders versions consistently: every version equals itself,
/// swapping the two sides swaps the result, and "orders before" is
/// transitive.
pub proof fn lemma_version_cmp_order(a: VersionView, b: VersionView, c: VersionView)
    ensures
        version_cmp(a, a) == Ordering::Equal,
        version_cmp(a, b) == flip(version_cmp(b, a)),
        version_cmp(a, b) == Ordering::Less && version_cmp(b, c) == Ordering::Less ==> version_cmp(
            a,
            c,
        ) == Ordering::Less,
{
    lemma_pre_cmp_order(a.pre_release, b.pre_release, c.pre_release);
    lemma_pre_cmp_order(a.pre_release, a.pre_release, a.pre_release);
}

/// Versions written to the same precision (a minor on all or none, a patch on
/// all or none).
pub open spec fn same_precision(a: VersionView, b: VersionView) -> bool {
    a.minor is Some == b.minor is Some && a.patch is Some == b.patch is Some
}

/// Among versions of the same precision, `compare` is a total preorder: being
/// equal in order is transitive, and so is "orders no later than".
pub proof fn lemma_version_cmp_same_precision(a: VersionView, b: VersionView, c: VersionView)
    requires
        same_precision(a, b),
        same_precision(b, c),
    ensures
        version_cmp(a, b) == Ordering::Equal && version_cmp(b, c) == Ordering::Equal ==> version_cmp(
            a,
            c,
        ) == Ordering::Equal,
        version_cmp(a, b) != Ordering::Greater && version_cmp(b, c) != Ordering::Greater
            ==> version_cmp(a, c) != Ordering::Greater,
{
    lemma_pre_cmp_order(a.pre_release, b.pre_release, c.pre_release);
    lemma_pre_cmp_order(b.pre_release, c.pre_release, c.pre_release);
    lemma_pre_cmp_order(a.pre_release, c.pre_release, c.pre_release);
}

} // verus!
