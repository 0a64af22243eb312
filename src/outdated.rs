//! Whether a declared requirement has fallen behind the latest published version.
use vstd::prelude::*;
use crate::requirement::{parse_version_requirement, requirement_body, requirement_operator};
use crate::text::{chars_of, trim, trim_bounds};
use crate::version::{parse_version, version_cmp, Version, VersionView};
use core::cmp::Ordering;

verus! {

/// `>=`, `<=`, `>` and `<`: requirements that a single latest version never
/// makes stale.
pub open spec fn is_range_operator(op: Seq<char>) -> bool {
    op == seq!['>', '='] || op == seq!['<', '='] || op == seq!['>'] || op == seq!['<']
}

/// Equal in every component but build metadata.
pub open spec fn same_release(a: VersionView, b: VersionView) -> bool {
    a.major == b.major && a.minor == b.minor && a.patch == b.patch && a.pre_release
        == b.pre_release
}

/// Tilde requirements go stale when the major version moves, or the minor
/// version where both sides give one.
pub open spec fn tilde_outdated(req: VersionView, latest: VersionView) -> bool {
    req.major != latest.major || (req.minor is Some && latest.minor is Some && req.minor
        != latest.minor)
}

/// Whether requirement text `req` is outdated against latest version text
/// `latest`. The wildcard `*` never is. Where the requirement's version body or
/// the latest version does not parse, the two texts are compared as they are.
/// Otherwise: tilde as `tilde_outdated`; `=` when the releases differ (build
/// metadata aside); range operators never; caret and bare versions when the
/// requirement orders before the latest version.
pub open spec fn outdated(req: Seq<char>, latest: Seq<char>) -> bool {
    if trim(req) == seq!['*'] {
        false
    } else {
        let op = requirement_operator(req);
        let body = requirement_body(req);
        match (parse_version(body), parse_version(latest)) {
            (Some(r), Some(l)) => {
                if op == seq!['~'] {
                    tilde_outdated(r, l)
                } else if op == seq!['='] {
                    !same_release(r, l)
                } else if is_range_operator(op) {
                    false
                } else {
                    version_cmp(r, l) == Ordering::Less
                }
            },
            _ => body != latest,
        }
    }
}

/// Decides whether requirement `current_req` is outdated against
/// `latest_version`; never fails.
pub fn is_version_outdated(current_req: &str, latest_version: &str) -> (r: bool)
    ensures
        r == outdated(current_req@, latest_version@),
{
    let all = chars_of(current_req);
    let (a, b) = trim_bounds(&all);
    if b - a == 1 && all[a] == '*' {
        assert(trim(current_req@) =~= seq!['*']);
        return false;
    }
    assert(trim(current_req@) != seq!['*']) by {
        if trim(current_req@) == seq!['*'] {
            assert(all@.subrange(a as int, b as int)[0] == '*');
        }
    }
    let req = match parse_version_requirement(current_req) {
        Some(q) => q,
        None => {
            return false;
        },
    };
    let body = req.version;
    let latest_text = String::from_str(latest_version);
    match (Version::parse(body.as_str()), Version::parse(latest_version)) {
        (Some(r), Some(l)) => {
            let op = chars_of(req.operator.as_str());
            let n = op.len();
            if n == 1 && op[0] == '~' {
                assert(op@ =~= seq!['~']);
                r.major != l.major || (r.minor.is_some() && l.minor.is_some() && r.minor != l.minor)
            } else if n == 1 && op[0] == '=' {
                assert(op@ =~= seq!['=']);
                assert(op@ != seq!['~']);
                !(r.major == l.major && r.minor == l.minor && r.patch == l.patch
                    && same_text(&r.pre_release, &l.pre_release))
            } else if (n == 1 && (op[0] == '>' || op[0] == '<')) || (n == 2 && (op[0] == '>'
                || op[0] == '<') && op[1] == '=') {
                assert(is_range_operator(op@)) by {
                    if n == 1 && op[0] == '>' {
                        assert(op@ =~= seq!['>']);
                    } else if n == 1 {
                        assert(op@ =~= seq!['<']);
                    } else if op[0] == '>' {
                        assert(op@ =~= seq!['>', '=']);
                    } else {
                        assert(op@ =~= seq!['<', '=']);
                    }
                }
                assert(op@ != seq!['~'] && op@ != seq!['=']) by {
                    if n == 1 {
                        assert(op@[0] != '~' && op@[0] != '=');
                    }
                }
                false
            } else {
                assert(!is_range_operator(op@) && op@ != seq!['~'] && op@ != seq!['=']) by {
                    if op@ == seq!['~'] || op@ == seq!['='] || op@ == seq!['>'] || op@ == seq!['<'] {
                        assert(op@[0] == op[0]);
                    }
                    if op@ == seq!['>', '='] || op@ == seq!['<', '='] {
                        assert(op@[0] == op[0] && op@[1] == op[1]);
                    }
                }
                match r.compare(&l) {
                    Ordering::Less => true,
                    _ => false,
                }
            }
        },
        _ => body != latest_text,
    }
}

fn same_text(a: &Option<String>, b: &Option<String>) -> (r: bool)
    ensures
        r == (crate::version::opt_text(*a) == crate::version::opt_text(*b)),
{
    match (a, b) {
        (None, None) => true,
        (Some(x), Some(y)) => x.eq(y),
        _ => false,
    }
}

/// The wildcard requirement `*` is never outdated, whatever the latest version.
pub proof fn lemma_wildcard_never_outdated(req: Seq<char>, latest: Seq<char>)
    requires
        trim(req) == seq!['*'],
    ensures
        !outdated(req, latest),
{
}

} // verus!
