//! Requirement strings: an operator in front of a version body.
use vstd::prelude::*;
use crate::text::{
    before_first, chars_of, find_char, index_of, parse_u32, parse_u32_in, string_of, trim,
    trim_bounds,
};

verus! {

/// A declared requirement: `operator` is one of `^`, `~`, `=`, `>=`, `<=`, `>`,
/// `<`, or empty for a bare version; `version` is the text after it.
#[derive(Debug)]
pub struct VersionRequirement {
    pub operator: String,
    pub version: String,
}

/// The operator at the front of trimmed requirement text `t`, checked in the
/// order `^`, `~`, `=`, `>=`, `<=`, `>`, `<`; empty when none is there.
pub open spec fn operator_of(t: Seq<char>) -> Seq<char> {
    if t.len() >= 1 && t[0] == '^' {
        seq!['^']
    } else if t.len() >= 1 && t[0] == '~' {
        seq!['~']
    } else if t.len() >= 1 && t[0] == '=' {
        seq!['=']
    } else if t.len() >= 2 && t[0] == '>' && t[1] == '=' {
        seq!['>', '=']
    } else if t.len() >= 2 && t[0] == '<' && t[1] == '=' {
        seq!['<', '=']
    } else if t.len() >= 1 && t[0] == '>' {
        seq!['>']
    } else if t.len() >= 1 && t[0] == '<' {
        seq!['<']
    } else {
        Seq::empty()
    }
}

/// The operator of requirement text `req`.
pub open spec fn requirement_operator(req: Seq<char>) -> Seq<char> {
    operator_of(trim(req))
}

/// The version body of requirement text `req`: what follows the operator.
pub open spec fn requirement_body(req: Seq<char>) -> Seq<char> {
    let t = trim(req);
    t.subrange(operator_of(t).len() as int, t.len() as int)
}

/// Splits a requirement such as `^1.2`, `>= 0.3` or `1.0.4` into operator and
/// version body. It always succeeds: a body that is no version is kept as text.
pub fn parse_version_requirement(req: &str) -> (r: Option<VersionRequirement>)
    ensures
        r matches Some(q) && q.operator@ == requirement_operator(req@) && q.version@
            == requirement_body(req@),
{
    let all = chars_of(req);
    let (a, b) = trim_bounds(&all);
    let t = req.substring_char(a, b);
    let v = chars_of(t);
    let n = v.len();
    proof {
        reveal_strlit("^");
        reveal_strlit("~");
        reveal_strlit("=");
        reveal_strlit(">=");
        reveal_strlit("<=");
        reveal_strlit(">");
        reveal_strlit("<");
        reveal_strlit("");
    }
    let (op, len): (&str, usize) = if n >= 1 && v[0] == '^' {
        ("^", 1)
    } else if n >= 1 && v[0] == '~' {
        ("~", 1)
    } else if n >= 1 && v[0] == '=' {
        ("=", 1)
    } else if n >= 2 && v[0] == '>' && v[1] == '=' {
        (">=", 2)
    } else if n >= 2 && v[0] == '<' && v[1] == '=' {
        ("<=", 2)
    } else if n >= 1 && v[0] == '>' {
        (">", 1)
    } else if n >= 1 && v[0] == '<' {
        ("<", 1)
    } else {
        ("", 0)
    };
    assert(op@ =~= operator_of(t@));
    Some(VersionRequirement { operator: String::from_str(op), version: string_of(t, len, n) })
}

/// What `parse_simple_version` reads: one to three leading dot-separated
/// numbers, the missing ones taken as zero; parts after the third are ignored.
pub open spec fn simple_version(s: Seq<char>) -> Option<(u32, u32, u32)> {
    let d1 = index_of(s, '.');
    if d1 < 0 {
        match parse_u32(s) {
            Some(a) => Some((a, 0, 0)),
            None => None,
        }
    } else {
        let rest = s.subrange(d1 + 1, s.len() as int);
        let d2 = index_of(rest, '.');
        if d2 < 0 {
            match (parse_u32(s.subrange(0, d1)), parse_u32(rest)) {
                (Some(a), Some(b)) => Some((a, b, 0)),
                _ => None,
            }
        } else {
            let third = before_first(rest.subrange(d2 + 1, rest.len() as int), '.');
            match (parse_u32(s.subrange(0, d1)), parse_u32(rest.subrange(0, d2)), parse_u32(third)) {
                (Some(a), Some(b), Some(p)) => Some((a, b, p)),
                _ => None,
            }
        }
    }
}

/// Reads `major[.minor[.patch]]` into a triple, zero for what is missing.
pub fn parse_simple_version(version: &str) -> (r: Option<(u32, u32, u32)>)
    ensures
        r == simple_version(version@),
{
    let v = chars_of(version);
    let n = v.len();
    let ghost s = v@;
    assert(s.subrange(0, n as int) =~= s);
    match find_char(&v, 0, n, '.') {
        None => {
            match parse_u32_in(&v, 0, n) {
                Some(a) => Some((a, 0, 0)),
                None => None,
            }
        },
        Some(d1) => {
            let ghost rest = s.subrange(d1 + 1, n as int);
            let a = parse_u32_in(&v, 0, d1);
            match find_char(&v, d1 + 1, n, '.') {
                None => {
                    let b = parse_u32_in(&v, d1 + 1, n);
                    match (a, b) {
                        (Some(a), Some(b)) => Some((a, b, 0)),
                        _ => None,
                    }
                },
                Some(d2) => {
                    assert(rest.subrange(0, d2 - d1 - 1) =~= s.subrange(d1 + 1, d2 as int));
                    let ghost tail = rest.subrange(d2 - d1, rest.len() as int);
                    assert(tail =~= s.subrange(d2 + 1, n as int));
                    let end = match find_char(&v, d2 + 1, n, '.') {
                        Some(d3) => d3,
                        None => n,
                    };
                    assert(before_first(tail, '.') =~= s.subrange(d2 + 1, end as int));
                    let b = parse_u32_in(&v, d1 + 1, d2);
                    let p = parse_u32_in(&v, d2 + 1, end);
                    match (a, b, p) {
                        (Some(a), Some(b), Some(p)) => Some((a, b, p)),
                        _ => None,
                    }
                },
            }
        },
    }
}

} // verus!
