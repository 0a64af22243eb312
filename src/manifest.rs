//! Reading dependency declarations out of a parsed manifest.
use vstd::prelude::*;
use crate::text::text_eq;
use crate::types::{Dependency, DependencyType, DependencyView};
use crate::version::opt_text;

verus! {

/// A TOML value as the manifest logic reads it.
#[derive(Debug)]
pub enum TomlValue {
    Str(String),
    Boolean(bool),
    Array(Vec<TomlValue>),
    Table(Vec<(String, TomlValue)>),
    Other,
}

/// The mathematical value of a `TomlValue`.
pub enum TomlTree {
    Str(Seq<char>),
    Boolean(bool),
    Array(Seq<TomlTree>),
    Table(Seq<(Seq<char>, TomlTree)>),
    Other,
}

pub open spec fn tree_of(v: TomlValue) -> TomlTree
    decreases v,
{
    match v {
        TomlValue::Str(s) => TomlTree::Str(s@),
        TomlValue::Boolean(b) => TomlTree::Boolean(b),
        TomlValue::Array(a) => TomlTree::Array(
            Seq::new(
                a@.len(),
                |i: int|
                    if 0 <= i < a@.len() {
                        tree_of(a@[i])
                    } else {
                        TomlTree::Other
                    },
            ),
        ),
        TomlValue::Table(t) => TomlTree::Table(
            Seq::new(
                t@.len(),
                |i: int|
                    if 0 <= i < t@.len() {
                        (t@[i].0@, tree_of(t@[i].1))
                    } else {
                        (Seq::empty(), TomlTree::Other)
                    },
            ),
        ),
        TomlValue::Other => TomlTree::Other,
    }
}

/// The entries of a table, as `tree_of` gives them.
pub open spec fn entries_tree(t: Seq<(String, TomlValue)>) -> Seq<(Seq<char>, TomlTree)> {
    Seq::new(t.len(), |i: int| (t[i].0@, tree_of(t[i].1)))
}

proof fn lemma_table_tree(t: Vec<(String, TomlValue)>)
    ensures
        tree_of(TomlValue::Table(t)) == TomlTree::Table(entries_tree(t@)),
{
    match tree_of(TomlValue::Table(t)) {
        TomlTree::Table(s) => {
            assert(s =~= entries_tree(t@));
        },
        _ => {},
    }
}

/// The value under the first entry named `key`.
pub open spec fn lookup(entries: Seq<(Seq<char>, TomlTree)>, key: Seq<char>) -> Option<TomlTree>
    decreases entries.len(),
{
    if entries.len() == 0 {
        None
    } else if entries[0].0 == key {
        Some(entries[0].1)
    } else {
        lookup(entries.drop_first(), key)
    }
}

/// The value under `key` where `v` is a table.
pub open spec fn get(v: Option<TomlTree>, key: Seq<char>) -> Option<TomlTree> {
    match v {
        Some(TomlTree::Table(t)) => lookup(t, key),
        _ => None,
    }
}

/// The entries of `v` where it is a table; none otherwise.
pub open spec fn entries_of(v: Option<TomlTree>) -> Seq<(Seq<char>, TomlTree)> {
    match v {
        Some(TomlTree::Table(t)) => t,
        _ => Seq::empty(),
    }
}

/// The version that an entry of the workspace table declares: a string, or the
/// `version` string of a table.
pub open spec fn version_only(v: TomlTree) -> Option<Seq<char>> {
    match v {
        TomlTree::Str(s) => Some(s),
        TomlTree::Table(t) => match lookup(t, "version"@) {
            Some(TomlTree::Str(s)) => Some(s),
            _ => None,
        },
        _ => None,
    }
}

/// The version of `name` in a workspace version table (first match).
pub open spec fn workspace_lookup(ws: Seq<(Seq<char>, Seq<char>)>, name: Seq<char>) -> Option<Seq<char>>
    decreases ws.len(),
{
    if ws.len() == 0 {
        None
    } else if ws[0].0 == name {
        Some(ws[0].1)
    } else {
        workspace_lookup(ws.drop_first(), name)
    }
}

/// The requirement that a member table's entry `name = v` declares: a string;
/// for `{ workspace = true }` the workspace table's version, if it has one; else
/// a `version` string. Entries that name only a `path` or `git` source declare
/// none.
pub open spec fn declared_requirement(
    v: TomlTree,
    name: Seq<char>,
    ws: Seq<(Seq<char>, Seq<char>)>,
) -> Option<Seq<char>> {
    match v {
        TomlTree::Str(s) => Some(s),
        TomlTree::Table(t) => {
            if lookup(t, "workspace"@) == Some(TomlTree::Boolean(true)) {
                workspace_lookup(ws, name)
            } else {
                match lookup(t, "version"@) {
                    Some(TomlTree::Str(s)) => Some(s),
                    _ => None,
                }
            }
        },
        _ => None,
    }
}

/// The workspace version table: each workspace entry that declares a version.
pub open spec fn workspace_versions(entries: Seq<(Seq<char>, TomlTree)>) -> Seq<(Seq<char>, Seq<char>)>
    decreases entries.len(),
{
    if entries.len() == 0 {
        Seq::empty()
    } else {
        let rest = workspace_versions(entries.drop_last());
        match version_only(entries.last().1) {
            Some(v) => rest.push((entries.last().0, v)),
            None => rest,
        }
    }
}

pub open spec fn record(name: Seq<char>, req: Seq<char>, kind: DependencyType, source: Seq<char>) -> DependencyView {
    DependencyView { name, current_version: req, latest_version: None, dep_type: kind, source }
}

/// The `Workspace` records of the workspace table's entries.
pub open spec fn workspace_records(entries: Seq<(Seq<char>, TomlTree)>, source: Seq<char>) -> Seq<DependencyView>
    decreases entries.len(),
{
    if entries.len() == 0 {
        Seq::empty()
    } else {
        let rest = workspace_records(entries.drop_last(), source);
        match version_only(entries.last().1) {
            Some(v) => rest.push(record(entries.last().0, v, DependencyType::Workspace, source)),
            None => rest,
        }
    }
}

/// The records of one dependency table's entries, in order, each that declares
/// a requirement.
pub open spec fn section_records(
    entries: Seq<(Seq<char>, TomlTree)>,
    ws: Seq<(Seq<char>, Seq<char>)>,
    kind: DependencyType,
    source: Seq<char>,
) -> Seq<DependencyView>
    decreases entries.len(),
{
    if entries.len() == 0 {
        Seq::empty()
    } else {
        let rest = section_records(entries.drop_last(), ws, kind, source);
        match declared_requirement(entries.last().1, entries.last().0, ws) {
            Some(v) => rest.push(record(entries.last().0, v, kind, source)),
            None => rest,
        }
    }
}

/// The workspace table `[workspace.dependencies]` of a manifest.
pub open spec fn workspace_table(doc: TomlTree) -> Seq<(Seq<char>, TomlTree)> {
    entries_of(get(get(Some(doc), "workspace"@), "dependencies"@))
}

/// Everything a manifest declares, in order: the workspace table's records,
/// then `[dependencies]`, `[dev-dependencies]` and, where asked for,
/// `[build-dependencies]`.
pub open spec fn extraction(doc: TomlTree, include_build: bool, source: Seq<char>) -> Seq<DependencyView> {
    let ws_entries = workspace_table(doc);
    let ws = workspace_versions(ws_entries);
    let normal = section_records(entries_of(get(Some(doc), "dependencies"@)), ws, DependencyType::Normal, source);
    let dev = section_records(entries_of(get(Some(doc), "dev-dependencies"@)), ws, DependencyType::Dev, source);
    let build = section_records(entries_of(get(Some(doc), "build-dependencies"@)), ws, DependencyType::Build, source);
    workspace_records(ws_entries, source) + normal + dev + if include_build {
        build
    } else {
        Seq::empty()
    }
}

pub open spec fn views(s: Seq<Dependency>) -> Seq<DependencyView> {
    s.map_values(|d: Dependency| d@)
}

pub open spec fn tree_opt(v: Option<&TomlValue>) -> Option<TomlTree> {
    match v {
        Some(x) => Some(tree_of(*x)),
        None => None,
    }
}

/// The value under `key` in `v`, where `v` is a table that has one.
fn get_value<'a>(v: Option<&'a TomlValue>, key: &str) -> (r: Option<&'a TomlValue>)
    ensures
        match r {
            Some(x) => get(tree_opt(v), key@) == Some(tree_of(*x)),
            None => get(tree_opt(v), key@) is None,
        },
{
    match v {
        Some(TomlValue::Table(t)) => {
            proof {
                lemma_table_tree(*t);
            }
            let ghost e = entries_tree(t@);
            let mut i: usize = 0;
            assert(e.subrange(0, e.len() as int) =~= e);
            while i < t.len()
                invariant
                    e == entries_tree(t@),
                    tree_opt(v) == Some(TomlTree::Table(e)),
                    i <= t@.len(),
                    lookup(e, key@) == lookup(e.subrange(i as int, e.len() as int), key@),
                decreases t@.len() - i,
            {
                let entry = &t[i];
                if text_eq(entry.0.as_str(), key) {
                    assert(e.subrange(i as int, e.len() as int)[0] == e[i as int]);
                    assert(e[i as int] == (t@[i as int].0@, tree_of(t@[i as int].1)));
                    assert(entry.0@ == key@);
                    assert(lookup(e, key@) == Some(tree_of(entry.1)));
                    assert(tree_opt(v) == Some(TomlTree::Table(e)));
                    return Some(&entry.1);
                }
                assert(e.subrange(i as int, e.len() as int).drop_first() =~= e.subrange(
                    i + 1,
                    e.len() as int,
                ));
                i = i + 1;
            }
            None
        },
        _ => None,
    }
}

/// The entries of `v` where it is a table.
fn table_entries<'a>(v: Option<&'a TomlValue>) -> (r: &'a [(String, TomlValue)])
    ensures
        entries_tree(r@) == entries_of(tree_opt(v)),
{
    match v {
        Some(TomlValue::Table(t)) => {
            proof {
                lemma_table_tree(*t);
            }
            t.as_slice()
        },
        _ => {
            let e: &[(String, TomlValue)] = &[];
            assert(entries_tree(e@) =~= Seq::empty());
            e
        },
    }
}

pub open spec fn pairs_view(ws: Seq<(String, String)>) -> Seq<(Seq<char>, Seq<char>)> {
    ws.map_values(|p: (String, String)| (p.0@, p.1@))
}

fn version_only_of(v: &TomlValue) -> (r: Option<String>)
    ensures
        opt_text(r) == version_only(tree_of(*v)),
{
    match v {
        TomlValue::Str(s) => Some(s.clone()),
        TomlValue::Table(t) => {
            proof {
                lemma_table_tree(*t);
            }
            match get_value(Some(v), "version") {
                Some(TomlValue::Str(s)) => Some(s.clone()),
                _ => None,
            }
        },
        _ => None,
    }
}

fn workspace_version_of(ws: &Vec<(String, String)>, name: &str) -> (r: Option<String>)
    ensures
        opt_text(r) == workspace_lookup(pairs_view(ws@), name@),
{
    let ghost p = pairs_view(ws@);
    let mut i: usize = 0;
    assert(p.subrange(0, p.len() as int) =~= p);
    while i < ws.len()
        invariant
            p == pairs_view(ws@),
            i <= ws@.len(),
            workspace_lookup(p, name@) == workspace_lookup(p.subrange(i as int, p.len() as int), name@),
        decreases ws@.len() - i,
    {
        assert(p.subrange(i as int, p.len() as int)[0] == p[i as int]);
        if text_eq(ws[i].0.as_str(), name) {
            return Some(ws[i].1.clone());
        }
        assert(p.subrange(i as int, p.len() as int).drop_first() =~= p.subrange(i + 1, p.len() as int));
        i = i + 1;
    }
    None
}

fn declared_requirement_of(v: &TomlValue, name: &str, ws: &Vec<(String, String)>) -> (r: Option<String>)
    ensures
        opt_text(r) == declared_requirement(tree_of(*v), name@, pairs_view(ws@)),
{
    match v {
        TomlValue::Str(s) => Some(s.clone()),
        TomlValue::Table(t) => {
            proof {
                lemma_table_tree(*t);
            }
            let inherits = match get_value(Some(v), "workspace") {
                Some(TomlValue::Boolean(b)) => *b,
                _ => false,
            };
            if inherits {
                workspace_version_of(ws, name)
            } else {
                match get_value(Some(v), "version") {
                    Some(TomlValue::Str(s)) => Some(s.clone()),
                    _ => None,
                }
            }
        },
        _ => None,
    }
}

proof fn lemma_views_push(s: Seq<Dependency>, d: Dependency)
    ensures
        views(s.push(d)) == views(s).push(d@),
{
    assert(views(s.push(d)) =~= views(s).push(d@));
}

/// Reads the workspace table: its records go to `out`, its versions to `ws`.
fn read_workspace_table(
    entries: &[(String, TomlValue)],
    source: &str,
    out: &mut Vec<Dependency>,
    ws: &mut Vec<(String, String)>,
)
    ensures
        views(final(out)@) == views(old(out)@) + workspace_records(entries_tree(entries@), source@),
        pairs_view(final(ws)@) == pairs_view(old(ws)@) + workspace_versions(entries_tree(entries@)),
{
    let ghost e = entries_tree(entries@);
    let ghost out0 = views(out@);
    let ghost ws0 = pairs_view(ws@);
    let mut i: usize = 0;
    assert(e.subrange(0, 0) =~= Seq::<(Seq<char>, TomlTree)>::empty());
    assert(out0 + Seq::<DependencyView>::empty() =~= out0);
    assert(ws0 + Seq::<(Seq<char>, Seq<char>)>::empty() =~= ws0);
    while i < entries.len()
        invariant
            e == entries_tree(entries@),
            i <= entries@.len(),
            views(out@) == out0 + workspace_records(e.subrange(0, i as int), source@),
            pairs_view(ws@) == ws0 + workspace_versions(e.subrange(0, i as int)),
        decreases entries@.len() - i,
    {
        let entry = &entries[i];
        let ghost pre = e.subrange(0, i as int);
        let ghost next = e.subrange(0, i + 1);
        assert(next.drop_last() =~= pre);
        assert(next.last() == (entry.0@, tree_of(entry.1)));
        match version_only_of(&entry.1) {
            Some(v) => {
                let d = Dependency {
                    name: entry.0.clone(),
                    current_version: v.clone(),
                    latest_version: None,
                    dep_type: DependencyType::Workspace,
                    source: String::from_str(source),
                };
                proof {
                    lemma_views_push(out@, d);
                }
                out.push(d);
                let ghost old_ws = ws@;
                ws.push((entry.0.clone(), v));
                assert(pairs_view(ws@) =~= pairs_view(old_ws).push((entry.0@, opt_text(Some(v))->0)));
                assert(views(out@) =~= out0 + workspace_records(next, source@));
                assert(pairs_view(ws@) =~= ws0 + workspace_versions(next));
            },
            None => {
                assert(workspace_records(next, source@) == workspace_records(pre, source@));
                assert(workspace_versions(next) == workspace_versions(pre));
            },
        }
        i = i + 1;
    }
    assert(e.subrange(0, i as int) =~= e);
}

/// Reads one member table into records of kind `kind`.
fn read_section(
    entries: &[(String, TomlValue)],
    ws: &Vec<(String, String)>,
    kind: DependencyType,
    source: &str,
    out: &mut Vec<Dependency>,
)
    ensures
        views(final(out)@) == views(old(out)@) + section_records(
            entries_tree(entries@),
            pairs_view(ws@),
            kind,
            source@,
        ),
{
    let ghost e = entries_tree(entries@);
    let ghost w = pairs_view(ws@);
    let ghost out0 = views(out@);
    let mut i: usize = 0;
    assert(e.subrange(0, 0) =~= Seq::<(Seq<char>, TomlTree)>::empty());
    assert(out0 + Seq::<DependencyView>::empty() =~= out0);
    while i < entries.len()
        invariant
            e == entries_tree(entries@),
            w == pairs_view(ws@),
            i <= entries@.len(),
            views(out@) == out0 + section_records(e.subrange(0, i as int), w, kind, source@),
        decreases entries@.len() - i,
    {
        let entry = &entries[i];
        let ghost pre = e.subrange(0, i as int);
        let ghost next = e.subrange(0, i + 1);
        assert(next.drop_last() =~= pre);
        assert(next.last() == (entry.0@, tree_of(entry.1)));
        match declared_requirement_of(&entry.1, entry.0.as_str(), ws) {
            Some(v) => {
                let d = Dependency {
                    name: entry.0.clone(),
                    current_version: v,
                    latest_version: None,
                    dep_type: kind,
                    source: String::from_str(source),
                };
                proof {
                    lemma_views_push(out@, d);
                }
                out.push(d);
                assert(views(out@) =~= out0 + section_records(next, w, kind, source@));
            },
            None => {
                assert(section_records(next, w, kind, source@) == section_records(pre, w, kind, source@));
            },
        }
        i = i + 1;
    }
    assert(e.subrange(0, i as int) =~= e);
}

/// The dependency records that manifest `doc` declares, labelled with
/// `source_name`, with no latest version yet.
pub fn extract_dependencies(doc: &TomlValue, include_build: bool, source_name: &str) -> (r: Vec<Dependency>)
    ensures
        views(r@) == extraction(tree_of(*doc), include_build, source_name@),
{
    let root = Some(doc);
    let mut out: Vec<Dependency> = Vec::new();
    let mut ws: Vec<(String, String)> = Vec::new();
    let ws_entries = table_entries(get_value(get_value(root, "workspace"), "dependencies"));
    read_workspace_table(ws_entries, source_name, &mut out, &mut ws);
    assert(pairs_view(Seq::<(String, String)>::empty()) =~= Seq::empty());
    assert(Seq::<(Seq<char>, Seq<char>)>::empty() + workspace_versions(entries_tree(ws_entries@))
        =~= workspace_versions(entries_tree(ws_entries@)));
    read_section(table_entries(get_value(root, "dependencies")), &ws, DependencyType::Normal, source_name, &mut out);
    read_section(table_entries(get_value(root, "dev-dependencies")), &ws, DependencyType::Dev, source_name, &mut out);
    let ghost before_build = views(out@);
    if include_build {
        read_section(
            table_entries(get_value(root, "build-dependencies")),
            &ws,
            DependencyType::Build,
            source_name,
            &mut out,
        );
    }
    assert(views(Seq::<Dependency>::empty()) =~= Seq::empty());
    assert(views(out@) =~= extraction(tree_of(*doc), include_build, source_name@));
    out
}

#[verifier::external_type_specification]
#[verifier::external_body]
pub struct ExTomlValue(toml::Value);

/// The document that `toml::from_str::<toml::Value>` reads from `text`; none
/// where `text` is not valid TOML.
pub uninterp spec fn toml_document(text: Seq<char>) -> Option<TomlTree>;

/// Relies on `toml::from_str::<toml::Value>`: parses `text` as a TOML document,
/// or fails with the parser's message.
#[verifier::external_body]
fn toml_from_str(text: &str) -> (r: Result<TomlValue, String>)
    ensures
        match r {
            Ok(v) => toml_document(text@) == Some(tree_of(v)),
            Err(_) => toml_document(text@) is None,
        },
{
    toml::from_str::<toml::Value>(text).map(value_from_toml).map_err(|e| e.to_string())
}

/// Carries a `toml::Value` over into a `TomlValue`, variant for variant:
/// strings, booleans, arrays and tables (in the order toml walks them) keep
/// their contents; integers, floats and datetimes become `Other`.
#[verifier::external_body]
fn value_from_toml(v: toml::Value) -> TomlValue {
    match v {
        toml::Value::String(s) => TomlValue::Str(s),
        toml::Value::Boolean(b) => TomlValue::Boolean(b),
        toml::Value::Array(a) => TomlValue::Array(a.into_iter().map(value_from_toml).collect()),
        toml::Value::Table(t) => TomlValue::Table(t.into_iter().map(|(k, x)| (k, value_from_toml(x))).collect()),
        _ => TomlValue::Other,
    }
}

/// Why a manifest could not be read.
#[derive(Debug)]
pub enum ManifestError {
    /// The file could not be read; the text says which and why.
    Read(String),
    /// The file is not valid TOML; the text is the parser's message.
    Parse(String),
}

/// Parses manifest text into a document.
pub fn parse_manifest(content: &str) -> (r: Result<TomlValue, ManifestError>)
    ensures
        match r {
            Ok(v) => toml_document(content@) == Some(tree_of(v)),
            Err(e) => toml_document(content@) is None && e is Parse,
        },
{
    match toml_from_str(content) {
        Ok(v) => Ok(v),
        Err(message) => Err(ManifestError::Parse(message)),
    }
}

/// The dependency records that manifest text `content` declares (see
/// `extraction`), labelled with `source_name`; a parse error where the text is
/// not TOML.
pub fn parse_cargo_toml(content: &str, include_build: bool, source_name: &str) -> (r: Result<
    Vec<Dependency>,
    ManifestError,
>)
    ensures
        match r {
            Ok(deps) => toml_document(content@) matches Some(doc) && views(deps@) == extraction(
                doc,
                include_build,
                source_name@,
            ),
            Err(e) => toml_document(content@) is None && e is Parse,
        },
{
    let doc = parse_manifest(content)?;
    Ok(extract_dependencies(&doc, include_build, source_name))
}

/// The string items of an array, in order.
pub open spec fn string_items(items: Seq<TomlTree>) -> Seq<Seq<char>>
    decreases items.len(),
{
    if items.len() == 0 {
        Seq::empty()
    } else {
        let rest = string_items(items.drop_last());
        match items.last() {
            TomlTree::Str(s) => rest.push(s),
            _ => rest,
        }
    }
}

/// The entries of `workspace.members` that are strings.
pub open spec fn member_list(doc: TomlTree) -> Seq<Seq<char>> {
    match get(get(Some(doc), "workspace"@), "members"@) {
        Some(TomlTree::Array(items)) => string_items(items),
        _ => Seq::empty(),
    }
}

pub open spec fn texts(s: Seq<String>) -> Seq<Seq<char>> {
    s.map_values(|x: String| x@)
}

/// The member directories that `workspace.members` lists, as written.
pub fn workspace_members(doc: &TomlValue) -> (r: Vec<String>)
    ensures
        texts(r@) == member_list(tree_of(*doc)),
{
    let mut out: Vec<String> = Vec::new();
    match get_value(get_value(Some(doc), "workspace"), "members") {
        Some(TomlValue::Array(a)) => {
            let ghost items = Seq::new(a@.len(), |i: int| tree_of(a@[i]));
            proof {
                match tree_of(TomlValue::Array(*a)) {
                    TomlTree::Array(s) => {
                        assert(s =~= items);
                    },
                    _ => {},
                }
            }
            let mut i: usize = 0;
            assert(items.subrange(0, 0) =~= Seq::<TomlTree>::empty());
            assert(texts(out@) =~= Seq::empty());
            while i < a.len()
                invariant
                    items == Seq::new(a@.len(), |i: int| tree_of(a@[i])),
                    i <= a@.len(),
                    texts(out@) == string_items(items.subrange(0, i as int)),
                decreases a@.len() - i,
            {
                let ghost next = items.subrange(0, i + 1);
                assert(next.drop_last() =~= items.subrange(0, i as int));
                match &a[i] {
                    TomlValue::Str(m) => {
                        let ghost before = out@;
                        out.push(m.clone());
                        assert(texts(out@) =~= texts(before).push(m@));
                    },
                    _ => {},
                }
                i = i + 1;
            }
            assert(items.subrange(0, i as int) =~= items);
        },
        _ => {
            assert(texts(out@) =~= Seq::empty());
        },
    }
    out
}

/// The `package.name` string of a manifest.
pub open spec fn package_name_of(doc: TomlTree) -> Option<Seq<char>> {
    match get(get(Some(doc), "package"@), "name"@) {
        Some(TomlTree::Str(s)) => Some(s),
        _ => None,
    }
}

pub fn package_name(doc: &TomlValue) -> (r: Option<String>)
    ensures
        opt_text(r) == package_name_of(tree_of(*doc)),
{
    match get_value(get_value(Some(doc), "package"), "name") {
        Some(TomlValue::Str(s)) => Some(s.clone()),
        _ => None,
    }
}

/// The label of a workspace member: the package name that its manifest text
/// gives, else the name of its directory.
pub fn member_source_label(content: &str, dir_name: &str) -> (r: String)
    ensures
        r@ == match toml_document(content@) {
            Some(doc) => match package_name_of(doc) {
                Some(n) => n,
                None => dir_name@,
            },
            None => dir_name@,
        },
{
    match parse_manifest(content) {
        Ok(doc) => match package_name(&doc) {
            Some(n) => n,
            None => String::from_str(dir_name),
        },
        Err(_) => String::from_str(dir_name),
    }
}

proof fn lemma_section_records_concat(
    x: Seq<(Seq<char>, TomlTree)>,
    y: Seq<(Seq<char>, TomlTree)>,
    ws: Seq<(Seq<char>, Seq<char>)>,
    kind: DependencyType,
    source: Seq<char>,
)
    ensures
        section_records(x + y, ws, kind, source) == section_records(x, ws, kind, source)
            + section_records(y, ws, kind, source),
    decreases y.len(),
{
    if y.len() == 0 {
        assert(x + y =~= x);
        assert(section_records(x, ws, kind, source) + Seq::<DependencyView>::empty() =~= section_records(x, ws, kind, source));
    } else {
        lemma_section_records_concat(x, y.drop_last(), ws, kind, source);
        assert((x + y).drop_last() =~= x + y.drop_last());
        assert((x + y).last() == y.last());
        let l = section_records(x, ws, kind, source);
        let r = section_records(y.drop_last(), ws, kind, source);
        match declared_requirement(y.last().1, y.last().0, ws) {
            Some(v) => {
                assert(l + r.push(record(y.last().0, v, kind, source)) =~= (l + r).push(record(y.last().0, v, kind, source)));
            },
            None => {},
        }
    }
}

proof fn lemma_workspace_records_concat(
    x: Seq<(Seq<char>, TomlTree)>,
    y: Seq<(Seq<char>, TomlTree)>,
    source: Seq<char>,
)
    ensures
        workspace_records(x + y, source) == workspace_records(x, source) + workspace_records(y, source),
    decreases y.len(),
{
    if y.len() == 0 {
        assert(x + y =~= x);
        assert(workspace_records(x, source) + Seq::<DependencyView>::empty() =~= workspace_records(x, source));
    } else {
        lemma_workspace_records_concat(x, y.drop_last(), source);
        assert((x + y).drop_last() =~= x + y.drop_last());
        assert((x + y).last() == y.last());
        let l = workspace_records(x, source);
        let r = workspace_records(y.drop_last(), source);
        match version_only(y.last().1) {
            Some(v) => {
                assert(l + r.push(record(y.last().0, v, DependencyType::Workspace, source)) =~= (l
                    + r).push(record(y.last().0, v, DependencyType::Workspace, source)));
            },
            None => {},
        }
    }
}

/// An entry that names a `path` and neither a `version` nor `workspace = true`
/// yields no record, wherever it stands in a dependency table or in the
/// workspace table: the records are those of the table without it.
pub proof fn lemma_path_entry_excluded(
    before: Seq<(Seq<char>, TomlTree)>,
    after: Seq<(Seq<char>, TomlTree)>,
    name: Seq<char>,
    t: Seq<(Seq<char>, TomlTree)>,
    ws: Seq<(Seq<char>, Seq<char>)>,
    kind: DependencyType,
    source: Seq<char>,
)
    requires
        lookup(t, "path"@) is Some,
        lookup(t, "version"@) is None,
        lookup(t, "workspace"@) != Some(TomlTree::Boolean(true)),
    ensures
        section_records(before + seq![(name, TomlTree::Table(t))] + after, ws, kind, source)
            == section_records(before + after, ws, kind, source),
        workspace_records(before + seq![(name, TomlTree::Table(t))] + after, source)
            == workspace_records(before + after, source),
{
    let e = seq![(name, TomlTree::Table(t))];
    lemma_section_records_concat(before + e, after, ws, kind, source);
    lemma_section_records_concat(before, e, ws, kind, source);
    lemma_section_records_concat(before, after, ws, kind, source);
    lemma_workspace_records_concat(before + e, after, source);
    lemma_workspace_records_concat(before, e, source);
    lemma_workspace_records_concat(before, after, source);
    assert(e.drop_last() =~= Seq::<(Seq<char>, TomlTree)>::empty());
    assert(e.last() == (name, TomlTree::Table(t)));
    assert(declared_requirement(TomlTree::Table(t), name, ws) is None);
    assert(version_only(TomlTree::Table(t)) is None);
    assert(section_records(Seq::empty(), ws, kind, source) == Seq::<DependencyView>::empty());
    assert(workspace_records(Seq::empty(), source) == Seq::<DependencyView>::empty());
    assert(section_records(e, ws, kind, source) =~= Seq::<DependencyView>::empty());
    assert(workspace_records(e, source) =~= Seq::<DependencyView>::empty());
    assert(section_records(before, ws, kind, source) + Seq::<DependencyView>::empty() =~= section_records(before, ws, kind, source));
    assert(workspace_records(before, source) + Seq::<DependencyView>::empty() =~= workspace_records(before, source));
}

} // verus!
